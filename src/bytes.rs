//! Big-endian integers and byte copying used by the wire codec.
use vstd::prelude::*;

verus! {

/// The eight big-endian bytes of `k`.
pub open spec fn be_bytes(k: u64) -> Seq<u8> {
    seq![
        (k >> 56u64) as u8,
        (k >> 48u64) as u8,
        (k >> 40u64) as u8,
        (k >> 32u64) as u8,
        (k >> 24u64) as u8,
        (k >> 16u64) as u8,
        (k >> 8u64) as u8,
        k as u8,
    ]
}

/// The unsigned integer whose big-endian bytes are `b[0..8]`.
pub open spec fn be_value(b: Seq<u8>) -> u64
    recommends
        b.len() >= 8,
{
    ((b[0] as u64) << 56u64) | ((b[1] as u64) << 48u64) | ((b[2] as u64) << 40u64) | ((
    b[3] as u64) << 32u64) | ((b[4] as u64) << 24u64) | ((b[5] as u64) << 16u64) | ((
    b[6] as u64) << 8u64) | (b[7] as u64)
}

/// Reading back the bytes of a key gives the key.
pub proof fn lemma_be_round_trip(k: u64)
    ensures
        be_value(be_bytes(k)) == k,
{
    let b = be_bytes(k);
    let (b0, b1, b2, b3, b4, b5, b6, b7) = (b[0], b[1], b[2], b[3], b[4], b[5], b[6], b[7]);
    assert(b0 == (k >> 56u64) as u8 && b7 == k as u8);
    assert((((k >> 56u64) as u8 as u64) << 56u64) | (((k >> 48u64) as u8 as u64) << 48u64) | ((
    (k >> 40u64) as u8 as u64) << 40u64) | (((k >> 32u64) as u8 as u64) << 32u64) | (((k
        >> 24u64) as u8 as u64) << 24u64) | (((k >> 16u64) as u8 as u64) << 16u64) | (((k
        >> 8u64) as u8 as u64) << 8u64) | (k as u8 as u64) == k) by (bit_vector);
}

/// Appends the big-endian bytes of `k` to `out`.
pub fn push_be_u64(out: &mut Vec<u8>, k: u64)
    ensures
        final(out)@ == old(out)@ + be_bytes(k),
{
    out.push((k >> 56u64) as u8);
    out.push((k >> 48u64) as u8);
    out.push((k >> 40u64) as u8);
    out.push((k >> 32u64) as u8);
    out.push((k >> 24u64) as u8);
    out.push((k >> 16u64) as u8);
    out.push((k >> 8u64) as u8);
    out.push(k as u8);
    assert(final(out)@ =~= old(out)@ + be_bytes(k));
}

/// Reads the big-endian integer stored at `bytes[at..at + 8]`.
pub fn read_be_u64(bytes: &[u8], at: usize) -> (r: u64)
    requires
        at + 8 <= bytes@.len(),
    ensures
        r == be_value(bytes@.subrange(at as int, at + 8)),
{
    let r = ((bytes[at] as u64) << 56u64) | ((bytes[at + 1] as u64) << 48u64) | ((bytes[at
        + 2] as u64) << 40u64) | ((bytes[at + 3] as u64) << 32u64) | ((bytes[at + 4] as u64)
        << 24u64) | ((bytes[at + 5] as u64) << 16u64) | ((bytes[at + 6] as u64) << 8u64) | (
    bytes[at + 7] as u64);
    r
}

/// Appends every byte of `src` to `out`.
pub fn push_all(out: &mut Vec<u8>, src: &[u8])
    ensures
        final(out)@ == old(out)@ + src@,
{
    let mut i: usize = 0;
    while i < src.len()
        invariant
            0 <= i <= src@.len(),
            out@ == old(out)@ + src@.subrange(0, i as int),
        decreases src@.len() - i,
    {
        out.push(src[i]);
        i = i + 1;
        assert(src@.subrange(0, i as int) =~= src@.subrange(0, i - 1) + seq![src@[i - 1]]);
    }
    assert(src@.subrange(0, i as int) =~= src@);
}

/// A copy of `bytes[start..end]`.
pub fn copy_range(bytes: &[u8], start: usize, end: usize) -> (r: Vec<u8>)
    requires
        start <= end <= bytes@.len(),
    ensures
        r@ == bytes@.subrange(start as int, end as int),
{
    let mut r: Vec<u8> = Vec::new();
    let mut i: usize = start;
    while i < end
        invariant
            start <= i <= end <= bytes@.len(),
            r@ == bytes@.subrange(start as int, i as int),
        decreases end - i,
    {
        r.push(bytes[i]);
        i = i + 1;
        assert(bytes@.subrange(start as int, i as int) =~= bytes@.subrange(start as int, i - 1)
            + seq![bytes@[i - 1]]);
    }
    r
}

} // verus!
