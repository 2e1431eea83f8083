//! Protocol packages and their binary wire frames.
//!
//! Byte 0 holds the type tag in bits 7-6 (`00` message, `01` subscribe,
//! `10` registration) and a flag in bit 5. Subscribe and message frames go on
//! with an 8-byte big-endian route key and the UTF-8 topic; a message frame
//! then holds a `0x00` separator and the payload.
use vstd::prelude::*;
use vstd::utf8::*;
use crate::bytes::{be_bytes, be_value, push_all, push_be_u64, read_be_u64, copy_range, lemma_be_round_trip};

verus! {

broadcast use {encode_utf8_valid_utf8, encode_utf8_decode_utf8};

/// Routing key derived from a topic name.
pub type Key = u64;

pub const TAG_MESSAGE: u8 = 0;
pub const TAG_SUBSCRIBE: u8 = 1;
pub const TAG_REGISTRATION: u8 = 2;

/// Header byte of each frame kind, with and without the flag bit.
pub const HEADER_MESSAGE: u8 = 0x00;
pub const HEADER_SUBSCRIBE: u8 = 0x40;
pub const HEADER_SUBSCRIBE_FLAG: u8 = 0x60;
pub const HEADER_REGISTRATION: u8 = 0x80;
pub const HEADER_REGISTRATION_FLAG: u8 = 0xA0;

/// Shortest valid frame of each kind.
pub const MIN_MESSAGE_LEN: usize = 10;
pub const MIN_SUBSCRIBE_LEN: usize = 9;
pub const MIN_REGISTRATION_LEN: usize = 1;

/// The MD5 digest of `data`.
pub uninterp spec fn md5_of(data: Seq<u8>) -> Seq<u8>;

/// Relies on `md5::compute`: the 16-byte MD5 digest of the input bytes.
#[verifier::external_body]
fn md5_digest(data: &[u8]) -> (r: Vec<u8>)
    ensures
        r@ == md5_of(data@),
        r@.len() == 16,
{
    md5::compute(data).0.to_vec()
}

/// The route key of a topic: the first eight bytes of the MD5 digest of its
/// UTF-8 bytes, read big-endian.
pub open spec fn route_key_of(topic: Seq<char>) -> u64 {
    be_value(md5_of(encode_utf8(topic)))
}

/// Derives the route key of a topic name.
pub fn get_route_key(msg_key: &String) -> (r: Key)
    ensures
        r == route_key_of(msg_key@),
{
    let digest = md5_digest(msg_key.as_str().as_bytes());
    read_be_u64(digest.as_slice(), 0)
}

/// Relies on `String::from_utf8`: the string that the bytes encode when they
/// are valid UTF-8, and an error otherwise.
#[verifier::external_body]
fn string_from_utf8(bytes: Vec<u8>) -> (r: Option<String>)
    ensures
        r is Some <==> valid_utf8(bytes@),
        r is Some ==> r->Some_0@ == decode_utf8(bytes@),
{
    String::from_utf8(bytes).ok()
}

/// Mathematical value of a package.
pub enum PackageModel {
    Subscribe { is_sub: bool, route_key: u64, topic: Seq<char> },
    Registration { is_router: bool },
    Message { route_key: u64, topic: Seq<char>, payload: Seq<u8> },
}

/// Announces that the sender starts (`is_sub`) or stops receiving `msg_key`.
#[derive(Debug, PartialEq, Clone)]
pub struct SubscribePackage {
    pub is_sub: bool,
    pub route_key: Key,
    pub msg_key: String,
}

/// Announces the sender's role.
#[derive(Debug, PartialEq, Clone)]
pub struct RegistrationPackage {
    pub is_router: bool,
}

/// A message published on topic `msg_key`.
#[derive(Debug, PartialEq, Clone)]
pub struct MessagePackage {
    pub route_key: Key,
    pub msg_key: String,
    pub payload: Vec<u8>,
}

/// One protocol package.
#[derive(Debug, PartialEq, Clone)]
pub enum Package {
    Sub(SubscribePackage),
    Reg(RegistrationPackage),
    Msg(MessagePackage),
}

impl View for SubscribePackage {
    type V = PackageModel;

    open spec fn view(&self) -> PackageModel {
        PackageModel::Subscribe { is_sub: self.is_sub, route_key: self.route_key, topic: self.msg_key@ }
    }
}

impl View for RegistrationPackage {
    type V = PackageModel;

    open spec fn view(&self) -> PackageModel {
        PackageModel::Registration { is_router: self.is_router }
    }
}

impl View for MessagePackage {
    type V = PackageModel;

    open spec fn view(&self) -> PackageModel {
        PackageModel::Message { route_key: self.route_key, topic: self.msg_key@, payload: self.payload@ }
    }
}

impl View for Package {
    type V = PackageModel;

    open spec fn view(&self) -> PackageModel {
        match self {
            Package::Sub(s) => s@,
            Package::Reg(r) => r@,
            Package::Msg(m) => m@,
        }
    }
}

/// The frame that encodes package `p`.
pub open spec fn encode_spec(p: PackageModel) -> Seq<u8> {
    match p {
        PackageModel::Subscribe { is_sub, route_key, topic } => seq![
            if is_sub { HEADER_SUBSCRIBE_FLAG } else { HEADER_SUBSCRIBE },
        ] + be_bytes(route_key) + encode_utf8(topic),
        PackageModel::Registration { is_router } => seq![
            if is_router { HEADER_REGISTRATION_FLAG } else { HEADER_REGISTRATION },
        ],
        PackageModel::Message { route_key, topic, payload } => seq![HEADER_MESSAGE] + be_bytes(
            route_key,
        ) + encode_utf8(topic) + seq![0u8] + payload,
    }
}


/// Type tag of a header byte (bits 7-6).
pub open spec fn tag_of(header: u8) -> u8 {
    header >> 6u8
}

/// Flag of a header byte (bit 5).
pub open spec fn flag_of(header: u8) -> bool {
    (header >> 5u8) & 1u8 == 1u8
}

/// `z` is the first zero byte of `b` after the route key.
pub open spec fn is_separator(b: Seq<u8>, z: int) -> bool {
    &&& MIN_SUBSCRIBE_LEN <= z < b.len()
    &&& b[z] == 0
    &&& forall|j: int| MIN_SUBSCRIBE_LEN <= j < z ==> b[j] != 0
}

/// What a subscribe frame decodes to.
pub open spec fn decode_subscribe_spec(b: Seq<u8>) -> Option<PackageModel> {
    if b.len() < MIN_SUBSCRIBE_LEN {
        None
    } else {
        let t = b.subrange(MIN_SUBSCRIBE_LEN as int, b.len() as int);
        if valid_utf8(t) {
            Some(
                PackageModel::Subscribe {
                    is_sub: flag_of(b[0]),
                    route_key: be_value(b.subrange(1, 9)),
                    topic: decode_utf8(t),
                },
            )
        } else {
            None
        }
    }
}

/// What a registration frame decodes to.
pub open spec fn decode_registration_spec(b: Seq<u8>) -> Option<PackageModel> {
    if b.len() < MIN_REGISTRATION_LEN {
        None
    } else {
        Some(PackageModel::Registration { is_router: flag_of(b[0]) })
    }
}

/// What a message frame decodes to.
pub open spec fn decode_message_spec(b: Seq<u8>) -> Option<PackageModel> {
    if b.len() < MIN_MESSAGE_LEN {
        None
    } else if exists|z: int| is_separator(b, z) {
        let z = choose|z: int| is_separator(b, z);
        let t = b.subrange(MIN_SUBSCRIBE_LEN as int, z);
        if valid_utf8(t) {
            Some(
                PackageModel::Message {
                    route_key: be_value(b.subrange(1, 9)),
                    topic: decode_utf8(t),
                    payload: b.subrange(z + 1, b.len() as int),
                },
            )
        } else {
            None
        }
    } else {
        None
    }
}

/// What a frame decodes to; `None` is a decode error.
pub open spec fn decode_spec(b: Seq<u8>) -> Option<PackageModel> {
    if b.len() == 0 {
        None
    } else if tag_of(b[0]) == TAG_MESSAGE {
        decode_message_spec(b)
    } else if tag_of(b[0]) == TAG_SUBSCRIBE {
        decode_subscribe_spec(b)
    } else if tag_of(b[0]) == TAG_REGISTRATION {
        decode_registration_spec(b)
    } else {
        None
    }
}

/// A package that survives a trip over the wire: a message topic holds no
/// zero byte, since the first zero byte ends the topic.
pub open spec fn encodable(p: PackageModel) -> bool {
    match p {
        PackageModel::Message { topic, .. } => forall|i: int|
            0 <= i < encode_utf8(topic).len() ==> encode_utf8(topic)[i] != 0u8,
        _ => true,
    }
}

impl SubscribePackage {
    /// The wire frame of this package.
    pub fn to_bytes(&self) -> (r: Vec<u8>)
        ensures
            r@ == encode_spec(self@),
    {
        let header: u8 = if self.is_sub { HEADER_SUBSCRIBE_FLAG } else { HEADER_SUBSCRIBE };
        let mut r: Vec<u8> = Vec::new();
        r.push(header);
        push_be_u64(&mut r, self.route_key);
        push_all(&mut r, self.msg_key.as_str().as_bytes());
        r
    }
}

impl RegistrationPackage {
    /// The wire frame of this package.
    pub fn to_bytes(&self) -> (r: Vec<u8>)
        ensures
            r@ == encode_spec(self@),
    {
        let header: u8 = if self.is_router { HEADER_REGISTRATION_FLAG } else { HEADER_REGISTRATION };
        let mut r: Vec<u8> = Vec::new();
        r.push(header);
        r
    }
}

impl MessagePackage {
    /// The wire frame of this package.
    pub fn to_bytes(&self) -> (r: Vec<u8>)
        ensures
            r@ == encode_spec(self@),
    {
        let mut r: Vec<u8> = Vec::new();
        r.push(HEADER_MESSAGE);
        push_be_u64(&mut r, self.route_key);
        push_all(&mut r, self.msg_key.as_str().as_bytes());
        r.push(0u8);
        push_all(&mut r, self.payload.as_slice());
        r
    }
}

impl Package {
    /// The wire frame of this package.
    pub fn to_bytes(&self) -> (r: Vec<u8>)
        ensures
            r@ == encode_spec(self@),
    {
        match self {
            Package::Sub(s) => s.to_bytes(),
            Package::Reg(g) => g.to_bytes(),
            Package::Msg(m) => m.to_bytes(),
        }
    }
}

impl SubscribePackage {
    /// Decodes a subscribe frame.
    pub fn from_bytes(bytes: &[u8]) -> (r: Result<SubscribePackage, ()>)
        ensures
            match r {
                Ok(s) => decode_subscribe_spec(bytes@) == Some(s@),
                Err(_) => decode_subscribe_spec(bytes@) is None,
            },
    {
        if bytes.len() < MIN_SUBSCRIBE_LEN {
            return Err(());
        }
        let is_sub = (bytes[0] >> 5u8) & 1u8 == 1u8;
        let route_key = read_be_u64(bytes, 1);
        let topic = copy_range(bytes, MIN_SUBSCRIBE_LEN, bytes.len());
        match string_from_utf8(topic) {
            Some(msg_key) => Ok(SubscribePackage { is_sub, route_key, msg_key }),
            None => Err(()),
        }
    }
}

impl RegistrationPackage {
    /// Decodes a registration frame.
    pub fn from_bytes(bytes: &[u8]) -> (r: Result<RegistrationPackage, ()>)
        ensures
            match r {
                Ok(g) => decode_registration_spec(bytes@) == Some(g@),
                Err(_) => decode_registration_spec(bytes@) is None,
            },
    {
        if bytes.len() < MIN_REGISTRATION_LEN {
            return Err(());
        }
        Ok(RegistrationPackage { is_router: (bytes[0] >> 5u8) & 1u8 == 1u8 })
    }
}

impl MessagePackage {
    /// Decodes a message frame.
    pub fn from_bytes(bytes: &[u8]) -> (r: Result<MessagePackage, ()>)
        ensures
            match r {
                Ok(m) => decode_message_spec(bytes@) == Some(m@),
                Err(_) => decode_message_spec(bytes@) is None,
            },
    {
        if bytes.len() < MIN_MESSAGE_LEN {
            return Err(());
        }
        let mut z: usize = MIN_SUBSCRIBE_LEN;
        while z < bytes.len() && bytes[z] != 0u8
            invariant
                MIN_SUBSCRIBE_LEN <= z <= bytes@.len(),
                forall|j: int| MIN_SUBSCRIBE_LEN <= j < z ==> bytes@[j] != 0,
            decreases bytes@.len() - z,
        {
            z = z + 1;
        }
        if z == bytes.len() {
            assert forall|y: int| !is_separator(bytes@, y) by {
                if is_separator(bytes@, y) {
                    assert(bytes@[y] != 0);
                }
            }
            return Err(());
        }
        proof {
            let b = bytes@;
            assert(is_separator(b, z as int));
            let c = choose|c: int| is_separator(b, c);
            if c < z {
                assert(b[c] != 0);
            }
            if c > z {
                assert(b[z as int] != 0);
            }
            assert(c == z);
        }
        let route_key = read_be_u64(bytes, 1);
        let topic = copy_range(bytes, MIN_SUBSCRIBE_LEN, z);
        let payload = copy_range(bytes, z + 1, bytes.len());
        match string_from_utf8(topic) {
            Some(msg_key) => Ok(MessagePackage { route_key, msg_key, payload }),
            None => Err(()),
        }
    }
}

impl Package {
    /// Decodes a frame of any kind.
    pub fn from_bytes(bytes: &[u8]) -> (r: Result<Package, ()>)
        ensures
            match r {
                Ok(p) => decode_spec(bytes@) == Some(p@),
                Err(_) => decode_spec(bytes@) is None,
            },
    {
        if bytes.len() == 0 {
            return Err(());
        }
        let tag = bytes[0] >> 6u8;
        if tag == TAG_MESSAGE {
            match MessagePackage::from_bytes(bytes) {
                Ok(m) => Ok(Package::Msg(m)),
                Err(_) => Err(()),
            }
        } else if tag == TAG_SUBSCRIBE {
            match SubscribePackage::from_bytes(bytes) {
                Ok(s) => Ok(Package::Sub(s)),
                Err(_) => Err(()),
            }
        } else if tag == TAG_REGISTRATION {
            match RegistrationPackage::from_bytes(bytes) {
                Ok(g) => Ok(Package::Reg(g)),
                Err(_) => Err(()),
            }
        } else {
            Err(())
        }
    }
}

/// Decoding the frame of a package gives the package back.
pub proof fn lemma_round_trip(p: PackageModel)
    requires
        encodable(p),
    ensures
        decode_spec(encode_spec(p)) == Some(p),
{
    let b = encode_spec(p);
    assert(tag_of(HEADER_SUBSCRIBE_FLAG) == TAG_SUBSCRIBE && flag_of(HEADER_SUBSCRIBE_FLAG))
        by (bit_vector);
    assert(tag_of(HEADER_SUBSCRIBE) == TAG_SUBSCRIBE && !flag_of(HEADER_SUBSCRIBE))
        by (bit_vector);
    assert(tag_of(HEADER_REGISTRATION_FLAG) == TAG_REGISTRATION && flag_of(
        HEADER_REGISTRATION_FLAG,
    )) by (bit_vector);
    assert(tag_of(HEADER_REGISTRATION) == TAG_REGISTRATION && !flag_of(HEADER_REGISTRATION))
        by (bit_vector);
    assert(tag_of(HEADER_MESSAGE) == TAG_MESSAGE) by (bit_vector);
    match p {
        PackageModel::Subscribe { is_sub, route_key, topic } => {
            lemma_be_round_trip(route_key);
            assert(b.subrange(1, 9) =~= be_bytes(route_key));
            assert(b.subrange(9, b.len() as int) =~= encode_utf8(topic));
        },
        PackageModel::Registration { is_router } => {},
        PackageModel::Message { route_key, topic, payload } => {
            let e = encode_utf8(topic);
            let z: int = 9 + e.len() as int;
            lemma_be_round_trip(route_key);
            assert(b.subrange(1, 9) =~= be_bytes(route_key));
            assert(b[z] == 0);
            assert forall|j: int| 9 <= j < z implies b[j] != 0 by {
                assert(b[j] == e[j - 9]);
            }
            assert(is_separator(b, z));
            let c = choose|c: int| is_separator(b, c);
            if c < z {
                assert(b[c] == e[c - 9]);
            }
            assert(c == z);
            assert(b.subrange(9, z) =~= e);
            assert(b.subrange(z + 1, b.len() as int) =~= payload);
        },
    }
}

/// A frame shorter than the minimum for its declared kind is a decode error.
pub proof fn lemma_short_frame_rejected(b: Seq<u8>)
    requires
        b.len() == 0 || (tag_of(b[0]) == TAG_MESSAGE && b.len() < MIN_MESSAGE_LEN) || (tag_of(
            b[0],
        ) == TAG_SUBSCRIBE && b.len() < MIN_SUBSCRIBE_LEN),
    ensures
        decode_spec(b) is None,
{
}

} // verus!
