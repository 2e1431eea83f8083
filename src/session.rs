//! The client's local view of its own role and its topic subscriptions.
use vstd::prelude::*;
use crate::protocol::{Key, get_route_key, route_key_of};

verus! {

/// Mathematical value of a session: the role, and the subscribed topics in
/// the order they were added.
pub struct SessionModel {
    pub is_router: bool,
    pub topics: Seq<Seq<char>>,
}

impl SessionModel {
    /// Subscribed topic -> its route key.
    pub open spec fn subscriptions(self) -> Map<Seq<char>, u64> {
        Map::new(|t: Seq<char>| self.topics.contains(t), |t: Seq<char>| route_key_of(t))
    }

    /// The session after subscribing to `t`.
    pub open spec fn with_topic(self, t: Seq<char>) -> SessionModel {
        if self.topics.contains(t) {
            self
        } else {
            SessionModel { topics: self.topics.push(t), ..self }
        }
    }

    /// The session after unsubscribing from `t`.
    pub open spec fn without_topic(self, t: Seq<char>) -> SessionModel {
        if self.topics.contains(t) {
            let i = choose|i: int| 0 <= i < self.topics.len() && self.topics[i] == t;
            SessionModel { topics: self.topics.remove(i), ..self }
        } else {
            self
        }
    }

    /// The session with role `is_router`.
    pub open spec fn with_role(self, is_router: bool) -> SessionModel {
        SessionModel { is_router, ..self }
    }

    /// The stored route key of `t`, if subscribed.
    pub open spec fn key_of(self, t: Seq<char>) -> Option<u64> {
        if self.topics.contains(t) {
            Some(route_key_of(t))
        } else {
            None
        }
    }
}

/// Role and subscriptions of a client; survives reconnects.
#[derive(Debug, Clone)]
pub struct Session {
    is_self_a_router: bool,
    subscriptions: Vec<(String, Key)>,
}

impl View for Session {
    type V = SessionModel;

    closed spec fn view(&self) -> SessionModel {
        SessionModel {
            is_router: self.is_self_a_router,
            topics: self.subscriptions@.map_values(|e: (String, Key)| e.0@),
        }
    }
}

impl Session {
    /// Each topic is stored once, with its own route key.
    pub closed spec fn wf(&self) -> bool {
        &&& self@.topics.no_duplicates()
        &&& forall|i: int|
            0 <= i < self.subscriptions@.len() ==> #[trigger] self.subscriptions@[i].1
                == route_key_of(self.subscriptions@[i].0@)
    }

    /// A session that is no router and has no subscriptions.
    pub fn new() -> (r: Session)
        ensures
            r.wf(),
            !r@.is_router,
            r@.topics == Seq::<Seq<char>>::empty(),
    {
        let r = Session { is_self_a_router: false, subscriptions: Vec::new() };
        assert(r@.topics =~= Seq::<Seq<char>>::empty());
        r
    }

    /// Sets the role; `Some` exactly when it changed.
    pub fn set_a_router(&mut self, is_a_router: bool) -> (r: Option<()>)
        requires
            old(self).wf(),
        ensures
            final(self).wf(),
            final(self)@ == old(self)@.with_role(is_a_router),
            r is Some <==> old(self)@.is_router != is_a_router,
    {
        if is_a_router != self.is_self_a_router {
            self.is_self_a_router = is_a_router;
            Some(())
        } else {
            None
        }
    }

    /// Whether this session is a router.
    pub fn is_a_router(&self) -> (r: bool)
        ensures
            r == self@.is_router,
    {
        self.is_self_a_router
    }

    /// Drops every subscription and keeps the role.
    pub fn clear_subscriptions(&mut self) -> (r: &Self)
        requires
            old(self).wf(),
        ensures
            final(self).wf(),
            final(self)@ == (SessionModel { topics: Seq::empty(), ..old(self)@ }),
    {
        self.subscriptions = Vec::new();
        assert(self@.topics =~= Seq::<Seq<char>>::empty());
        self
    }

    /// Index of `key` among the subscriptions.
    fn find(&self, key: &String) -> (r: Option<usize>)
        requires
            self.wf(),
        ensures
            match r {
                Some(i) => i < self@.topics.len() && self@.topics[i as int] == key@,
                None => !self@.topics.contains(key@),
            },
    {
        let mut i: usize = 0;
        while i < self.subscriptions.len()
            invariant
                0 <= i <= self.subscriptions@.len(),
                self@.topics.len() == self.subscriptions@.len(),
                forall|j: int| 0 <= j < i ==> self@.topics[j] != key@,
            decreases self.subscriptions@.len() - i,
        {
            if self.subscriptions[i].0 == *key {
                return Some(i);
            }
            i = i + 1;
        }
        None
    }

    /// Subscribes to `key`; the new route key, or `None` when already subscribed.
    pub fn sub(&mut self, key: String) -> (r: Option<Key>)
        requires
            old(self).wf(),
        ensures
            final(self).wf(),
            old(self)@.topics.contains(key@) ==> r is None && final(self)@ == old(self)@,
            !old(self)@.topics.contains(key@) ==> r == Some(route_key_of(key@)) && final(self)@
                == (SessionModel { topics: old(self)@.topics.push(key@), ..old(self)@ }),
            final(self)@ == old(self)@.with_topic(key@),
    {
        if let Some(_) = self.find(&key) {
            return None;
        }
        let int_key = get_route_key(&key);
        self.subscriptions.push((key, int_key));
        assert(self@.topics =~= old(self)@.topics.push(key@));
        Some(int_key)
    }

    /// Unsubscribes from `key`; its route key, or `None` when not subscribed.
    pub fn unsub(&mut self, key: String) -> (r: Option<Key>)
        requires
            old(self).wf(),
        ensures
            final(self).wf(),
            final(self)@.is_router == old(self)@.is_router,
            !old(self)@.topics.contains(key@) ==> r is None && final(self)@ == old(self)@,
            old(self)@.topics.contains(key@) ==> r == Some(route_key_of(key@)) && exists|i: int|
                0 <= i < old(self)@.topics.len() && old(self)@.topics[i] == key@
                && final(self)@.topics == old(self)@.topics.remove(i),
            !final(self)@.topics.contains(key@),
            final(self)@ == old(self)@.without_topic(key@),
            forall|t: Seq<char>| t != key@ ==> (final(self)@.topics.contains(t) <==> old(self)@.topics.contains(t)),
    {
        match self.find(&key) {
            None => None,
            Some(i) => {
                let ghost before = self@.topics;
                let entry = self.subscriptions.remove(i);
                proof {
                    let c = choose|c: int| 0 <= c < before.len() && before[c] == key@;
                    assert(c == i as int);
                }
                assert(self@.topics =~= before.remove(i as int));
                proof {
                    assert forall|t: Seq<char>| t != key@ implies (self@.topics.contains(t)
                        <==> before.contains(t)) by {
                        if before.contains(t) {
                            let j = choose|j: int| 0 <= j < before.len() && before[j] == t;
                            if j < i {
                                assert(self@.topics[j] == t);
                            } else {
                                assert(self@.topics[j - 1] == t);
                            }
                        }
                    }
                    if self@.topics.contains(key@) {
                        let j = choose|j: int| 0 <= j < self@.topics.len() && self@.topics[j] == key@;
                        if j < i {
                            assert(before[j] == key@);
                        } else {
                            assert(before[j + 1] == key@);
                        }
                    }
                }
                Some(entry.1)
            },
        }
    }

    /// The route key of `key` when subscribed.
    pub fn is_sub(&self, key: String) -> (r: Option<Key>)
        requires
            self.wf(),
        ensures
            r == self@.key_of(key@),
    {
        match self.find(&key) {
            None => None,
            Some(i) => Some(self.subscriptions[i].1),
        }
    }
    /// A valid session lists each topic once.
    pub proof fn lemma_topics_unique(&self)
        requires
            self.wf(),
        ensures
            self@.topics.no_duplicates(),
    {
    }

    /// A session with the given role and subscriptions, as restored from
    /// saved state; a topic listed twice is kept once.
    pub fn from_parts(is_router: bool, topics: Vec<String>) -> (r: Session)
        ensures
            r.wf(),
            r@.is_router == is_router,
            forall|t: Seq<char>| r@.topics.contains(t) <==> exists|i: int|
                0 <= i < topics@.len() && #[trigger] topics@[i]@ == t,
    {
        let mut r = Session::new();
        let ghost r0 = r@;
        r.set_a_router(is_router);
        let mut i: usize = 0;
        while i < topics.len()
            invariant
                0 <= i <= topics@.len(),
                r.wf(),
                r@.is_router == is_router,
                forall|t: Seq<char>| r@.topics.contains(t) <==> exists|j: int|
                    0 <= j < i && #[trigger] topics@[j]@ == t,
            decreases topics@.len() - i,
        {
            let ghost before = r@;
            let t = topics[i].clone();
            r.sub(t);
            proof {
                assert forall|u: Seq<char>| r@.topics.contains(u) <==> exists|j: int|
                    0 <= j < i + 1 && #[trigger] topics@[j]@ == u by {
                    if u == topics@[i as int]@ {
                        if !before.topics.contains(u) {
                            assert(r@.topics[before.topics.len() as int] == u);
                        }
                    } else {
                        if r@.topics.contains(u) && !before.topics.contains(u) {
                            let k = choose|k: int| 0 <= k < r@.topics.len() && r@.topics[k] == u;
                            if k < before.topics.len() {
                                assert(before.topics[k] == u);
                            }
                        }
                        if before.topics.contains(u) {
                            let k = choose|k: int| 0 <= k < before.topics.len() && before.topics[k] == u;
                            assert(r@.topics[k] == u);
                        }
                    }
                }
            }
            i = i + 1;
        }
        r
    }

    /// A copy of this session.
    pub fn duplicate(&self) -> (r: Session)
        requires
            self.wf(),
        ensures
            r.wf(),
            r@ == self@,
    {
        Session { is_self_a_router: self.is_self_a_router, subscriptions: self.all_keys() }
    }

    /// The route keys of the subscriptions, in subscription order.
    pub fn sub_router_keys(&self) -> (r: Vec<Key>)
        requires
            self.wf(),
        ensures
            r@ == self@.topics.map_values(|t: Seq<char>| route_key_of(t)),
    {
        let mut r: Vec<Key> = Vec::new();
        let mut i: usize = 0;
        while i < self.subscriptions.len()
            invariant
                0 <= i <= self.subscriptions@.len(),
                self.wf(),
                r@ == self@.topics.subrange(0, i as int).map_values(|t: Seq<char>| route_key_of(t)),
            decreases self.subscriptions@.len() - i,
        {
            r.push(self.subscriptions[i].1);
            i = i + 1;
            assert(r@ =~= self@.topics.subrange(0, i as int).map_values(|t: Seq<char>| route_key_of(t)));
        }
        assert(self@.topics.subrange(0, i as int) =~= self@.topics);
        r
    }

    /// The subscribed topics, in subscription order.
    pub fn sub_msg_keys(&self) -> (r: Vec<String>)
        ensures
            r@.map_values(|s: String| s@) == self@.topics,
    {
        let mut r: Vec<String> = Vec::new();
        let mut i: usize = 0;
        while i < self.subscriptions.len()
            invariant
                0 <= i <= self.subscriptions@.len(),
                r@.map_values(|s: String| s@) == self@.topics.subrange(0, i as int),
            decreases self.subscriptions@.len() - i,
        {
            let t = self.subscriptions[i].0.clone();
            assert(t@ == self@.topics[i as int]);
            let ghost before = r@;
            r.push(t);
            assert(r@.map_values(|s: String| s@) =~= before.map_values(|s: String| s@).push(t@));
            i = i + 1;
            assert(r@.map_values(|s: String| s@) =~= self@.topics.subrange(0, i as int));
        }
        assert(self@.topics.subrange(0, i as int) =~= self@.topics);
        r
    }

    /// Every subscription as a (topic, route key) pair, in subscription order.
    pub fn all_keys(&self) -> (r: Vec<(String, u64)>)
        requires
            self.wf(),
        ensures
            r@.len() == self@.topics.len(),
            forall|i: int|
                0 <= i < r@.len() ==> #[trigger] r@[i].0@ == self@.topics[i] && r@[i].1
                    == route_key_of(self@.topics[i]),
            r@.map_values(|e: (String, Key)| e.0@) == self@.topics,
    {
        let mut r: Vec<(String, u64)> = Vec::new();
        let mut i: usize = 0;
        while i < self.subscriptions.len()
            invariant
                0 <= i <= self.subscriptions@.len(),
                self.wf(),
                r@.len() == i,
                forall|j: int| 0 <= j < i ==> #[trigger] r@[j].0@ == self@.topics[j] && r@[j].1
                    == route_key_of(self@.topics[j]),
            decreases self.subscriptions@.len() - i,
        {
            let e = (self.subscriptions[i].0.clone(), self.subscriptions[i].1);
            r.push(e);
            i = i + 1;
        }
        assert(r@.map_values(|e: (String, Key)| e.0@) =~= self@.topics);
        r
    }
}

} // verus!
