//! The users registered to a session, by peer id.
use crate::keyed::{entries_map, keys_distinct, lemma_len, lemma_map_dom, lemma_map_ext, lemma_map_has, lemma_map_lacks};
use vstd::prelude::*;

verus! {

/// The users registered to a session: the user name of each peer id, each peer id once.
pub struct UserRegistry {
    users: Vec<(String, String)>,
}

impl UserRegistry {
    /// The (peer id, user name) entries, in the order they were first registered.
    pub closed spec fn entries(&self) -> Seq<(Seq<char>, Seq<char>)> {
        self.users@.map_values(|e: (String, String)| (e.0@, e.1@))
    }

    /// The user name of each registered peer id.
    pub open spec fn view(&self) -> Map<Seq<char>, Seq<char>> {
        entries_map(self.entries())
    }

    pub open spec fn wf(&self) -> bool {
        keys_distinct(self.entries())
    }

    /// The position of peer id `peer` among the entries, if it is there.
    fn position(&self, peer: &str) -> (r: Option<usize>)
        requires
            self.wf(),
        ensures
            r matches Some(j) ==> j < self.entries().len() && self.entries()[j as int].0 == peer@,
            r is None ==> forall|i: int| 0 <= i < self.entries().len() ==> #[trigger] self.entries()[i].0 != peer@,
    {
        let key = peer.to_owned();
        let mut i: usize = 0;
        while i < self.users.len()
            invariant
                key@ == peer@,
                i <= self.users@.len(),
                forall|k: int| 0 <= k < i ==> #[trigger] self.entries()[k].0 != peer@,
            decreases self.users@.len() - i,
        {
            if self.users[i].0 == key {
                return Some(i);
            }
            i = i + 1;
        }
        None
    }

    /// No user is registered.
    pub fn new() -> (r: Self)
        ensures
            r.wf(),
            r@ == Map::<Seq<char>, Seq<char>>::empty(),
            r.entries().len() == 0,
    {
        let r = UserRegistry { users: Vec::new() };
        assert(r.entries() =~= Seq::empty());
        r
    }

    /// Registers `user` for `peer`, replacing the name the peer had.
    pub fn insert(&mut self, peer: String, user: String)
        requires
            old(self).wf(),
        ensures
            final(self).wf(),
            final(self)@ == old(self)@.insert(peer@, user@),
    {
        let ghost old_es = self.entries();
        proof {
            assert forall|j: int| 0 <= j < old_es.len() implies #[trigger] old_es[j] == (self.users@[j].0@, self.users@[j].1@) by {}
        }
        match self.position(peer.as_str()) {
            Some(j) => {
                let ghost m = old(self)@.insert(peer@, user@);
                self.users.set(j, (peer, user));
                let ghost es = self.entries();
                proof {
                    assert forall|i: int| 0 <= i < es.len() implies es[i] == if i == j { (peer@, user@) } else { old_es[i] } by {}
                    assert forall|i: int, k: int| 0 <= i < k < es.len() implies #[trigger] es[i].0 != #[trigger] es[k].0 by {}
                    assert forall|i: int| 0 <= i < es.len() implies m.contains_key(#[trigger] es[i].0) && m[es[i].0] == es[i].1 by {
                        if i != j {
                            lemma_map_has(old_es, i);
                        }
                    }
                    assert forall|k: Seq<char>| #[trigger] m.contains_key(k) implies exists|i: int| 0 <= i < es.len() && #[trigger] es[i].0 == k by {
                        if k != peer@ {
                            lemma_map_dom(old_es, k);
                            let i = choose|i: int| 0 <= i < old_es.len() && #[trigger] old_es[i].0 == k;
                            assert(es[i].0 == k);
                        } else {
                            assert(es[j as int].0 == k);
                        }
                    }
                    lemma_map_ext(es, m);
                }
            },
            None => {
                self.users.push((peer, user));
                proof {
                    assert(self.entries() =~= old_es.push((peer@, user@)));
                    assert(self.entries().drop_last() =~= old_es);
                }
            },
        }
    }

    /// Registers `user` for `peer` unless the peer is registered already, in which case
    /// nothing changes; tells whether it registered.
    pub fn insert_if_absent(&mut self, peer: String, user: String) -> (added: bool)
        requires
            old(self).wf(),
        ensures
            final(self).wf(),
            added == !old(self)@.contains_key(peer@),
            added ==> final(self)@ == old(self)@.insert(peer@, user@),
            !added ==> final(self)@ == old(self)@,
    {
        match self.position(peer.as_str()) {
            Some(j) => {
                proof {
                    lemma_map_has(self.entries(), j as int);
                }
                false
            },
            None => {
                proof {
                    lemma_map_lacks(self.entries(), peer@);
                }
                self.insert(peer, user);
                true
            },
        }
    }

    /// The user name of `peer`, if it is registered.
    pub fn get(&self, peer: &str) -> (r: Option<&String>)
        requires
            self.wf(),
        ensures
            r matches Some(u) ==> self@.contains_key(peer@) && u@ == self@[peer@],
            r is None ==> !self@.contains_key(peer@),
    {
        match self.position(peer) {
            Some(j) => {
                proof {
                    lemma_map_has(self.entries(), j as int);
                }
                Some(&self.users[j].1)
            },
            None => {
                proof {
                    lemma_map_lacks(self.entries(), peer@);
                }
                None
            },
        }
    }

    /// Unregisters `peer`, handing back its user name if it was registered.
    pub fn remove(&mut self, peer: &str) -> (r: Option<String>)
        requires
            old(self).wf(),
        ensures
            final(self).wf(),
            final(self)@ == old(self)@.remove(peer@),
            r matches Some(u) ==> old(self)@.contains_key(peer@) && u@ == old(self)@[peer@],
            r is None ==> !old(self)@.contains_key(peer@),
    {
        let ghost old_es = self.entries();
        match self.position(peer) {
            Some(j) => {
                proof {
                    lemma_map_has(old_es, j as int);
                }
                let ghost m = old(self)@.remove(peer@);
                let (_, user) = self.users.remove(j);
                let ghost es = self.entries();
                proof {
                    assert(es =~= old_es.remove(j as int));
                    assert forall|i: int| 0 <= i < es.len() implies es[i] == old_es[if i < j { i } else { i + 1 }] by {}
                    assert forall|i: int, k: int| 0 <= i < k < es.len() implies #[trigger] es[i].0 != #[trigger] es[k].0 by {
                        assert(es[i] == old_es[if i < j { i } else { i + 1 }]);
                        assert(es[k] == old_es[if k < j { k } else { k + 1 }]);
                    }
                    assert forall|i: int| 0 <= i < es.len() implies m.contains_key(#[trigger] es[i].0) && m[es[i].0] == es[i].1 by {
                        let oi = if i < j { i } else { i + 1 };
                        assert(es[i] == old_es[oi]);
                        lemma_map_has(old_es, oi);
                    }
                    assert forall|k: Seq<char>| #[trigger] m.contains_key(k) implies exists|i: int| 0 <= i < es.len() && #[trigger] es[i].0 == k by {
                        lemma_map_dom(old_es, k);
                        let oi = choose|i: int| 0 <= i < old_es.len() && #[trigger] old_es[i].0 == k;
                        let i = if oi < j { oi } else { oi - 1 };
                        assert(es[i] == old_es[oi]);
                    }
                    lemma_map_ext(es, m);
                }
                Some(user)
            },
            None => {
                proof {
                    lemma_map_lacks(old_es, peer@);
                    assert(old(self)@.remove(peer@) =~= old(self)@);
                }
                None
            },
        }
    }

    /// The number of registered users.
    pub fn len(&self) -> (n: usize)
        requires
            self.wf(),
        ensures
            n == self@.len(),
    {
        proof {
            lemma_len(self.entries());
        }
        self.users.len()
    }

    /// The registered user names, in the order the users were first registered.
    pub fn names(&self) -> (names: Vec<String>)
        ensures
            names@.len() == self.entries().len(),
            forall|i: int| 0 <= i < names@.len() ==> #[trigger] names@[i]@ == self.entries()[i].1,
    {
        let mut names: Vec<String> = Vec::new();
        let mut i: usize = 0;
        while i < self.users.len()
            invariant
                i <= self.users@.len(),
                names@.len() == i,
                forall|k: int| 0 <= k < i ==> #[trigger] names@[k]@ == self.entries()[k].1,
            decreases self.users@.len() - i,
        {
            names.push(self.users[i].1.clone());
            i = i + 1;
        }
        names
    }

    /// A copy of the registry.
    pub fn duplicate(&self) -> (r: Self)
        ensures
            r.entries() == self.entries(),
    {
        let mut users: Vec<(String, String)> = Vec::new();
        let mut i: usize = 0;
        while i < self.users.len()
            invariant
                i <= self.users@.len(),
                users@.len() == i,
                forall|k: int| 0 <= k < i ==> #[trigger] users@[k].0@ == self.users@[k].0@ && users@[k].1@ == self.users@[k].1@,
            decreases self.users@.len() - i,
        {
            let (p, u) = (self.users[i].0.clone(), self.users[i].1.clone());
            users.push((p, u));
            i = i + 1;
        }
        let r = UserRegistry { users };
        assert(r.entries() =~= self.entries());
        r
    }
}

} // verus!
