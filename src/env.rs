use crate::object::Object;
use crate::token::spells;
use vstd::prelude::*;

verus! {

/// A flat binding table from identifier bytes to values. Each name is bound
/// at most once: binding it again replaces the value.
pub struct Env<'a> {
    entries: Vec<(&'a [u8], Object)>,
}

impl<'a> Env<'a> {
    /// No name has two bindings.
    pub closed spec fn wf(&self) -> bool {
        forall|i: int, j: int|
            0 <= i < j < self.entries@.len() ==> self.entries@[i].0@ != self.entries@[j].0@
    }

    spec fn has_key_at(&self, i: int, k: Seq<u8>) -> bool {
        0 <= i < self.entries@.len() && self.entries@[i].0@ == k
    }

    /// The bindings as a map from name to value.
    pub closed spec fn view(&self) -> Map<Seq<u8>, Object> {
        Map::new(
            |k: Seq<u8>| exists|i: int| self.has_key_at(i, k),
            |k: Seq<u8>| self.entries@[choose|i: int| self.has_key_at(i, k)].1,
        )
    }

    pub fn new() -> (r: Self)
        ensures
            r.wf(),
            r.view() == Map::<Seq<u8>, Object>::empty(),
    {
        let r = Env { entries: Vec::new() };
        assert(r.view() =~= Map::<Seq<u8>, Object>::empty());
        r
    }

    /// The index of the binding of `key`, if any.
    fn find(&self, key: &[u8]) -> (r: Option<usize>)
        ensures
            match r {
                Some(i) => self.has_key_at(i as int, key@),
                None => forall|i: int| 0 <= i < self.entries@.len() ==> !self.has_key_at(i, key@),
            },
    {
        let mut i: usize = 0;
        while i < self.entries.len()
            invariant
                0 <= i <= self.entries@.len(),
                forall|j: int| 0 <= j < i ==> !self.has_key_at(j, key@),
            decreases self.entries@.len() - i,
        {
            if spells(self.entries[i].0, key) {
                return Some(i);
            }
            i = i + 1;
        }
        None
    }

    /// The value bound to `key`, if any.
    pub fn get(&self, key: &[u8]) -> (r: Option<Object>)
        requires
            self.wf(),
        ensures
            r == if self.view().contains_key(key@) {
                Some(self.view()[key@])
            } else {
                None::<Object>
            },
    {
        match self.find(key) {
            Some(i) => {
                proof {
                    let k = key@;
                    assert(self.has_key_at(i as int, k));
                    assert(self.view().contains_key(k));
                    let j = choose|j: int| self.has_key_at(j, k);
                    assert(j == i);
                }
                Some(self.entries[i].1.duplicate())
            },
            None => {
                assert(!self.view().contains_key(key@));
                None
            },
        }
    }

    /// Binds `key` to `value`, replacing any earlier binding of it.
    pub fn set(&mut self, key: &'a [u8], value: Object)
        requires
            old(self).wf(),
        ensures
            final(self).wf(),
            final(self).view() == old(self).view().insert(key@, value),
    {
        let ghost old_self = *self;
        match self.find(key) {
            Some(i) => {
                self.entries[i] = (key, value);
                proof {
                    assert forall|a: int, b: int|
                        0 <= a < b < self.entries@.len() implies self.entries@[a].0@
                        != self.entries@[b].0@ by {
                        assert(old_self.entries@[a].0@ == self.entries@[a].0@);
                        assert(old_self.entries@[b].0@ == self.entries@[b].0@);
                    }
                    assert forall|k: Seq<u8>| #[trigger]
                        self.view().contains_key(k) == old_self.view().insert(
                            key@,
                            value,
                        ).contains_key(k) by {
                        if exists|j: int| old_self.has_key_at(j, k) {
                            let j = choose|j: int| old_self.has_key_at(j, k);
                            assert(self.has_key_at(j, k) || k == key@);
                        }
                        if exists|j: int| self.has_key_at(j, k) {
                            let j = choose|j: int| self.has_key_at(j, k);
                            assert(old_self.has_key_at(j, k) || k == key@);
                        }
                    }
                    assert forall|k: Seq<u8>| #[trigger]
                        self.view().contains_key(k) implies self.view()[k]
                        == old_self.view().insert(key@, value)[k] by {
                        let j = choose|j: int| self.has_key_at(j, k);
                        if k == key@ {
                            assert(j == i);
                        } else {
                            assert(old_self.has_key_at(j, k));
                            let j2 = choose|j2: int| old_self.has_key_at(j2, k);
                            assert(j2 == j);
                        }
                    }
                    assert(self.view() =~= old_self.view().insert(key@, value));
                }
            },
            None => {
                self.entries.push((key, value));
                proof {
                    let n = old_self.entries@.len() as int;
                    assert(self.has_key_at(n, key@));
                    assert forall|a: int, b: int|
                        0 <= a < b < self.entries@.len() implies self.entries@[a].0@
                        != self.entries@[b].0@ by {
                        if b == n {
                            assert(!old_self.has_key_at(a, key@));
                        } else {
                            assert(old_self.entries@[a] == self.entries@[a]);
                            assert(old_self.entries@[b] == self.entries@[b]);
                        }
                    }
                    assert forall|j: int| self.has_key_at(j, key@) implies j == n by {
                        if j < n {
                            assert(old_self.has_key_at(j, key@));
                        }
                    }
                    assert forall|k: Seq<u8>| #[trigger]
                        self.view().contains_key(k) == old_self.view().insert(
                            key@,
                            value,
                        ).contains_key(k) by {
                        if exists|j: int| old_self.has_key_at(j, k) {
                            let j = choose|j: int| old_self.has_key_at(j, k);
                            assert(self.has_key_at(j, k));
                        }
                        if exists|j: int| self.has_key_at(j, k) {
                            let j = choose|j: int| self.has_key_at(j, k);
                            assert(old_self.has_key_at(j, k) || k == key@);
                        }
                    }
                    assert forall|k: Seq<u8>| #[trigger]
                        self.view().contains_key(k) implies self.view()[k]
                        == old_self.view().insert(key@, value)[k] by {
                        let j = choose|j: int| self.has_key_at(j, k);
                        if k == key@ {
                            assert(j == n);
                        } else {
                            assert(old_self.has_key_at(j, k));
                            let j2 = choose|j2: int| old_self.has_key_at(j2, k);
                            assert(j2 == j);
                        }
                    }
                    assert(self.view() =~= old_self.view().insert(key@, value));
                }
            },
        }
    }
}

} // verus!
