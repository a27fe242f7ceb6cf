//! A map from text to values, as a list of pairs in which no key occurs twice.

use crate::text::same;
use vstd::prelude::*;

verus! {

pub struct TextMap<V> {
    entries: Vec<(String, V)>,
}

/// Position `i` holds the key `k`.
spec fn holds<V>(e: Seq<(String, V)>, i: int, k: Seq<char>) -> bool {
    0 <= i < e.len() && e[i].0@ == k
}

/// Some position holds the key `k`.
spec fn present<V>(e: Seq<(String, V)>, k: Seq<char>) -> bool {
    exists|i: int| holds(e, i, k)
}

impl<V> View for TextMap<V> {
    type V = Map<Seq<char>, V>;

    closed spec fn view(&self) -> Map<Seq<char>, V> {
        Map::new(
            |k: Seq<char>| present(self.entries@, k),
            |k: Seq<char>| self.entries@[choose|i: int| holds(self.entries@, i, k)].1,
        )
    }
}

impl<V> TextMap<V> {
    /// No key occurs twice.
    pub closed spec fn wf(&self) -> bool {
        forall|i: int, j: int|
            0 <= i < j < self.entries@.len() ==> (#[trigger] self.entries@[i]).0@ != (
            #[trigger] self.entries@[j]).0@
    }

    /// The empty map.
    pub fn new() -> (res: TextMap<V>)
        ensures
            res.wf(),
            res@ == Map::<Seq<char>, V>::empty(),
    {
        let res = TextMap { entries: Vec::new() };
        assert forall|k: Seq<char>| !present(res.entries@, k) by {}
        assert(res@ =~= Map::<Seq<char>, V>::empty());
        res
    }

    proof fn lemma_at(&self, i: int)
        requires
            self.wf(),
            0 <= i < self.entries@.len(),
        ensures
            self@.contains_key(self.entries@[i].0@),
            self@[self.entries@[i].0@] == self.entries@[i].1,
    {
        let k = self.entries@[i].0@;
        assert(holds(self.entries@, i, k));
        let c = choose|c: int| holds(self.entries@, c, k);
        assert(holds(self.entries@, c, k));
        if c < i {
            assert(self.entries@[c].0@ != self.entries@[i].0@);
        } else if i < c {
            assert(self.entries@[i].0@ != self.entries@[c].0@);
        }
    }

    fn find(&self, key: &str) -> (res: Option<usize>)
        requires
            self.wf(),
        ensures
            match res {
                Some(i) => holds(self.entries@, i as int, key@) && self@.contains_key(key@)
                    && self@[key@] == self.entries@[i as int].1,
                None => !self@.contains_key(key@),
            },
    {
        let mut i: usize = 0;
        while i < self.entries.len()
            invariant
                self.wf(),
                i <= self.entries@.len(),
                forall|j: int| 0 <= j < i ==> (#[trigger] self.entries@[j]).0@ != key@,
            decreases self.entries@.len() - i,
        {
            if same(self.entries[i].0.as_str(), key) {
                proof {
                    self.lemma_at(i as int);
                }
                return Some(i);
            }
            i += 1;
        }
        None
    }

    /// The keys, in the order in which they came.
    pub closed spec fn keys(&self) -> Seq<Seq<char>> {
        Seq::new(self.entries@.len(), |i: int| self.entries@[i].0@)
    }

    /// The keys are those of the map, and none occurs twice.
    pub proof fn law_keys_are_those_of_the_map(&self)
        requires
            self.wf(),
        ensures
            self.keys().no_duplicates(),
            forall|k: Seq<char>| self@.contains_key(k) <==> #[trigger] self.keys().contains(k),
    {
        assert forall|k: Seq<char>| self@.contains_key(k) <==> #[trigger] self.keys().contains(
            k,
        ) by {
            if present(self.entries@, k) {
                let c = choose|c: int| holds(self.entries@, c, k);
                assert(self.keys()[c] == k);
            }
            if self.keys().contains(k) {
                let c = choose|c: int| 0 <= c < self.keys().len() && self.keys()[c] == k;
                assert(holds(self.entries@, c, k));
            }
        }
        assert forall|i: int, j: int|
            0 <= i < self.keys().len() && 0 <= j < self.keys().len() && i
                != j implies self.keys()[i] != self.keys()[j] by {
            if i < j {
                assert(self.entries@[i].0@ != self.entries@[j].0@);
            } else {
                assert(self.entries@[j].0@ != self.entries@[i].0@);
            }
        }
    }

    /// How many keys there are.
    pub fn len(&self) -> (res: usize)
        ensures
            res == self.keys().len(),
    {
        self.entries.len()
    }

    /// One of the keys.
    pub fn key(&self, i: usize) -> (res: &str)
        requires
            i < self.keys().len(),
        ensures
            res@ == self.keys()[i as int],
    {
        self.entries[i].0.as_str()
    }

    /// The value at `key`.
    pub fn get(&self, key: &str) -> (res: Option<&V>)
        requires
            self.wf(),
        ensures
            match res {
                Some(v) => self@.contains_key(key@) && self@[key@] == *v,
                None => !self@.contains_key(key@),
            },
    {
        match self.find(key) {
            Some(i) => Some(&self.entries[i].1),
            None => None,
        }
    }

    /// Puts `value` at `key`, in place of what was there.
    pub fn insert(&mut self, key: &str, value: V)
        requires
            old(self).wf(),
        ensures
            final(self).wf(),
            final(self)@ == old(self)@.insert(key@, value),
    {
        let ghost before = *self;
        match self.find(key) {
            Some(i) => {
                self.entries.set(i, (key.to_string(), value));
                proof {
                    let after = *self;
                    assert(after.wf()) by {
                        assert forall|a: int, b: int| 0 <= a < b < after.entries@.len() implies (
                        #[trigger] after.entries@[a]).0@ != (#[trigger] after.entries@[b]).0@ by {
                            assert(before.entries@[a].0@ != before.entries@[b].0@);
                        }
                    }
                    assert forall|k: Seq<char>|
                        after@.contains_key(k) == before@.insert(key@, value).contains_key(k) by {
                        if present(after.entries@, k) {
                            let c = choose|c: int| holds(after.entries@, c, k);
                            assert(holds(before.entries@, c, k));
                        }
                        if present(before.entries@, k) {
                            let c = choose|c: int| holds(before.entries@, c, k);
                            assert(holds(after.entries@, c, k));
                        }
                        assert(holds(after.entries@, i as int, key@));
                    }
                    assert forall|k: Seq<char>| after@.contains_key(k) implies after@[k]
                        == before@.insert(key@, value)[k] by {
                        let c = choose|c: int| holds(after.entries@, c, k);
                        after.lemma_at(c);
                        before.lemma_at(c);
                    }
                    assert(after@ =~= before@.insert(key@, value));
                }
            },
            None => {
                self.entries.push((key.to_string(), value));
                proof {
                    let after = *self;
                    let n = before.entries@.len() as int;
                    assert(after.wf()) by {
                        assert forall|a: int, b: int| 0 <= a < b < after.entries@.len() implies (
                        #[trigger] after.entries@[a]).0@ != (#[trigger] after.entries@[b]).0@ by {
                            if b == n {
                                before.lemma_at(a);
                            } else {
                                assert(before.entries@[a].0@ != before.entries@[b].0@);
                            }
                        }
                    }
                    assert forall|k: Seq<char>|
                        after@.contains_key(k) == before@.insert(key@, value).contains_key(k) by {
                        if present(after.entries@, k) {
                            let c = choose|c: int| holds(after.entries@, c, k);
                            if c < n {
                                assert(holds(before.entries@, c, k));
                            }
                        }
                        if present(before.entries@, k) {
                            let c = choose|c: int| holds(before.entries@, c, k);
                            assert(holds(after.entries@, c, k));
                        }
                        assert(holds(after.entries@, n, key@));
                    }
                    assert forall|k: Seq<char>| after@.contains_key(k) implies after@[k]
                        == before@.insert(key@, value)[k] by {
                        let c = choose|c: int| holds(after.entries@, c, k);
                        after.lemma_at(c);
                        if c < n {
                            before.lemma_at(c);
                        }
                    }
                    assert(after@ =~= before@.insert(key@, value));
                }
            },
        }
    }
}

} // verus!
