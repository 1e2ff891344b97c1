//! Contract storage: a map from words to words, absent keys reading as zero.

use crate::word::Word;
use vstd::prelude::*;

verus! {

/// A contract's storage, each key held once.
pub struct Storage {
    entries: Vec<(Word, Word)>,
}

impl View for Storage {
    type V = Map<Word, Word>;

    closed spec fn view(&self) -> Map<Word, Word> {
        Map::new(
            |k: Word| exists|i: int| 0 <= i < self.entries@.len() && self.entries@[i].0 == k,
            |k: Word| self.entries@[choose|i: int| 0 <= i < self.entries@.len() && self.entries@[i].0 == k].1,
        )
    }
}

impl Storage {
    /// No key is held twice.
    pub closed spec fn wf(&self) -> bool {
        forall|i: int, j: int|
            0 <= i < self.entries@.len() && 0 <= j < self.entries@.len() && i != j
                ==> self.entries@[i].0 != self.entries@[j].0
    }

    pub fn new() -> (r: Storage)
        ensures
            r.wf(),
            r@ == Map::<Word, Word>::empty(),
    {
        let r = Storage { entries: Vec::new() };
        assert(r@ =~= Map::<Word, Word>::empty());
        r
    }

    proof fn lemma_index(&self, i: int)
        requires
            self.wf(),
            0 <= i < self.entries@.len(),
        ensures
            self@.contains_key(self.entries@[i].0),
            self@[self.entries@[i].0] == self.entries@[i].1,
    {
        let k = self.entries@[i].0;
        assert(self@.contains_key(k));
        let j = choose|j: int| 0 <= j < self.entries@.len() && self.entries@[j].0 == k;
        assert(i == j);
    }

    fn find(&self, key: &Word) -> (r: Option<usize>)
        requires
            self.wf(),
        ensures
            r is None ==> !self@.contains_key(*key),
            r matches Some(i) ==> i < self.entries@.len() && self.entries@[i as int].0 == *key,
    {
        let mut i: usize = 0;
        while i < self.entries.len()
            invariant
                i <= self.entries@.len(),
                forall|j: int| 0 <= j < i ==> self.entries@[j].0 != *key,
            decreases self.entries@.len() - i,
        {
            if self.entries[i].0.equals(key) {
                return Some(i);
            }
            i = i + 1;
        }
        None
    }

    /// The value held under `key`, zero if there is none.
    pub fn get(&self, key: &Word) -> (r: Word)
        requires
            self.wf(),
        ensures
            self@.contains_key(*key) ==> r == self@[*key],
            !self@.contains_key(*key) ==> r.val() == 0,
    {
        match self.find(key) {
            Some(i) => {
                proof {
                    self.lemma_index(i as int);
                }
                self.entries[i].1
            },
            None => Word::zero(),
        }
    }

    /// Hold `value` under `key`, replacing what was there.
    pub fn put(&mut self, key: Word, value: Word)
        requires
            old(self).wf(),
        ensures
            final(self).wf(),
            final(self)@ == old(self)@.insert(key, value),
    {
        let ghost before = self@;
        match self.find(&key) {
            Some(i) => {
                self.entries.set(i, (key, value));
                proof {
                    assert forall|k: Word| #[trigger] self@.contains_key(k) == before.insert(key, value).contains_key(k) by {
                        if exists|j: int| 0 <= j < old(self).entries@.len() && old(self).entries@[j].0 == k {
                            let j = choose|j: int| 0 <= j < old(self).entries@.len() && old(self).entries@[j].0 == k;
                            assert(self.entries@[j].0 == k);
                        }
                        if exists|j: int| 0 <= j < self.entries@.len() && self.entries@[j].0 == k {
                            let j = choose|j: int| 0 <= j < self.entries@.len() && self.entries@[j].0 == k;
                            if j != i {
                                assert(old(self).entries@[j].0 == k);
                            }
                        }
                    }
                    assert forall|k: Word| #[trigger] self@.contains_key(k) implies self@[k] == before.insert(key, value)[k] by {
                        let j = choose|j: int| 0 <= j < self.entries@.len() && self.entries@[j].0 == k;
                        self.lemma_index(j);
                        if j != i {
                            old(self).lemma_index(j);
                        }
                    }
                    assert(self@ =~= before.insert(key, value));
                }
            },
            None => {
                self.entries.push((key, value));
                proof {
                    let n = old(self).entries@.len() as int;
                    assert forall|k: Word| #[trigger] self@.contains_key(k) == before.insert(key, value).contains_key(k) by {
                        if exists|j: int| 0 <= j < old(self).entries@.len() && old(self).entries@[j].0 == k {
                            let j = choose|j: int| 0 <= j < old(self).entries@.len() && old(self).entries@[j].0 == k;
                            assert(self.entries@[j].0 == k);
                        }
                        if k == key {
                            assert(self.entries@[n].0 == k);
                        }
                    }
                    assert forall|k: Word| #[trigger] self@.contains_key(k) implies self@[k] == before.insert(key, value)[k] by {
                        let j = choose|j: int| 0 <= j < self.entries@.len() && self.entries@[j].0 == k;
                        self.lemma_index(j);
                        if j != n {
                            old(self).lemma_index(j);
                        }
                    }
                    assert(self@ =~= before.insert(key, value));
                }
            },
        }
    }

    /// A copy holding the same entries.
    pub fn copy(&self) -> (r: Storage)
        requires
            self.wf(),
        ensures
            r.wf(),
            r@ == self@,
    {
        let mut entries: Vec<(Word, Word)> = Vec::new();
        let mut i: usize = 0;
        while i < self.entries.len()
            invariant
                i <= self.entries@.len(),
                entries@ =~= self.entries@.subrange(0, i as int),
            decreases self.entries@.len() - i,
        {
            entries.push(self.entries[i]);
            i = i + 1;
        }
        assert(self.entries@.subrange(0, self.entries@.len() as int) =~= self.entries@);
        Storage { entries }
    }
}

/// SSTORE of `v` under `k`, then SLOAD of `k`, gives `v`.
pub proof fn lemma_store_then_load(s: Map<Word, Word>, k: Word, v: Word)
    ensures
        s.insert(k, v).contains_key(k),
        s.insert(k, v)[k] == v,
{
}

} // verus!
