//! A small keyed collection with a stable iteration order.
//!
//! Every event collection of the bridge is one of these: entries keyed by an
//! opaque token (a minted handle, or a descriptor number), with no two entries
//! sharing a key.  Lookups, insertions and removals are stated exactly over
//! the underlying entry sequence, so the subsystems can reason both about
//! membership and about the order in which a drain visits the entries.

use vstd::prelude::*;

verus! {

/// A keyed collection: a sequence of `(key, value)` entries with unique keys.
pub struct Registry<V> {
    /// The entries, in insertion order.
    pub entries: Vec<(u64, V)>,
}

impl<V> Registry<V> {
    /// The entry sequence, in insertion order.
    pub open spec fn entries(self) -> Seq<(u64, V)> {
        self.entries@
    }

    /// The number of entries.
    pub open spec fn spec_len(self) -> nat {
        self.entries@.len()
    }

    /// Well-formed: no two entries share a key.
    pub open spec fn wf(self) -> bool {
        forall|i: int, j: int|
            0 <= i < j < self.entries@.len() ==> (#[trigger] self.entries@[i]).0 != (
            #[trigger] self.entries@[j]).0
    }

    /// Whether some entry has key `k`.
    pub open spec fn contains_key(self, k: u64) -> bool {
        exists|i: int| 0 <= i < self.entries@.len() && (#[trigger] self.entries@[i]).0 == k
    }

    /// The position of the entry with key `k` (meaningful when `contains_key`
    /// holds and the keys are unique).
    pub open spec fn index_of(self, k: u64) -> int {
        choose|i: int| 0 <= i < self.entries@.len() && (#[trigger] self.entries@[i]).0 == k
    }

    /// The value stored under key `k`.
    pub open spec fn val_of(self, k: u64) -> V {
        self.entries@[self.index_of(k)].1
    }

    /// In a well-formed registry the entry position for a key is unique.
    pub proof fn lemma_index_unique(self, i: int, j: int)
        requires
            self.wf(),
            0 <= i < self.entries().len(),
            0 <= j < self.entries().len(),
            self.entries()[i].0 == self.entries()[j].0,
        ensures
            i == j,
    {
    }

    /// An entry at any position is the entry `index_of` points at for its key.
    pub proof fn lemma_at_index(self, i: int)
        requires
            self.wf(),
            0 <= i < self.entries().len(),
        ensures
            self.contains_key(self.entries()[i].0),
            self.index_of(self.entries()[i].0) == i,
            self.val_of(self.entries()[i].0) == self.entries()[i].1,
    {
        let k = self.entries()[i].0;
        assert(self.contains_key(k));
        self.lemma_index_unique(i, self.index_of(k));
    }

    /// An empty registry.
    pub fn new() -> (r: Registry<V>)
        ensures
            r.entries() =~= Seq::<(u64, V)>::empty(),
            r.wf(),
    {
        Registry { entries: Vec::new() }
    }

    /// The number of entries.
    pub fn len(&self) -> (r: usize)
        ensures
            r == self.spec_len(),
    {
        self.entries.len()
    }

    /// Whether the registry holds no entry.
    pub fn is_empty(&self) -> (r: bool)
        ensures
            r == (self.spec_len() == 0),
    {
        self.entries.len() == 0
    }

    /// The key of the entry at position `i`.
    pub fn key_at(&self, i: usize) -> (r: u64)
        requires
            i < self.spec_len(),
        ensures
            r == self.entries()[i as int].0,
    {
        self.entries[i].0
    }

    /// The value of the entry at position `i`.
    pub fn value_at(&self, i: usize) -> (r: &V)
        requires
            i < self.spec_len(),
        ensures
            *r == self.entries()[i as int].1,
    {
        &self.entries[i].1
    }

    /// The position of the entry with key `k`, if any.
    pub fn find(&self, k: u64) -> (r: Option<usize>)
        requires
            self.wf(),
        ensures
            match r {
                Some(i) => self.contains_key(k) && i == self.index_of(k) && i < self.spec_len()
                    && self.entries()[i as int].0 == k,
                None => !self.contains_key(k),
            },
    {
        let n = self.entries.len();
        let mut i: usize = 0;
        while i < n
            invariant
                n == self.spec_len(),
                i <= n,
                self.wf(),
                forall|j: int| 0 <= j < i ==> (#[trigger] self.entries@[j]).0 != k,
            decreases n - i,
        {
            if self.entries[i].0 == k {
                proof {
                    self.lemma_at_index(i as int);
                }
                return Some(i);
            }
            i = i + 1;
        }
        None
    }

    /// A borrow of the value under key `k`, if any.
    pub fn get(&self, k: u64) -> (r: Option<&V>)
        requires
            self.wf(),
        ensures
            match r {
                Some(v) => self.contains_key(k) && *v == self.val_of(k),
                None => !self.contains_key(k),
            },
    {
        match self.find(k) {
            Some(i) => Some(&self.entries[i].1),
            None => None,
        }
    }

    /// Adds an entry under a key not yet present; the entry goes to the end of
    /// the order.
    #[verifier::spinoff_prover]
    pub fn insert(&mut self, k: u64, v: V)
        requires
            old(self).wf(),
            !old(self).contains_key(k),
        ensures
            final(self).entries() == old(self).entries().push((k, v)),
            final(self).wf(),
            final(self).contains_key(k),
            final(self).val_of(k) == v,
            forall|k2: u64| k2 != k ==> final(self).contains_key(k2) == old(self).contains_key(k2),
            forall|k2: u64|
                k2 != k && old(self).contains_key(k2) ==> final(self).val_of(k2) == old(self).val_of(k2)
                    && final(self).index_of(k2) == old(self).index_of(k2),
    {
        self.entries.push((k, v));
        proof {
            let n = self.entries@.len() - 1;
            assert(self.entries@[n].0 == k);
            assert forall|k2: u64| k2 != k implies self.contains_key(k2) == old(
                self,
            ).contains_key(k2) by {
                if self.contains_key(k2) {
                    let i = choose|i: int|
                        0 <= i < self.entries@.len() && (#[trigger] self.entries@[i]).0 == k2;
                    assert(old(self).entries@[i] == self.entries@[i]);
                }
                if old(self).contains_key(k2) {
                    let i = choose|i: int|
                        0 <= i < old(self).entries@.len() && (#[trigger] old(self).entries@[i]).0
                            == k2;
                    assert(self.entries@[i].0 == k2);
                }
            }
            self.lemma_at_index(n);
            assert forall|k2: u64| k2 != k && old(self).contains_key(k2) implies self.val_of(k2)
                == old(self).val_of(k2) && self.index_of(k2) == old(self).index_of(k2) by {
                let i = old(self).index_of(k2);
                assert(old(self).entries@[i].0 == k2);
                assert(self.entries@[i].0 == k2);
                self.lemma_at_index(i);
                old(self).lemma_at_index(i);
            }
        }
    }

    /// Replaces the value under a key already present; keys and order are
    /// unchanged.
    #[verifier::spinoff_prover]
    pub fn put(&mut self, k: u64, v: V)
        requires
            old(self).wf(),
            old(self).contains_key(k),
        ensures
            final(self).entries() == old(self).entries().update(old(self).index_of(k), (k, v)),
            final(self).wf(),
            final(self).spec_len() == old(self).spec_len(),
            final(self).contains_key(k),
            final(self).index_of(k) == old(self).index_of(k),
            final(self).val_of(k) == v,
            forall|k2: u64| final(self).contains_key(k2) == old(self).contains_key(k2),
            forall|k2: u64|
                k2 != k && old(self).contains_key(k2) ==> final(self).val_of(k2) == old(self).val_of(k2)
                    && final(self).index_of(k2) == old(self).index_of(k2),
    {
        let i = self.find(k).unwrap();
        self.entries[i] = (k, v);
        proof {
            let idx = i as int;
            assert forall|i2: int, j2: int|
                0 <= i2 < j2 < self.entries@.len() implies (#[trigger] self.entries@[i2]).0 != (
            #[trigger] self.entries@[j2]).0 by {
                assert(old(self).entries@[i2].0 == self.entries@[i2].0);
                assert(old(self).entries@[j2].0 == self.entries@[j2].0);
            }
            assert forall|k2: u64| self.contains_key(k2) == old(self).contains_key(k2) by {
                if self.contains_key(k2) {
                    let i2 = choose|i2: int|
                        0 <= i2 < self.entries@.len() && (#[trigger] self.entries@[i2]).0 == k2;
                    assert(old(self).entries@[i2].0 == k2);
                }
                if old(self).contains_key(k2) {
                    let i2 = choose|i2: int|
                        0 <= i2 < old(self).entries@.len() && (#[trigger] old(self).entries@[i2]).0
                            == k2;
                    assert(self.entries@[i2].0 == k2);
                }
            }
            self.lemma_at_index(idx);
            assert forall|k2: u64| k2 != k && old(self).contains_key(k2) implies self.val_of(k2)
                == old(self).val_of(k2) && self.index_of(k2) == old(self).index_of(k2) by {
                let i2 = old(self).index_of(k2);
                old(self).lemma_at_index(i2);
                assert(self.entries@[i2].0 == k2);
                self.lemma_at_index(i2);
            }
        }
    }

    /// Removes and returns the entry under key `k`; later entries keep their
    /// relative order.
    #[verifier::spinoff_prover]
    pub fn remove(&mut self, k: u64) -> (r: V)
        requires
            old(self).wf(),
            old(self).contains_key(k),
        ensures
            final(self).entries() == old(self).entries().remove(old(self).index_of(k)),
            final(self).wf(),
            final(self).spec_len() == old(self).spec_len() - 1,
            r == old(self).val_of(k),
            !final(self).contains_key(k),
            forall|k2: u64| k2 != k ==> final(self).contains_key(k2) == old(self).contains_key(k2),
            forall|k2: u64|
                k2 != k && old(self).contains_key(k2) ==> final(self).val_of(k2) == old(self).val_of(k2),
    {
        let i = self.find(k).unwrap();
        let entry = self.entries.remove(i);
        proof {
            let idx = i as int;
            let oe = old(self).entries@;
            assert forall|i2: int, j2: int|
                0 <= i2 < j2 < self.entries@.len() implies (#[trigger] self.entries@[i2]).0 != (
            #[trigger] self.entries@[j2]).0 by {
                let oi = if i2 < idx { i2 } else { i2 + 1 };
                let oj = if j2 < idx { j2 } else { j2 + 1 };
                assert(self.entries@[i2] == oe[oi]);
                assert(self.entries@[j2] == oe[oj]);
            }
            assert(!self.contains_key(k)) by {
                if self.contains_key(k) {
                    let i2 = choose|i2: int|
                        0 <= i2 < self.entries@.len() && (#[trigger] self.entries@[i2]).0 == k;
                    let oi = if i2 < idx { i2 } else { i2 + 1 };
                    assert(oe[oi].0 == k);
                    old(self).lemma_index_unique(oi, idx);
                }
            }
            assert forall|k2: u64| k2 != k && old(self).contains_key(k2) implies self.contains_key(
                k2,
            ) && self.val_of(k2) == old(self).val_of(k2) by {
                let i2 = old(self).index_of(k2);
                old(self).lemma_at_index(i2);
                let ni = if i2 < idx { i2 } else { i2 - 1 };
                assert(oe[i2].0 == k2);
                assert(i2 != idx);
                assert(self.entries@[ni] == oe[i2]);
                assert(self.contains_key(k2));
                self.lemma_at_index(ni);
            }
            assert forall|k2: u64| k2 != k && self.contains_key(k2) implies old(self).contains_key(
                k2,
            ) by {
                let i2 = choose|i2: int|
                    0 <= i2 < self.entries@.len() && (#[trigger] self.entries@[i2]).0 == k2;
                let oi = if i2 < idx { i2 } else { i2 + 1 };
                assert(oe[oi].0 == k2);
            }
        }
        entry.1
    }

    /// Removes and returns the last entry in the order.
    pub fn pop(&mut self) -> (r: Option<(u64, V)>)
        requires
            old(self).wf(),
        ensures
            final(self).wf(),
            match r {
                Some(e) => old(self).spec_len() > 0 && e == old(self).entries().last()
                    && final(self).entries() == old(self).entries().drop_last() && !final(self).contains_key(e.0)
                    && old(self).contains_key(e.0),
                None => old(self).spec_len() == 0 && final(self).entries() == old(self).entries(),
            },
    {
        let r = self.entries.pop();
        proof {
            if old(self).entries@.len() > 0 {
                let n = old(self).entries@.len() - 1;
                assert(self.entries@ =~= old(self).entries@.drop_last());
                let k = old(self).entries@[n].0;
                assert(old(self).entries@[n].0 == k);
                assert(old(self).contains_key(k));
                if self.contains_key(k) {
                    let i2 = choose|i2: int|
                        0 <= i2 < self.entries@.len() && (#[trigger] self.entries@[i2]).0 == k;
                    assert(old(self).entries@[i2].0 == k);
                    old(self).lemma_index_unique(i2, n);
                }
            }
        }
        r
    }

    /// Removes every entry.
    pub fn clear(&mut self)
        ensures
            final(self).entries() =~= Seq::<(u64, V)>::empty(),
            final(self).wf(),
            forall|k: u64| !final(self).contains_key(k),
    {
        self.entries.clear();
    }
}

} // verus!
