//! The records with a call under way: at most one call per record at any
//! instant.

use crate::models::Timestamp;
use vstd::prelude::*;

verus! {

/// The keys of the records with a call under way.
#[derive(Debug)]
pub struct InFlight {
    keys: Vec<Timestamp>,
}

impl View for InFlight {
    type V = Set<Timestamp>;

    closed spec fn view(&self) -> Set<Timestamp> {
        Set::new(|key: Timestamp| exists|i: int| 0 <= i < self.keys.len() && self.keys[i] == key)
    }
}

impl InFlight {
    /// No call is under way.
    pub fn new() -> (set: InFlight)
        ensures
            set@ == Set::<Timestamp>::empty(),
    {
        let set = InFlight { keys: Vec::new() };
        assert(set@ =~= Set::<Timestamp>::empty());
        set
    }

    /// Whether a call for the record under `key` is under way.
    pub fn contains(&self, key: &Timestamp) -> (b: bool)
        ensures
            b == self@.contains(*key),
    {
        let mut i: usize = 0;
        while i < self.keys.len()
            invariant
                i <= self.keys.len(),
                forall|j: int| 0 <= j < i ==> self.keys[j] != *key,
            decreases self.keys.len() - i,
        {
            if self.keys[i] == *key {
                return true;
            }
            i += 1;
        }
        false
    }

    /// Whether no call is under way.
    pub fn is_empty(&self) -> (b: bool)
        ensures
            b == (self@ == Set::<Timestamp>::empty()),
    {
        let b = self.keys.len() == 0;
        proof {
            if b {
                assert(self@ =~= Set::<Timestamp>::empty());
            } else {
                assert(self@.contains(self.keys[0]));
            }
        }
        b
    }

    /// Takes `key` in.
    pub fn insert(&mut self, key: Timestamp)
        ensures
            final(self)@ == old(self)@.insert(key),
    {
        if !self.contains(&key) {
            self.keys.push(key);
            proof {
                let before = old(self).keys@;
                let after = self.keys@;
                assert(after[before.len() as int] == key);
                assert forall|k: Timestamp| self@.contains(k) <==> old(self)@.insert(key).contains(
                    k,
                ) by {
                    if old(self)@.contains(k) {
                        let i = choose|i: int| 0 <= i < before.len() && before[i] == k;
                        assert(after[i] == k);
                    }
                    if self@.contains(k) && k != key {
                        let i = choose|i: int| 0 <= i < after.len() && after[i] == k;
                        assert(before[i] == k);
                    }
                }
                assert(self@ =~= old(self)@.insert(key));
            }
        } else {
            assert(self@ =~= old(self)@.insert(key));
        }
    }

    /// Lets `key` go.
    pub fn remove(&mut self, key: &Timestamp)
        ensures
            final(self)@ == old(self)@.remove(*key),
    {
        let ghost before = self.keys@;
        let mut kept: Vec<Timestamp> = Vec::new();
        let mut i: usize = 0;
        while i < self.keys.len()
            invariant
                i <= self.keys.len(),
                self.keys@ == before,
                forall|j: int| 0 <= j < kept.len() ==> kept[j] != *key && exists|p: int|
                    0 <= p < i && before[p] == #[trigger] kept[j],
                forall|p: int|
                    0 <= p < i && #[trigger] before[p] != *key ==> exists|j: int|
                        0 <= j < kept.len() && kept[j] == before[p],
            decreases self.keys.len() - i,
        {
            if self.keys[i] != *key {
                let ghost held = kept@;
                kept.push(self.keys[i]);
                proof {
                    assert(kept[held.len() as int] == before[i as int]);
                    assert forall|p: int|
                        0 <= p < i + 1 && #[trigger] before[p] != *key implies exists|j: int|
                        0 <= j < kept.len() && kept[j] == before[p] by {
                        if p < i {
                            let j = choose|j: int| 0 <= j < held.len() && held[j] == before[p];
                            assert(kept[j] == before[p]);
                        }
                    }
                    assert forall|j: int| 0 <= j < kept.len() implies kept[j] != *key
                        && exists|p: int| 0 <= p < i + 1 && before[p] == #[trigger] kept[j] by {
                        if j < held.len() {
                            assert(kept[j] == held[j]);
                            let p = choose|p: int| 0 <= p < i && before[p] == held[j];
                            assert(before[p] == kept[j]);
                        }
                    }
                }
            }
            i += 1;
        }
        self.keys = kept;
        proof {
            assert forall|k: Timestamp| self@.contains(k) <==> old(self)@.remove(*key).contains(
                k,
            ) by {
                if self@.contains(k) {
                    let j = choose|j: int| 0 <= j < self.keys.len() && self.keys[j] == k;
                    let p = choose|p: int| 0 <= p < before.len() && before[p] == self.keys[j];
                    assert(before[p] == k);
                }
                if old(self)@.remove(*key).contains(k) {
                    let p = choose|p: int| 0 <= p < before.len() && before[p] == k;
                    assert(before[p] != *key);
                }
            }
            assert(self@ =~= old(self)@.remove(*key));
        }
    }

    /// Lets every key go.
    pub fn clear(&mut self)
        ensures
            final(self)@ == Set::<Timestamp>::empty(),
    {
        self.keys.clear();
        assert(self@ =~= Set::<Timestamp>::empty());
    }
}

} // verus!
