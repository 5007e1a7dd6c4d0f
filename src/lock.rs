//! Per-instance execution locks.
//!
//! A task instance is a task identifier paired with one scheduled timestamp.
//! The bucket records which instances are currently held; acquiring never
//! waits, it either takes the instance or reports it busy.
use vstd::prelude::*;

use crate::record::Address;

verus! {

/// A task identifier together with one scheduled timestamp.
#[derive(Clone, Copy, Debug)]
pub struct InstanceKey {
    pub id: Address,
    pub at: i64,
}

impl InstanceKey {
    /// Whether two keys name the same task instance.
    pub fn same_as(&self, other: &InstanceKey) -> (r: bool)
        ensures
            r == (*self == *other),
    {
        self.at == other.at && self.id.same_as(&other.id)
    }
}

/// Registry of the task instances whose execution is in flight.
pub struct LockBucket {
    held: Vec<InstanceKey>,
}

impl LockBucket {
    /// The instances currently held.
    pub closed spec fn held(&self) -> Set<InstanceKey> {
        self.held@.to_set()
    }

    /// Well-formedness: each instance is recorded at most once.
    pub closed spec fn wf(&self) -> bool {
        self.held@.no_duplicates()
    }

    /// A bucket in which nothing is held.
    pub fn new() -> (b: Self)
        ensures
            b.wf(),
            b.held() == Set::<InstanceKey>::empty(),
    {
        let b = LockBucket { held: Vec::new() };
        assert(b.held() =~= Set::<InstanceKey>::empty());
        b
    }

    fn position(&self, key: &InstanceKey) -> (r: Option<usize>)
        ensures
            match r {
                Some(k) => k < self.held@.len() && self.held@[k as int] == *key,
                None => !self.held@.contains(*key),
            },
    {
        let mut k: usize = 0;
        while k < self.held.len()
            invariant
                k <= self.held@.len(),
                forall|j: int| 0 <= j < k ==> self.held@[j] != *key,
            decreases self.held@.len() - k,
        {
            if self.held[k].same_as(key) {
                return Some(k);
            }
            k = k + 1;
        }
        None
    }

    /// Whether `key` is currently held.
    pub fn is_held(&self, key: &InstanceKey) -> (r: bool)
        ensures
            r == self.held().contains(*key),
    {
        let r = self.position(key).is_some();
        proof {
            if r {
                assert(self.held@.contains(*key));
            }
        }
        r
    }

    /// Takes the instance `key` if nobody holds it. Returns `true` when the
    /// caller now holds it, `false` when it was busy; a busy instance is left
    /// as it was.
    pub fn try_acquire(&mut self, key: InstanceKey) -> (acquired: bool)
        requires
            old(self).wf(),
        ensures
            final(self).wf(),
            acquired == !old(self).held().contains(key),
            final(self).held() == old(self).held().insert(key),
    {
        if self.is_held(&key) {
            assert(self.held().insert(key) =~= self.held());
            false
        } else {
            let ghost before = self.held@;
            self.held.push(key);
            proof {
                assert(self.held@ == before.push(key));
                assert forall|i: int, j: int|
                    0 <= i < j < self.held@.len() implies self.held@[i] != self.held@[j] by {
                    if j == before.len() {
                        assert(before.contains(before[i]));
                    }
                }
                assert(self.held@.to_set() =~= before.to_set().insert(key)) by {
                    assert forall|x: InstanceKey| self.held@.contains(x) <==> (before.contains(x)
                        || x == key) by {
                        if self.held@.contains(x) && x != key {
                            let i = choose|i: int| 0 <= i < self.held@.len() && self.held@[i] == x;
                            assert(before[i] == x);
                        }
                        if x == key {
                            assert(self.held@[before.len() as int] == x);
                        }
                        if before.contains(x) {
                            let i = choose|i: int| 0 <= i < before.len() && before[i] == x;
                            assert(self.held@[i] == x);
                        }
                    }
                }
            }
            true
        }
    }

    /// Gives the instance `key` back, so that a later attempt can take it.
    pub fn release(&mut self, key: &InstanceKey)
        requires
            old(self).wf(),
        ensures
            final(self).wf(),
            final(self).held() == old(self).held().remove(*key),
    {
        match self.position(key) {
            Some(k) => {
                let ghost before = self.held@;
                self.held.remove(k);
                proof {
                    let r = self.held@;
                    assert(r == before.remove(k as int));
                    assert forall|i: int| 0 <= i < r.len() implies r[i] == if i < k {
                        before[i]
                    } else {
                        before[i + 1]
                    } by {}
                    assert forall|x: InstanceKey| r.contains(x) <==> (before.contains(x) && x
                        != *key) by {
                        if r.contains(x) {
                            let i = choose|i: int| 0 <= i < r.len() && r[i] == x;
                            if i < k {
                                assert(before[i] == x);
                            } else {
                                assert(before[i + 1] == x);
                            }
                        }
                        if before.contains(x) && x != *key {
                            let j = choose|j: int| 0 <= j < before.len() && before[j] == x;
                            if j < k {
                                assert(r[j] == x);
                            } else {
                                assert(r[j - 1] == x);
                            }
                        }
                    }
                    assert(r.to_set() =~= before.to_set().remove(*key));
                    assert forall|i: int, j: int| 0 <= i < j < r.len() implies r[i] != r[j] by {
                        if i < k && j >= k {
                            assert(before[i] != before[j + 1]);
                        }
                    }
                }
            },
            None => {
                assert(self.held().remove(*key) =~= self.held());
            },
        }
    }
}

} // verus!
