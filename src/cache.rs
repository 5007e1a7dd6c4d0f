//! Time-indexed cache of task records.
//!
//! Records live in an append-only arena; the index maps each timestamp to the
//! arena positions of the records scheduled then. A record is indexed under
//! its own `scheduled_at` and nowhere else: rescheduling a task moves its
//! position from the old bucket to the new one.
use std::collections::HashMap;
use vstd::prelude::*;
use vstd::std_specs::hash::group_hash_axioms;

use crate::record::{Address, TaskRecord, TaskRecordView};

verus! {

broadcast use group_hash_axioms;

/// Mapping from timestamp to the tasks due then, plus the latest snapshot of
/// each task.
pub struct TaskCache {
    data: Vec<TaskRecord>,
    index: HashMap<i64, Vec<usize>>,
    positions: Ghost<Map<Address, nat>>,
}

/// Whether a record scheduled at `at` lies in the half-open range `[from, to)`.
pub open spec fn in_range(at: i64, from: i64, to: i64) -> bool {
    from <= at < to
}

/// The identifiers of the records of `m` scheduled within `[from, to)`.
pub open spec fn ids_in_range(m: Map<Address, TaskRecordView>, from: i64, to: i64) -> Set<Address> {
    Set::new(|a: Address| m.contains_key(a) && in_range(m[a].scheduled_at, from, to))
}

/// What a scan of `[from, to)` over the records `m` hands out: each entry is a
/// bucket key and the current snapshot indexed there; every record in range
/// comes exactly once, in order of timestamp.
pub open spec fn is_scan_of(
    r: Seq<(i64, TaskRecordView)>,
    m: Map<Address, TaskRecordView>,
    from: i64,
    to: i64,
) -> bool {
    &&& forall|k: int|
        0 <= k < r.len() ==> {
            &&& in_range(#[trigger] r[k].0, from, to)
            &&& r[k].1.scheduled_at == r[k].0
            &&& m.contains_key(r[k].1.id)
            &&& m[r[k].1.id] == r[k].1
        }
    &&& forall|a: Address|
        #[trigger] ids_in_range(m, from, to).contains(a) ==> exists|k: int|
            0 <= k < r.len() && (#[trigger] r[k]).1.id == a
    &&& forall|k1: int, k2: int|
        0 <= k1 < k2 < r.len() ==> (#[trigger] r[k1]).1.id != (#[trigger] r[k2]).1.id
            && r[k1].0 <= r[k2].0
}

/// The views of a sequence of scan entries.
pub open spec fn scan_view(r: Seq<(i64, TaskRecord)>) -> Seq<(i64, TaskRecordView)> {
    r.map_values(|e: (i64, TaskRecord)| (e.0, e.1@))
}

proof fn lemma_remove_unique(s: Seq<usize>, k: int)
    requires
        s.no_duplicates(),
        0 <= k < s.len(),
    ensures
        s.remove(k).no_duplicates(),
        forall|q: usize| s.remove(k).contains(q) <==> (s.contains(q) && q != s[k]),
{
    let r = s.remove(k);
    assert forall|i: int| 0 <= i < r.len() implies r[i] == if i < k {
        s[i]
    } else {
        s[i + 1]
    } by {}
    assert forall|q: usize| r.contains(q) <==> (s.contains(q) && q != s[k]) by {
        if r.contains(q) {
            let i = choose|i: int| 0 <= i < r.len() && r[i] == q;
            if i < k {
                assert(s[i] == q);
            } else {
                assert(s[i + 1] == q);
            }
        }
        if s.contains(q) && q != s[k] {
            let j = choose|j: int| 0 <= j < s.len() && s[j] == q;
            if j < k {
                assert(r[j] == q);
            } else {
                assert(j != k);
                assert(r[j - 1] == q);
            }
        }
    }
}

impl TaskCache {
    /// Identifier to snapshot: the abstract content of the cache.
    pub closed spec fn records(&self) -> Map<Address, TaskRecordView> {
        Map::new(
            |a: Address| self.positions@.contains_key(a),
            |a: Address| self.data@[self.positions@[a] as int]@,
        )
    }

    spec fn slot(&self, t: i64) -> Seq<usize> {
        self.index@[t]@
    }

    /// Well-formedness: positions and index both mirror the arena exactly.
    pub closed spec fn wf(&self) -> bool {
        &&& self.data@.len() <= usize::MAX
        &&& forall|a: Address|
            #[trigger] self.positions@.contains_key(a) ==> self.positions@[a] < self.data@.len()
                && self.data@[self.positions@[a] as int].id == a
        &&& forall|p: int|
            0 <= p < self.data@.len() ==> self.positions@.contains_key(#[trigger] self.data@[p].id)
                && self.positions@[self.data@[p].id] == p
        &&& forall|t: i64| #[trigger] self.index@.contains_key(t) ==> self.slot(t).no_duplicates()
        &&& forall|t: i64, k: int|
            self.index@.contains_key(t) && 0 <= k < self.slot(t).len() ==> (#[trigger] self.slot(
                t,
            )[k]) < self.data@.len() && self.data@[self.slot(t)[k] as int].scheduled_at == t
        &&& forall|p: int|
            0 <= p < self.data@.len() ==> self.index@.contains_key(
                (#[trigger] self.data@[p]).scheduled_at,
            ) && self.slot(self.data@[p].scheduled_at).contains(p as usize)
    }

    /// An empty cache.
    pub fn new() -> (c: Self)
        ensures
            c.wf(),
            c.records() == Map::<Address, TaskRecordView>::empty(),
    {
        let c = TaskCache { data: Vec::new(), index: HashMap::new(), positions: Ghost(Map::empty()) };
        assert(c.records() =~= Map::<Address, TaskRecordView>::empty());
        c
    }

    fn find(&self, id: &Address) -> (r: Option<usize>)
        requires
            self.wf(),
        ensures
            match r {
                Some(p) => self.positions@.contains_key(*id) && self.positions@[*id] == p && p
                    < self.data@.len(),
                None => !self.positions@.contains_key(*id),
            },
    {
        let mut p: usize = 0;
        while p < self.data.len()
            invariant
                self.wf(),
                p <= self.data@.len(),
                forall|q: int| 0 <= q < p ==> self.data@[q].id != *id,
            decreases self.data@.len() - p,
        {
            if self.data[p].id.same_as(id) {
                return Some(p);
            }
            p = p + 1;
        }
        None
    }

    /// The current snapshot of the task `id`, if the cache holds one.
    pub fn get(&self, id: &Address) -> (r: Option<TaskRecord>)
        requires
            self.wf(),
        ensures
            match r {
                Some(rec) => self.records().contains_key(*id) && rec@ == self.records()[*id],
                None => !self.records().contains_key(*id),
            },
    {
        match self.find(id) {
            Some(p) => Some(self.data[p].clone()),
            None => None,
        }
    }

    /// Takes position `p` out of the bucket `t`.
    fn unlink(index: &mut HashMap<i64, Vec<usize>>, t: i64, p: usize)
        requires
            old(index)@.contains_key(t),
            old(index)@[t]@.no_duplicates(),
        ensures
            final(index)@ == old(index)@.insert(t, final(index)@[t]),
            final(index)@[t]@.no_duplicates(),
            forall|q: usize|
                #[trigger] final(index)@[t]@.contains(q) <==> (old(index)@[t]@.contains(q) && q
                    != p),
    {
        let ghost before = index@;
        let mut slot = match index.remove(&t) {
            Some(v) => v,
            None => Vec::new(),
        };
        assert(slot@ == before[t]@);
        let mut k: usize = 0;
        while k < slot.len()
            invariant
                before == old(index)@,
                before.contains_key(t),
                slot@ == before[t]@,
                slot@.no_duplicates(),
                index@ == before.remove(t),
                forall|j: int| 0 <= j < k ==> slot@[j] != p,
            decreases slot@.len() - k,
        {
            if slot[k] == p {
                proof {
                    lemma_remove_unique(slot@, k as int);
                }
                slot.remove(k);
                index.insert(t, slot);
                assert(index@ =~= before.insert(t, index@[t]));
                assert(index@[t]@ == before[t]@.remove(k as int));
                return;
            }
            k = k + 1;
        }
        assert forall|q: usize| slot@.contains(q) implies q != p by {
            let j = choose|j: int| 0 <= j < slot@.len() && slot@[j] == q;
        }
        index.insert(t, slot);
        assert(index@ =~= before.insert(t, index@[t]));
    }

    /// Adds position `p`, absent so far, to the bucket `t`.
    fn link(index: &mut HashMap<i64, Vec<usize>>, t: i64, p: usize)
        requires
            old(index)@.contains_key(t) ==> old(index)@[t]@.no_duplicates() && !old(
                index,
            )@[t]@.contains(p),
        ensures
            final(index)@ == old(index)@.insert(t, final(index)@[t]),
            final(index)@[t]@.no_duplicates(),
            final(index)@[t]@ == (if old(index)@.contains_key(t) {
                old(index)@[t]@
            } else {
                Seq::empty()
            }).push(p),
    {
        let ghost before = index@;
        let mut slot = match index.remove(&t) {
            Some(v) => v,
            None => Vec::new(),
        };
        slot.push(p);
        index.insert(t, slot);
        assert(index@ =~= before.insert(t, index@[t]));
    }

    /// Writes `record` as the latest snapshot of its task and indexes it under
    /// its `scheduled_at`, dropping the task from the bucket it occupied
    /// before, if that was another one.
    pub fn insert(&mut self, record: TaskRecord)
        requires
            old(self).wf(),
        ensures
            final(self).wf(),
            final(self).records() == old(self).records().insert(record.id, record@),
    {
        let ghost old_records = self.records();
        let ghost old_data = self.data@;
        let ghost old_index = self.index@;
        let ghost rv = record@;
        let id = record.id;
        let t = record.scheduled_at;
        match self.find(&id) {
            Some(p) => {
                let old_t = self.data[p].scheduled_at;
                self.data.set(p, record);
                assert(self.data@ == old_data.update(p as int, self.data@[p as int]));
                if old_t != t {
                    Self::unlink(&mut self.index, old_t, p);
                    let ghost mid_index = self.index@;
                    Self::link(&mut self.index, t, p);
                    proof {
                        assert forall|t2: i64, k: int|
                            self.index@.contains_key(t2) && 0 <= k < self.slot(t2).len() implies (
                            #[trigger] self.slot(t2)[k]) < self.data@.len()
                                && self.data@[self.slot(t2)[k] as int].scheduled_at == t2 by {
                            let q = self.slot(t2)[k];
                            if t2 == t {
                                if k < self.slot(t2).len() - 1 {
                                    assert(old_index.contains_key(t));
                                    assert(old_index[t]@[k] == q);
                                    assert(old_data[q as int].scheduled_at == t);
                                }
                            } else if t2 == old_t {
                                assert(self.slot(t2) == mid_index[old_t]@);
                                assert(mid_index[old_t]@.contains(q));
                                assert(old_index[old_t]@.contains(q));
                                let j = choose|j: int|
                                    0 <= j < old_index[old_t]@.len() && old_index[old_t]@[j] == q;
                                assert(old_index[old_t]@[j] == q);
                            } else {
                                assert(old_index[t2]@[k] == q);
                            }
                        }
                        assert forall|q: int| 0 <= q < self.data@.len() implies self.index@.contains_key(
                            (#[trigger] self.data@[q]).scheduled_at,
                        ) && self.slot(self.data@[q].scheduled_at).contains(q as usize) by {
                            let s2 = self.data@[q].scheduled_at;
                            if q == p {
                                assert(self.slot(t).last() == p);
                            } else {
                                assert(self.data@[q] == old_data[q]);
                                assert(old_index[s2]@.contains(q as usize));
                                if s2 == t {
                                    let j = choose|j: int|
                                        0 <= j < old_index[t]@.len() && old_index[t]@[j] == q as usize;
                                    assert(self.slot(t)[j] == q as usize);
                                } else if s2 == old_t {
                                    assert(old_index[old_t]@.contains(q as usize));
                                    assert(q as usize != p);
                                    assert(mid_index[old_t]@.contains(q as usize));
                                }
                            }
                        }
                    }
                }
                assert(self.wf());
            },
            None => {
                let p = self.data.len();
                self.data.push(record);
                let _len: usize = self.data.len();
                proof {
                    self.positions@ = self.positions@.insert(id, p as nat);
                }
                assert(!old_index.contains_key(t) || !old_index[t]@.contains(p)) by {
                    if old_index.contains_key(t) && old_index[t]@.contains(p) {
                        let j = choose|j: int| 0 <= j < old_index[t]@.len() && old_index[t]@[j] == p;
                        assert(old_index[t]@[j] < old_data.len());
                    }
                }
                Self::link(&mut self.index, t, p);
                proof {
                    assert forall|t2: i64, k: int|
                        self.index@.contains_key(t2) && 0 <= k < self.slot(t2).len() implies (
                        #[trigger] self.slot(t2)[k]) < self.data@.len()
                            && self.data@[self.slot(t2)[k] as int].scheduled_at == t2 by {
                        let q = self.slot(t2)[k];
                        if t2 == t {
                            if k < self.slot(t2).len() - 1 {
                                assert(old_index[t]@[k] == q);
                                assert(old_data[q as int].scheduled_at == t);
                            }
                        } else {
                            assert(old_index[t2]@[k] == q);
                        }
                    }
                    assert forall|q: int| 0 <= q < self.data@.len() implies self.index@.contains_key(
                        (#[trigger] self.data@[q]).scheduled_at,
                    ) && self.slot(self.data@[q].scheduled_at).contains(q as usize) by {
                        let s2 = self.data@[q].scheduled_at;
                        if q == p {
                            assert(self.slot(t).last() == p);
                        } else {
                            assert(self.data@[q] == old_data[q]);
                            assert(old_index[s2]@.contains(q as usize));
                            if s2 == t {
                                let j = choose|j: int|
                                    0 <= j < old_index[t]@.len() && old_index[t]@[j] == q as usize;
                                assert(self.slot(t)[j] == q as usize);
                            }
                        }
                    }
                    assert forall|a: Address| #[trigger] self.positions@.contains_key(a) implies self.positions@[a]
                        < self.data@.len() && self.data@[self.positions@[a] as int].id == a by {
                        if a != id {
                            assert(old_data[self.positions@[a] as int].id == a);
                        }
                    }
                }
                assert(self.wf());
            },
        }
        assert(self.records() =~= old_records.insert(id, rv));
    }

    /// Every record currently indexed at a timestamp in `[from, to)`, with
    /// the bucket key it was found under, in order of timestamp.
    pub fn scan(&self, from: i64, to: i64) -> (r: Vec<(i64, TaskRecord)>)
        requires
            self.wf(),
        ensures
            is_scan_of(scan_view(r@), self.records(), from, to),
    {
        let mut out: Vec<(i64, TaskRecord)> = Vec::new();
        let mut t = from;
        while t < to
            invariant
                self.wf(),
                t >= from,
                t <= to || t == from,
                t == from ==> out@.len() == 0,
                is_scan_of(scan_view(out@), self.records(), from, t),
                forall|k: int| 0 <= k < out@.len() ==> (#[trigger] out@[k]).0 < t,
            decreases to - t,
        {
            let ghost before = out@;
            match self.index.get(&t) {
                Some(slot) => {
                    let mut j: usize = 0;
                    while j < slot.len()
                        invariant
                            self.wf(),
                            from <= t < to,
                            self.index@.contains_key(t),
                            slot@ == self.slot(t),
                            j <= slot@.len(),
                            out@.len() == before.len() + j,
                            forall|k: int| 0 <= k < before.len() ==> out@[k] == before[k],
                            forall|k: int|
                                0 <= k < j ==> (#[trigger] out@[before.len() + k]).0 == t
                                    && out@[before.len() + k].1@ == self.data@[slot@[k] as int]@,
                        decreases slot@.len() - j,
                    {
                        let p = slot[j];
                        out.push((t, self.data[p].clone()));
                        j = j + 1;
                    }
                    proof {
                        self.lemma_scan_step(before, out@, from, t, true);
                    }
                },
                None => {
                    proof {
                        self.lemma_scan_step(before, out@, from, t, false);
                    }
                },
            }
            t = t + 1;
        }
        proof {
            if to < from {
                assert(ids_in_range(self.records(), from, to) =~= Set::empty());
                assert(out@.len() == 0);
            }
        }
        out
    }

    proof fn lemma_scan_step(
        &self,
        before: Seq<(i64, TaskRecord)>,
        after: Seq<(i64, TaskRecord)>,
        from: i64,
        t: i64,
        present: bool,
    )
        requires
            self.wf(),
            from <= t < i64::MAX,
            is_scan_of(scan_view(before), self.records(), from, t),
            forall|k: int| 0 <= k < before.len() ==> (#[trigger] before[k]).0 < t,
            present == self.index@.contains_key(t),
            present ==> after.len() == before.len() + self.slot(t).len(),
            !present ==> after == before,
            forall|k: int| 0 <= k < before.len() ==> after[k] == before[k],
            present ==> forall|k: int|
                0 <= k < self.slot(t).len() ==> (#[trigger] after[before.len() + k]).0 == t
                    && after[before.len() + k].1@ == self.data@[self.slot(t)[k] as int]@,
        ensures
            is_scan_of(scan_view(after), self.records(), from, (t + 1) as i64),
            forall|k: int| 0 <= k < after.len() ==> (#[trigger] after[k]).0 < t + 1,
    {
        let m = self.records();
        let bv = scan_view(before);
        let av = scan_view(after);
        let n = before.len();
        let s = if present {
            self.slot(t)
        } else {
            Seq::empty()
        };
        assert(after.len() == n + s.len());
        assert forall|k: int| 0 <= k < after.len() implies (#[trigger] after[k]).0 < t + 1 by {
            if k < n {
                assert(after[k] == before[k]);
            } else {
                assert(after[n + (k - n)].0 == t);
            }
        }
        // Entries that come from the bucket `t`.
        assert forall|k: int| n <= k < av.len() implies {
            &&& av[k].0 == t
            &&& av[k].1.scheduled_at == t
            &&& m.contains_key(av[k].1.id)
            &&& m[av[k].1.id] == av[k].1
            &&& self.positions@[av[k].1.id] == s[k - n]
        } by {
            let i = k - n;
            assert(after[n + i].0 == t);
            let p = s[i];
            assert(self.slot(t)[i] == p);
            assert(p < self.data@.len());
            assert(self.data@[p as int].scheduled_at == t);
            let a = self.data@[p as int].id;
            assert(self.positions@.contains_key(a));
        }
        assert forall|k: int| 0 <= k < n implies av[k] == bv[k] by {
            assert(after[k] == before[k]);
        }
        // Soundness of each entry.
        assert forall|k: int| 0 <= k < av.len() implies {
            &&& in_range(#[trigger] av[k].0, from, (t + 1) as i64)
            &&& av[k].1.scheduled_at == av[k].0
            &&& m.contains_key(av[k].1.id)
            &&& m[av[k].1.id] == av[k].1
        } by {
            if k < n {
                assert(av[k] == bv[k]);
                assert(in_range(bv[k].0, from, t));
            }
        }
        // Completeness.
        assert forall|a: Address| #[trigger]
            ids_in_range(m, from, (t + 1) as i64).contains(a) implies exists|k: int|
            0 <= k < av.len() && (#[trigger] av[k]).1.id == a by {
            if m[a].scheduled_at < t {
                assert(ids_in_range(m, from, t).contains(a));
                let k = choose|k: int| 0 <= k < bv.len() && (#[trigger] bv[k]).1.id == a;
                assert(av[k] == bv[k]);
            } else {
                let p = self.positions@[a] as int;
                assert(self.data@[p].id == a);
                assert(self.data@[p].scheduled_at == t);
                assert(self.index@.contains_key(t));
                assert(self.slot(t).contains(p as usize));
                let i = choose|i: int| 0 <= i < s.len() && s[i] == p as usize;
                assert(n <= n + i < av.len());
                assert(m.contains_key(av[n + i].1.id));
                assert(self.positions@.contains_key(av[n + i].1.id));
                assert(self.positions@[av[n + i].1.id] == s[i]);
                assert(av[n + i].1.id == self.data@[p].id);
            }
        }
        // Distinctness and order.
        assert forall|k1: int, k2: int| 0 <= k1 < k2 < av.len() implies (#[trigger] av[k1]).1.id
            != (#[trigger] av[k2]).1.id && av[k1].0 <= av[k2].0 by {
            if k2 < n {
                assert(av[k1] == bv[k1]);
                assert(av[k2] == bv[k2]);
            } else if k1 < n {
                assert(av[k1] == bv[k1]);
                assert(before[k1].0 < t);
                assert(av[k1].1.scheduled_at < t);
            } else {
                assert(self.positions@[av[k1].1.id] == s[k1 - n]);
                assert(self.positions@[av[k2].1.id] == s[k2 - n]);
                assert(self.slot(t).no_duplicates());
            }
        }
    }
}

} // verus!
