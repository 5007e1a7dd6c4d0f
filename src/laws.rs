//! Properties that hold across the operations of the engine.
use vstd::prelude::*;

use crate::cache::{in_range, ids_in_range, is_scan_of};
use crate::executor::{as_snapshot_of, held_after_start, instance_of, start_kind, StartKind, still_queued};
use crate::lock::InstanceKey;
use crate::record::{Address, TaskRecordView};
use crate::scheduler::{window_start, LOOKBACK_WINDOW};

verus! {

/// Inserting a record a second time changes nothing: the cache holds what one
/// insert leaves, so every scan of it hands out the same entries.
pub proof fn lemma_insert_idempotent(
    m: Map<Address, TaskRecordView>,
    r: TaskRecordView,
    from: i64,
    to: i64,
    s: Seq<(i64, TaskRecordView)>,
)
    ensures
        m.insert(r.id, r).insert(r.id, r) == m.insert(r.id, r),
        is_scan_of(s, m.insert(r.id, r).insert(r.id, r), from, to) <==> is_scan_of(
            s,
            m.insert(r.id, r),
            from,
            to,
        ),
{
    assert(m.insert(r.id, r).insert(r.id, r) =~= m.insert(r.id, r));
}

/// Every entry of a scan is found under the bucket of its own timestamp.
pub proof fn lemma_bucket_consistency(
    m: Map<Address, TaskRecordView>,
    from: i64,
    to: i64,
    s: Seq<(i64, TaskRecordView)>,
    k: int,
)
    requires
        is_scan_of(s, m, from, to),
        0 <= k < s.len(),
    ensures
        s[k].1.scheduled_at == s[k].0,
        in_range(s[k].0, from, to),
{
}

/// A record is in the window of `tick` exactly when it is scheduled before the
/// tick and at most `LOOKBACK_WINDOW` seconds before it.
pub proof fn lemma_window_membership(at: i64, tick: i64)
    ensures
        in_range(at, window_start(tick), tick) <==> at < tick <= at + LOOKBACK_WINDOW,
{
}

/// A record scheduled one second before `tick` and inserted before the scan of
/// `tick` is among the entries of that scan.
pub proof fn lemma_window_coverage(
    m: Map<Address, TaskRecordView>,
    r: TaskRecordView,
    tick: i64,
    s: Seq<(i64, TaskRecordView)>,
)
    requires
        r.scheduled_at == tick - 1,
        is_scan_of(s, m.insert(r.id, r), window_start(tick), tick),
    ensures
        exists|k: int| 0 <= k < s.len() && s[k].1 == r && s[k].0 == tick - 1,
{
    let m2 = m.insert(r.id, r);
    assert(ids_in_range(m2, window_start(tick), tick).contains(r.id));
    let k = choose|k: int| 0 <= k < s.len() && (#[trigger] s[k]).1.id == r.id;
    assert(s[k].1 == r);
}

/// A record scheduled `LOOKBACK_WINDOW + 1` seconds before `tick` is not in
/// the scan of `tick`.
pub proof fn lemma_window_exclusion(
    m: Map<Address, TaskRecordView>,
    r: TaskRecordView,
    tick: i64,
    s: Seq<(i64, TaskRecordView)>,
)
    requires
        r.scheduled_at == tick - LOOKBACK_WINDOW - 1,
        is_scan_of(s, m.insert(r.id, r), window_start(tick), tick),
    ensures
        forall|k: int| 0 <= k < s.len() ==> (#[trigger] s[k]).1.id != r.id,
{
    let m2 = m.insert(r.id, r);
    assert forall|k: int| 0 <= k < s.len() implies (#[trigger] s[k]).1.id != r.id by {
        if s[k].1.id == r.id {
            assert(in_range(s[k].0, window_start(tick), tick));
            assert(m2[s[k].1.id] == s[k].1);
        }
    }
}

/// Of two attempts to take one free instance, the first succeeds and the
/// second finds it busy; once the holder releases it, it can be taken again.
pub proof fn lemma_at_most_one_in_flight(held: Set<InstanceKey>, key: InstanceKey)
    requires
        !held.contains(key),
    ensures
        !held.contains(key),
        held.insert(key).contains(key),
        !held.insert(key).remove(key).contains(key),
{
}

/// After an attempt whose submission failed and whose task was read back from
/// the ledger, the cache's snapshot of the task is the record read back.
pub proof fn lemma_failure_recovery(
    before: Map<Address, TaskRecordView>,
    key: InstanceKey,
    fresh: TaskRecordView,
)
    requires
        fresh.id == key.id,
    ensures
        before.insert(key.id, as_snapshot_of(fresh, key.id)).contains_key(key.id),
        before.insert(key.id, as_snapshot_of(fresh, key.id))[key.id] == fresh,
{
    assert(as_snapshot_of(fresh, key.id) == fresh);
}

/// Of two attempts on one instance started while neither has finished, only
/// the first reaches the submission; the second finds the instance busy.
/// Once the first has finished, a new attempt may submit again.
pub proof fn lemma_dedup(
    held: Set<InstanceKey>,
    records: Map<Address, TaskRecordView>,
    id: Address,
    record: TaskRecordView,
)
    requires
        !held.contains(instance_of(id, record)),
        still_queued(records, id, record),
    ensures
        start_kind(held, records, id, record) == StartKind::Submit,
        start_kind(held_after_start(held, records, id, record), records, id, record)
            == StartKind::Busy,
        start_kind(
            held_after_start(held, records, id, record).remove(instance_of(id, record)),
            records,
            id,
            record,
        ) == StartKind::Submit,
{
    let key = instance_of(id, record);
    assert(held.insert(key).remove(key) =~= held);
}

} // verus!
