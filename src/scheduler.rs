//! Selection of the tasks due at a tick.
use vstd::prelude::*;

use crate::cache::{TaskCache, is_scan_of, scan_view};
use crate::record::{Address, TaskRecord, TaskRecordView, TaskStatus};

verus! {

/// How far back (seconds) each tick looks for due tasks.
pub const LOOKBACK_WINDOW: i64 = 120;

/// First timestamp of the window of `tick`: `tick - LOOKBACK_WINDOW`, or the
/// least `i64` where that does not exist.
pub open spec fn window_start(tick: i64) -> i64 {
    if tick >= i64::MIN + LOOKBACK_WINDOW {
        (tick - LOOKBACK_WINDOW) as i64
    } else {
        i64::MIN
    }
}

/// The records of `m` that are still queued.
pub open spec fn queued(m: Map<Address, TaskRecordView>) -> Map<Address, TaskRecordView> {
    m.restrict(Set::new(|a: Address| m.contains_key(a) && m[a].status == TaskStatus::Queued))
}

/// First timestamp scanned at `tick`.
pub fn window_start_of(tick: i64) -> (r: i64)
    ensures
        r == window_start(tick),
{
    if tick >= i64::MIN + LOOKBACK_WINDOW {
        tick - LOOKBACK_WINDOW
    } else {
        i64::MIN
    }
}

/// The queued tasks indexed in the window `[tick - LOOKBACK_WINDOW, tick)`,
/// each with the bucket key it was found under, in order of timestamp.
pub fn due_tasks(cache: &TaskCache, tick: i64) -> (r: Vec<(i64, TaskRecord)>)
    requires
        cache.wf(),
    ensures
        is_scan_of(scan_view(r@), queued(cache.records()), window_start(tick), tick),
{
    let from = window_start_of(tick);
    let all = cache.scan(from, tick);
    let ghost m = cache.records();
    let ghost q = queued(m);
    let ghost av = scan_view(all@);
    let mut out: Vec<(i64, TaskRecord)> = Vec::new();
    let ghost mut picked: Seq<int> = Seq::empty();
    let mut i: usize = 0;
    while i < all.len()
        invariant
            i <= all@.len(),
            av == scan_view(all@),
            is_scan_of(av, m, from, tick),
            q == queued(m),
            from == window_start(tick),
            picked.len() == out@.len(),
            forall|k: int|
                0 <= k < picked.len() ==> av[#[trigger] picked[k]].1.status == TaskStatus::Queued,
            forall|k: int|
                0 <= k < picked.len() ==> 0 <= #[trigger] picked[k] < i && scan_view(out@)[k]
                    == av[picked[k]],
            forall|k1: int, k2: int|
                0 <= k1 < k2 < picked.len() ==> #[trigger] picked[k1] < #[trigger] picked[k2],
            forall|j: int|
                0 <= j < i && av[j].1.status == TaskStatus::Queued ==> exists|k: int|
                    0 <= k < picked.len() && #[trigger] picked[k] == j,
        decreases all@.len() - i,
    {
        if all[i].1.status == TaskStatus::Queued {
            let ghost before = out@;
            out.push((all[i].0, all[i].1.clone()));
            proof {
                let ghost old_picked = picked;
                picked = picked.push(i as int);
                assert forall|k: int| 0 <= k < picked.len() implies 0 <= #[trigger] picked[k] < i
                    + 1 && scan_view(out@)[k] == av[picked[k]] by {
                    if k < before.len() {
                        assert(out@[k] == before[k]);
                    }
                }
                assert forall|j: int|
                    0 <= j < i + 1 && av[j].1.status == TaskStatus::Queued implies exists|k: int|
                    0 <= k < picked.len() && #[trigger] picked[k] == j by {
                    if j == i {
                        assert(picked[picked.len() - 1] == j);
                    } else {
                        let k = choose|k: int| 0 <= k < old_picked.len() && #[trigger] old_picked[k] == j;
                        assert(picked[k] == j);
                    }
                }
            }
        }
        i = i + 1;
    }
    proof {
        let ov = scan_view(out@);
        assert forall|k: int| 0 <= k < ov.len() implies {
            &&& crate::cache::in_range(#[trigger] ov[k].0, window_start(tick), tick)
            &&& ov[k].1.scheduled_at == ov[k].0
            &&& q.contains_key(ov[k].1.id)
            &&& q[ov[k].1.id] == ov[k].1
        } by {
            let j = picked[k];
            assert(ov[k] == av[j]);
            assert(m.contains_key(av[j].1.id));
        }
        assert forall|a: Address| #[trigger]
            crate::cache::ids_in_range(q, window_start(tick), tick).contains(a) implies exists|k: int|
            0 <= k < ov.len() && (#[trigger] ov[k]).1.id == a by {
            assert(crate::cache::ids_in_range(m, from, tick).contains(a));
            let j = choose|j: int| 0 <= j < av.len() && (#[trigger] av[j]).1.id == a;
            assert(av[j].1.status == TaskStatus::Queued);
            let k = choose|k: int| 0 <= k < picked.len() && #[trigger] picked[k] == j;
            assert(ov[k] == av[j]);
        }
        assert forall|k1: int, k2: int| 0 <= k1 < k2 < ov.len() implies (#[trigger] ov[k1]).1.id
            != (#[trigger] ov[k2]).1.id && ov[k1].0 <= ov[k2].0 by {
            assert(picked[k1] < picked[k2]);
            assert(ov[k1] == av[picked[k1]]);
            assert(ov[k2] == av[picked[k2]]);
        }
    }
    out
}

} // verus!
