use clockwork_engine::cache::TaskCache;
use clockwork_engine::executor::{
    begin_execute, finish_execute, translate_accounts, AccountMeta, Outcome, Start,
};
use clockwork_engine::lock::{InstanceKey, LockBucket};
use clockwork_engine::monitor::TickMonitor;
use clockwork_engine::record::{AccountRef, Action, Address, TaskRecord, TaskStatus};
use clockwork_engine::scheduler::{due_tasks, window_start_of, LOOKBACK_WINDOW};

fn addr(n: u8) -> Address {
    Address { bytes: [n; 32] }
}

fn task(id: u8, at: i64, status: TaskStatus) -> TaskRecord {
    TaskRecord {
        id: addr(id),
        owner_ref: addr(200),
        scheduled_at: at,
        status,
        action: Action {
            program_id: addr(100),
            accounts: vec![
                AccountRef { pubkey: addr(101), is_writable: true },
                AccountRef { pubkey: addr(102), is_writable: false },
            ],
            data: vec![1, 2, 3],
        },
    }
}

fn scan_ids(cache: &TaskCache, from: i64, to: i64) -> Vec<(i64, Address)> {
    cache.scan(from, to).into_iter().map(|(t, r)| (t, r.id)).collect()
}

fn due_ids(cache: &TaskCache, tick: i64) -> Vec<Address> {
    due_tasks(cache, tick).into_iter().map(|(_, r)| r.id).collect()
}

#[test]
fn empty_cache_scans_nothing() {
    let cache = TaskCache::new();
    assert!(cache.scan(i64::MIN, i64::MAX).is_empty());
    assert!(cache.get(&addr(1)).is_none());
}

#[test]
fn insert_then_get_returns_snapshot() {
    let mut cache = TaskCache::new();
    cache.insert(task(1, 50, TaskStatus::Queued));
    let got = cache.get(&addr(1)).unwrap();
    assert_eq!(got.id, addr(1));
    assert_eq!(got.scheduled_at, 50);
    assert_eq!(got.status, TaskStatus::Queued);
    assert_eq!(got.action.data, vec![1, 2, 3]);
    assert!(cache.get(&addr(2)).is_none());
}

#[test]
fn idempotent_insert() {
    let mut once = TaskCache::new();
    once.insert(task(1, 10, TaskStatus::Queued));
    let mut twice = TaskCache::new();
    twice.insert(task(1, 10, TaskStatus::Queued));
    twice.insert(task(1, 10, TaskStatus::Queued));
    assert_eq!(scan_ids(&once, 0, 100), scan_ids(&twice, 0, 100));
    assert_eq!(scan_ids(&twice, 0, 100), vec![(10, addr(1))]);
}

#[test]
fn scan_is_ordered_and_half_open() {
    let mut cache = TaskCache::new();
    cache.insert(task(3, 30, TaskStatus::Queued));
    cache.insert(task(1, 10, TaskStatus::Queued));
    cache.insert(task(2, 20, TaskStatus::Done));
    cache.insert(task(4, 40, TaskStatus::Queued));
    assert_eq!(
        scan_ids(&cache, 10, 40),
        vec![(10, addr(1)), (20, addr(2)), (30, addr(3))]
    );
    assert!(scan_ids(&cache, 40, 10).is_empty());
}

#[test]
fn bucket_consistency() {
    let mut cache = TaskCache::new();
    for i in 0..10u8 {
        cache.insert(task(i, 100 + (i as i64 % 3), TaskStatus::Queued));
    }
    let entries = cache.scan(90, 110);
    assert_eq!(entries.len(), 10);
    for (t, r) in entries {
        assert_eq!(t, r.scheduled_at);
    }
}

#[test]
fn rescheduled_task_leaves_old_bucket() {
    let mut cache = TaskCache::new();
    cache.insert(task(1, 10, TaskStatus::Queued));
    cache.insert(task(2, 10, TaskStatus::Queued));
    cache.insert(task(1, 50, TaskStatus::Queued));
    assert_eq!(scan_ids(&cache, 0, 20), vec![(10, addr(2))]);
    assert_eq!(scan_ids(&cache, 40, 60), vec![(50, addr(1))]);
}

#[test]
fn at_most_one_in_flight() {
    let mut bucket = LockBucket::new();
    let key = InstanceKey { id: addr(1), at: 99 };
    assert!(bucket.try_acquire(key));
    assert!(!bucket.try_acquire(key));
    assert!(bucket.is_held(&key));
    bucket.release(&key);
    assert!(!bucket.is_held(&key));
    assert!(bucket.try_acquire(key));
}

#[test]
fn instances_of_one_task_are_independent() {
    let mut bucket = LockBucket::new();
    assert!(bucket.try_acquire(InstanceKey { id: addr(1), at: 10 }));
    assert!(bucket.try_acquire(InstanceKey { id: addr(1), at: 11 }));
    assert!(bucket.try_acquire(InstanceKey { id: addr(2), at: 10 }));
    assert!(!bucket.try_acquire(InstanceKey { id: addr(1), at: 11 }));
}

#[test]
fn window_coverage() {
    let tick: i64 = 1_000;
    let mut cache = TaskCache::new();
    cache.insert(task(1, tick - 1, TaskStatus::Queued));
    assert_eq!(due_ids(&cache, tick), vec![addr(1)]);
    assert_eq!(scan_ids(&cache, window_start_of(tick), tick), vec![(tick - 1, addr(1))]);
}

#[test]
fn window_edges() {
    let tick: i64 = 1_000;
    let mut cache = TaskCache::new();
    cache.insert(task(1, tick - LOOKBACK_WINDOW, TaskStatus::Queued));
    cache.insert(task(2, tick, TaskStatus::Queued));
    assert_eq!(due_ids(&cache, tick), vec![addr(1)]);
}

#[test]
fn window_exclusion() {
    let tick: i64 = 1_000;
    let mut cache = TaskCache::new();
    cache.insert(task(1, tick - 121, TaskStatus::Queued));
    assert!(due_ids(&cache, tick).is_empty());
    assert!(scan_ids(&cache, window_start_of(tick), tick).is_empty());
}

#[test]
fn window_start_saturates() {
    assert_eq!(window_start_of(1_000), 880);
    assert_eq!(window_start_of(i64::MIN + 5), i64::MIN);
}

#[test]
fn due_tasks_skip_records_not_queued() {
    let mut cache = TaskCache::new();
    cache.insert(task(1, 95, TaskStatus::Queued));
    cache.insert(task(2, 96, TaskStatus::Done));
    cache.insert(task(3, 97, TaskStatus::Cancelled));
    assert_eq!(due_ids(&cache, 100), vec![addr(1)]);
}

#[test]
fn tick_sequence_scenario() {
    let mut cache = TaskCache::new();
    cache.insert(task(7, 99, TaskStatus::Queued));
    for tick in [100i64, 101, 102] {
        assert_eq!(due_ids(&cache, tick), vec![addr(7)]);
    }
    assert_eq!(due_ids(&cache, 219), vec![addr(7)]);
    assert!(due_ids(&cache, 220).is_empty());
}

#[test]
fn monitor_passes_increasing_ticks_only() {
    let mut m = TickMonitor::new();
    assert_eq!(m.observe(100), Some(100));
    assert_eq!(m.observe(100), None);
    assert_eq!(m.observe(99), None);
    assert_eq!(m.observe(105), Some(105));
    assert_eq!(m.last_tick, Some(105));
}

#[test]
fn accounts_translate_with_program_last() {
    let rec = task(1, 10, TaskStatus::Queued);
    let metas = translate_accounts(&rec.action);
    assert_eq!(metas.len(), 3);
    assert_eq!(metas[0].pubkey, addr(101));
    assert!(metas[0].is_writable && !metas[0].is_signer);
    assert_eq!(metas[1].pubkey, addr(102));
    assert!(!metas[1].is_writable && !metas[1].is_signer);
    assert_eq!(metas[2].pubkey, addr(100));
    assert!(!metas[2].is_writable && !metas[2].is_signer);
}

fn submission_of(s: Start) -> clockwork_engine::executor::Submission {
    match s {
        Start::Submit(sub) => sub,
        other => panic!("expected a submission, got {:?}", other),
    }
}

#[test]
fn begin_execute_assembles_submission() {
    let mut cache = TaskCache::new();
    let mut bucket = LockBucket::new();
    let rec = task(1, 99, TaskStatus::Queued);
    cache.insert(rec.clone());
    let sub = submission_of(begin_execute(&cache, &mut bucket, addr(1), &rec, addr(50), addr(51), addr(52)));
    assert_eq!(sub.instance.id, addr(1));
    assert_eq!(sub.instance.at, 99);
    assert_eq!(sub.config, addr(50));
    assert_eq!(sub.fee, addr(51));
    assert_eq!(sub.payer, addr(52));
    assert_eq!(sub.owner, addr(200));
    assert_eq!(sub.task, addr(1));
    let last: &AccountMeta = sub.accounts.last().unwrap();
    assert_eq!(last.pubkey, addr(100));
    assert!(bucket.is_held(&InstanceKey { id: addr(1), at: 99 }));
}

#[test]
fn non_blocking_dedup() {
    let mut cache = TaskCache::new();
    let mut bucket = LockBucket::new();
    let rec = task(1, 99, TaskStatus::Queued);
    cache.insert(rec.clone());
    let first = begin_execute(&cache, &mut bucket, addr(1), &rec, addr(50), addr(51), addr(52));
    let second = begin_execute(&cache, &mut bucket, addr(1), &rec, addr(50), addr(51), addr(52));
    assert!(matches!(first, Start::Submit(_)));
    assert!(matches!(second, Start::Busy));
    let key = submission_of(first).instance;
    finish_execute(&mut cache, &mut bucket, &key, Outcome::Submitted);
    assert!(!bucket.is_held(&key));
    let third = begin_execute(&cache, &mut bucket, addr(1), &rec, addr(50), addr(51), addr(52));
    assert!(matches!(third, Start::Submit(_)));
}

#[test]
fn cancelled_task_is_not_submitted() {
    let mut cache = TaskCache::new();
    let mut bucket = LockBucket::new();
    let rec = task(1, 99, TaskStatus::Queued);
    cache.insert(task(1, 99, TaskStatus::Cancelled));
    let start = begin_execute(&cache, &mut bucket, addr(1), &rec, addr(50), addr(51), addr(52));
    assert!(matches!(start, Start::NotQueued));
    assert!(!bucket.is_held(&InstanceKey { id: addr(1), at: 99 }));
}

#[test]
fn failure_recovery_round_trip() {
    let mut cache = TaskCache::new();
    let mut bucket = LockBucket::new();
    let rec = task(1, 99, TaskStatus::Queued);
    cache.insert(rec.clone());
    let key = submission_of(begin_execute(&cache, &mut bucket, addr(1), &rec, addr(50), addr(51), addr(52))).instance;
    let mut fresh = task(1, 160, TaskStatus::Done);
    fresh.action.data = vec![9];
    finish_execute(&mut cache, &mut bucket, &key, Outcome::Refreshed(fresh));
    let got = cache.get(&addr(1)).unwrap();
    assert_eq!(got.status, TaskStatus::Done);
    assert_eq!(got.scheduled_at, 160);
    assert_eq!(got.action.data, vec![9]);
    assert!(!bucket.is_held(&key));
    assert!(scan_ids(&cache, 0, 150).is_empty());
}

#[test]
fn unrecoverable_failure_keeps_cached_record() {
    let mut cache = TaskCache::new();
    let mut bucket = LockBucket::new();
    let rec = task(1, 99, TaskStatus::Queued);
    cache.insert(rec.clone());
    let key = submission_of(begin_execute(&cache, &mut bucket, addr(1), &rec, addr(50), addr(51), addr(52))).instance;
    finish_execute(&mut cache, &mut bucket, &key, Outcome::Unrecoverable);
    let got = cache.get(&addr(1)).unwrap();
    assert_eq!(got.status, TaskStatus::Queued);
    assert_eq!(got.scheduled_at, 99);
    assert!(!bucket.is_held(&key));
}

#[test]
fn address_equality_is_bytewise() {
    let mut b = [7u8; 32];
    assert_eq!(addr(7), Address { bytes: b });
    b[31] = 8;
    assert_ne!(addr(7), Address { bytes: b });
}

#[test]
fn releasing_a_free_instance_changes_nothing() {
    let mut bucket = LockBucket::new();
    let held = InstanceKey { id: addr(1), at: 5 };
    let free = InstanceKey { id: addr(2), at: 5 };
    assert!(bucket.try_acquire(held));
    bucket.release(&free);
    assert!(bucket.is_held(&held));
    assert!(!bucket.is_held(&free));
}
