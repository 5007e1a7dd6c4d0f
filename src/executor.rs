//! Decisions of one execution attempt.
//!
//! An attempt runs in two steps around the ledger submission, which the
//! caller performs: [`begin_execute`] takes the instance lock and assembles
//! the submission, [`finish_execute`] absorbs the outcome and gives the lock
//! back on every path.
use vstd::prelude::*;

use crate::cache::TaskCache;
use crate::lock::{InstanceKey, LockBucket};
use crate::record::{AccountRef, Action, ActionView, Address, TaskRecord, TaskRecordView, TaskStatus};

verus! {

/// One account reference of a submitted instruction.
#[derive(Clone, Copy, Debug)]
pub struct AccountMeta {
    pub pubkey: Address,
    pub is_signer: bool,
    pub is_writable: bool,
}

/// The submitted form of an account listed by an action: mutable or
/// read-only as recorded, never a signer.
pub open spec fn meta_of(a: AccountRef) -> AccountMeta {
    AccountMeta { pubkey: a.pubkey, is_signer: false, is_writable: a.is_writable }
}

/// The accounts appended to the execute instruction for `action`: each listed
/// account in order, then the target program, read-only.
pub open spec fn submission_accounts(action: ActionView) -> Seq<AccountMeta> {
    action.accounts.map_values(|a: AccountRef| meta_of(a)).push(
        AccountMeta { pubkey: action.program_id, is_signer: false, is_writable: false },
    )
}

/// Translates the account list of `action` into submission form.
pub fn translate_accounts(action: &Action) -> (r: Vec<AccountMeta>)
    ensures
        r@ == submission_accounts(action@),
{
    let mut r: Vec<AccountMeta> = Vec::new();
    let mut i: usize = 0;
    while i < action.accounts.len()
        invariant
            i <= action.accounts@.len(),
            r@ == action.accounts@.subrange(0, i as int).map_values(|a: AccountRef| meta_of(a)),
        decreases action.accounts@.len() - i,
    {
        let acc = action.accounts[i];
        let meta = if acc.is_writable {
            AccountMeta { pubkey: acc.pubkey, is_signer: false, is_writable: true }
        } else {
            AccountMeta { pubkey: acc.pubkey, is_signer: false, is_writable: false }
        };
        r.push(meta);
        proof {
            assert(action.accounts@.subrange(0, i + 1) =~= action.accounts@.subrange(
                0,
                i as int,
            ).push(acc));
        }
        i = i + 1;
        assert(r@ =~= action.accounts@.subrange(0, i as int).map_values(
            |a: AccountRef| meta_of(a),
        ));
    }
    assert(action.accounts@.subrange(0, i as int) =~= action.accounts@);
    r.push(AccountMeta { pubkey: action.program_id, is_signer: false, is_writable: false });
    r
}

/// Everything the ledger client needs to submit the execution of one task
/// instance.
#[derive(Debug)]
pub struct Submission {
    /// The instance whose lock this attempt holds.
    pub instance: InstanceKey,
    /// The configuration account derived for the engine.
    pub config: Address,
    /// The owning context of the task.
    pub owner: Address,
    /// The fee account derived from the owning context.
    pub fee: Address,
    /// The task account.
    pub task: Address,
    /// The account paying for the transaction.
    pub payer: Address,
    /// Accounts appended after the fixed ones, see [`submission_accounts`].
    pub accounts: Vec<AccountMeta>,
}

/// How the first step of an attempt ended.
#[derive(Debug)]
pub enum Start {
    /// Another attempt holds the instance; nothing was done.
    Busy,
    /// The cache no longer shows the task as queued; the lock was given back.
    NotQueued,
    /// The lock is held; submit this, then call [`finish_execute`].
    Submit(Submission),
}

/// Whether the task is still to be run: its current snapshot in the cache is
/// queued, or, if the cache has none, the record handed to the attempt is.
pub open spec fn still_queued(
    records: Map<Address, TaskRecordView>,
    id: Address,
    record: TaskRecordView,
) -> bool {
    if records.contains_key(id) {
        records[id].status == TaskStatus::Queued
    } else {
        record.status == TaskStatus::Queued
    }
}

/// The instance an attempt on `record` for task `id` locks.
pub open spec fn instance_of(id: Address, record: TaskRecordView) -> InstanceKey {
    InstanceKey { id, at: record.scheduled_at }
}

/// How the first step of an attempt ends, without its payload.
#[derive(PartialEq, Eq, Structural, Clone, Copy, Debug)]
pub enum StartKind {
    Busy,
    NotQueued,
    Submit,
}

/// The kind of a [`Start`].
pub open spec fn kind_of(s: &Start) -> StartKind {
    match s {
        Start::Busy => StartKind::Busy,
        Start::NotQueued => StartKind::NotQueued,
        Start::Submit(_) => StartKind::Submit,
    }
}

/// How an attempt on task `id` from `record` starts when the instances in
/// `held` are in flight and the cache holds `records`: busy if its instance
/// is held, not queued if the task is no longer to be run, else submitted.
pub open spec fn start_kind(
    held: Set<InstanceKey>,
    records: Map<Address, TaskRecordView>,
    id: Address,
    record: TaskRecordView,
) -> StartKind {
    if held.contains(instance_of(id, record)) {
        StartKind::Busy
    } else if !still_queued(records, id, record) {
        StartKind::NotQueued
    } else {
        StartKind::Submit
    }
}

/// The instances in flight after that start: the attempt's own instance is
/// added exactly when it goes on to submit.
pub open spec fn held_after_start(
    held: Set<InstanceKey>,
    records: Map<Address, TaskRecordView>,
    id: Address,
    record: TaskRecordView,
) -> Set<InstanceKey> {
    if start_kind(held, records, id, record) == StartKind::Submit {
        held.insert(instance_of(id, record))
    } else {
        held
    }
}

/// First step of executing task `id` from `record`: try the instance lock,
/// re-check the task's status against the cache, and assemble the
/// submission from the derived `config` and `fee` accounts and the `payer`.
pub fn begin_execute(
    cache: &TaskCache,
    bucket: &mut LockBucket,
    id: Address,
    record: &TaskRecord,
    config: Address,
    fee: Address,
    payer: Address,
) -> (r: Start)
    requires
        cache.wf(),
        old(bucket).wf(),
    ensures
        final(bucket).wf(),
        kind_of(&r) == start_kind(old(bucket).held(), cache.records(), id, record@),
        final(bucket).held() == held_after_start(old(bucket).held(), cache.records(), id, record@),
        r is Submit ==> {
            &&& r->Submit_0.instance == instance_of(id, record@)
            &&& r->Submit_0.config == config
            &&& r->Submit_0.owner == record.owner_ref
            &&& r->Submit_0.fee == fee
            &&& r->Submit_0.task == id
            &&& r->Submit_0.payer == payer
            &&& r->Submit_0.accounts@ == submission_accounts(record.action@)
        },
{
    let key = InstanceKey { id, at: record.scheduled_at };
    if !bucket.try_acquire(key) {
        return Start::Busy;
    }
    let queued = match cache.get(&id) {
        Some(current) => current.status == TaskStatus::Queued,
        None => record.status == TaskStatus::Queued,
    };
    if !queued {
        let ghost before = old(bucket).held();
        bucket.release(&key);
        assert(bucket.held() =~= before);
        return Start::NotQueued;
    }
    let accounts = translate_accounts(&record.action);
    Start::Submit(
        Submission {
            instance: key,
            config,
            owner: record.owner_ref,
            fee,
            task: id,
            payer,
            accounts,
        },
    )
}

/// What became of a submission.
#[derive(Debug)]
pub enum Outcome {
    /// The ledger accepted the submission.
    Submitted,
    /// The submission failed; the task's account was read back from the
    /// ledger and decoded into this record.
    Refreshed(TaskRecord),
    /// The submission failed and the task could not be read back or decoded.
    Unrecoverable,
}

/// `record` as the snapshot of the task account `id`.
pub open spec fn as_snapshot_of(record: TaskRecordView, id: Address) -> TaskRecordView {
    TaskRecordView { id, ..record }
}

/// Second step of an attempt on `instance`: on a failed submission whose task
/// could be read back, the fresh record replaces the cached one; the lock is
/// given back whatever happened.
pub fn finish_execute(
    cache: &mut TaskCache,
    bucket: &mut LockBucket,
    instance: &InstanceKey,
    outcome: Outcome,
)
    requires
        old(cache).wf(),
        old(bucket).wf(),
    ensures
        final(cache).wf(),
        final(bucket).wf(),
        final(bucket).held() == old(bucket).held().remove(*instance),
        match outcome {
            Outcome::Refreshed(fresh) => final(cache).records() == old(cache).records().insert(
                instance.id,
                as_snapshot_of(fresh@, instance.id),
            ),
            _ => final(cache).records() == old(cache).records(),
        },
{
    match outcome {
        Outcome::Refreshed(fresh) => {
            let mut fresh = fresh;
            fresh.id = instance.id;
            cache.insert(fresh);
        },
        _ => {},
    }
    bucket.release(instance);
}

} // verus!
