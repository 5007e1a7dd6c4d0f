//! Task records as read from the ledger.
use vstd::prelude::*;

verus! {

/// A fixed-size ledger address.
#[derive(Clone, Copy, Debug)]
pub struct Address {
    pub bytes: [u8; 32],
}

impl Address {
    /// Byte-wise comparison of two addresses.
    pub fn same_as(&self, other: &Address) -> (r: bool)
        ensures
            r == (*self == *other),
    {
        let mut i: usize = 0;
        while i < 32
            invariant
                0 <= i <= 32,
                forall|j: int| 0 <= j < i ==> self.bytes[j] == other.bytes[j],
            decreases 32 - i,
        {
            if self.bytes[i] != other.bytes[i] {
                return false;
            }
            i = i + 1;
        }
        proof {
            assert(self.bytes@ =~= other.bytes@);
            vstd::array::axiom_array_ext_equal(self.bytes, other.bytes);
        }
        true
    }
}

impl PartialEq for Address {
    fn eq(&self, other: &Address) -> (r: bool) {
        self.same_as(other)
    }
}

impl vstd::std_specs::cmp::PartialEqSpecImpl for Address {
    open spec fn obeys_eq_spec() -> bool {
        true
    }

    open spec fn eq_spec(&self, other: &Address) -> bool {
        *self == *other
    }
}

impl Eq for Address {}

/// Lifecycle state of a task on the ledger.
#[derive(Clone, Copy, Debug, PartialEq, Eq, Structural)]
pub enum TaskStatus {
    Queued,
    Done,
    Cancelled,
}

/// One account referenced by a task's action, with its mutability flag.
#[derive(Clone, Copy, Debug)]
pub struct AccountRef {
    pub pubkey: Address,
    pub is_writable: bool,
}

/// The action a task performs: a target program, the accounts it touches and
/// opaque instruction data.
#[derive(Debug)]
pub struct Action {
    pub program_id: Address,
    pub accounts: Vec<AccountRef>,
    pub data: Vec<u8>,
}

/// Mathematical value of an [`Action`].
pub struct ActionView {
    pub program_id: Address,
    pub accounts: Seq<AccountRef>,
    pub data: Seq<u8>,
}

impl View for Action {
    type V = ActionView;

    open spec fn view(&self) -> ActionView {
        ActionView { program_id: self.program_id, accounts: self.accounts@, data: self.data@ }
    }
}

impl Clone for Action {
    fn clone(&self) -> (r: Self)
        ensures
            r@ == self@,
    {
        let accounts = self.accounts.clone();
        let data = self.data.clone();
        proof {
            assert(accounts@ =~= self.accounts@);
            assert(data@ =~= self.data@);
        }
        Action { program_id: self.program_id, accounts, data }
    }
}

/// Snapshot of a task's on-ledger state.
#[derive(Debug)]
pub struct TaskRecord {
    /// Address of the task account; unique key of the record.
    pub id: Address,
    /// The owning configuration / fee-payer context.
    pub owner_ref: Address,
    /// Ledger time (seconds) at which the task becomes eligible.
    pub scheduled_at: i64,
    pub status: TaskStatus,
    pub action: Action,
}

/// Mathematical value of a [`TaskRecord`].
pub struct TaskRecordView {
    pub id: Address,
    pub owner_ref: Address,
    pub scheduled_at: i64,
    pub status: TaskStatus,
    pub action: ActionView,
}

impl View for TaskRecord {
    type V = TaskRecordView;

    open spec fn view(&self) -> TaskRecordView {
        TaskRecordView {
            id: self.id,
            owner_ref: self.owner_ref,
            scheduled_at: self.scheduled_at,
            status: self.status,
            action: self.action@,
        }
    }
}

impl Clone for TaskRecord {
    fn clone(&self) -> (r: Self)
        ensures
            r@ == self@,
    {
        TaskRecord {
            id: self.id,
            owner_ref: self.owner_ref,
            scheduled_at: self.scheduled_at,
            status: self.status,
            action: self.action.clone(),
        }
    }
}

} // verus!
