//! Strict-typed wire records: accounts, transfers, and per-item results.
//!
//! Client-constructed records keep their server-owned fields (balance
//! counters and timestamps) at zero; only the server populates those.

use vstd::prelude::*;

verus! {

/// A ledger account record, laid out on the wire as 128 bytes.
#[derive(Clone, Copy, Debug, PartialEq, Eq, Structural)]
pub struct Account {
    pub id: u128,
    pub debits_pending: u128,
    pub debits_posted: u128,
    pub credits_pending: u128,
    pub credits_posted: u128,
    pub user_data_128: u128,
    pub user_data_64: u64,
    pub user_data_32: u32,
    pub reserved: u32,
    pub ledger: u32,
    pub code: u16,
    pub flags: u16,
    pub timestamp: u64,
}

/// A transfer record, laid out on the wire as 128 bytes.
#[derive(Clone, Copy, Debug, PartialEq, Eq, Structural)]
pub struct Transfer {
    pub id: u128,
    pub debit_account_id: u128,
    pub credit_account_id: u128,
    pub amount: u128,
    pub pending_id: u128,
    pub user_data_128: u128,
    pub user_data_64: u64,
    pub user_data_32: u32,
    pub timeout: u32,
    pub ledger: u32,
    pub code: u16,
    pub flags: u16,
    pub timestamp: u64,
}

/// The closed per-item outcome enumeration for batched create operations.
#[derive(Clone, Copy, Debug, PartialEq, Eq, Structural)]
pub enum CreateOutcome {
    Succeeded,
    LinkedEventFailed,
    IdMustNotBeZero,
    LedgerMustNotBeZero,
    CodeMustNotBeZero,
    AccountsMustBeDifferent,
    PendingIdMustBeZero,
    ExceedsCredits,
    ExceedsDebits,
    Exists,
}

/// One per-item result of a batched create operation: the 0-based position
/// of the item in the originating batch, and its outcome.
#[derive(Clone, Copy, Debug, PartialEq, Eq, Structural)]
pub struct CreateResult {
    pub index: u32,
    pub outcome: CreateOutcome,
}

/// The operation kinds a request batch can carry.
#[derive(Clone, Copy, Debug, PartialEq, Eq, Structural)]
pub enum OperationKind {
    CreateAccounts,
    CreateTransfers,
    LookupAccounts,
}

/// The wire code of an outcome.
pub open spec fn spec_outcome_code(o: CreateOutcome) -> u32 {
    match o {
        CreateOutcome::Succeeded => 0,
        CreateOutcome::LinkedEventFailed => 1,
        CreateOutcome::IdMustNotBeZero => 2,
        CreateOutcome::LedgerMustNotBeZero => 3,
        CreateOutcome::CodeMustNotBeZero => 4,
        CreateOutcome::AccountsMustBeDifferent => 5,
        CreateOutcome::PendingIdMustBeZero => 6,
        CreateOutcome::ExceedsCredits => 7,
        CreateOutcome::ExceedsDebits => 8,
        CreateOutcome::Exists => 9,
    }
}

/// The outcome a wire code stands for, if the code is known.
pub open spec fn spec_outcome_from_code(c: u32) -> Option<CreateOutcome> {
    if c == 0 {
        Some(CreateOutcome::Succeeded)
    } else if c == 1 {
        Some(CreateOutcome::LinkedEventFailed)
    } else if c == 2 {
        Some(CreateOutcome::IdMustNotBeZero)
    } else if c == 3 {
        Some(CreateOutcome::LedgerMustNotBeZero)
    } else if c == 4 {
        Some(CreateOutcome::CodeMustNotBeZero)
    } else if c == 5 {
        Some(CreateOutcome::AccountsMustBeDifferent)
    } else if c == 6 {
        Some(CreateOutcome::PendingIdMustBeZero)
    } else if c == 7 {
        Some(CreateOutcome::ExceedsCredits)
    } else if c == 8 {
        Some(CreateOutcome::ExceedsDebits)
    } else if c == 9 {
        Some(CreateOutcome::Exists)
    } else {
        None
    }
}

/// Codes and outcomes are in exact mutual correspondence.
pub proof fn lemma_outcome_code_bijective()
    ensures
        forall|o: CreateOutcome| spec_outcome_from_code(#[trigger] spec_outcome_code(o)) == Some(o),
        forall|c: u32|
            (#[trigger] spec_outcome_from_code(c)) matches Some(o) ==> spec_outcome_code(o) == c,
{
}

/// Returns the wire code of `o`.
pub fn outcome_code(o: CreateOutcome) -> (c: u32)
    ensures
        c == spec_outcome_code(o),
{
    match o {
        CreateOutcome::Succeeded => 0,
        CreateOutcome::LinkedEventFailed => 1,
        CreateOutcome::IdMustNotBeZero => 2,
        CreateOutcome::LedgerMustNotBeZero => 3,
        CreateOutcome::CodeMustNotBeZero => 4,
        CreateOutcome::AccountsMustBeDifferent => 5,
        CreateOutcome::PendingIdMustBeZero => 6,
        CreateOutcome::ExceedsCredits => 7,
        CreateOutcome::ExceedsDebits => 8,
        CreateOutcome::Exists => 9,
    }
}

/// Maps a wire code back to its outcome; `None` on a code outside the
/// known enumeration.
pub fn outcome_from_code(c: u32) -> (o: Option<CreateOutcome>)
    ensures
        o == spec_outcome_from_code(c),
{
    if c == 0 {
        Some(CreateOutcome::Succeeded)
    } else if c == 1 {
        Some(CreateOutcome::LinkedEventFailed)
    } else if c == 2 {
        Some(CreateOutcome::IdMustNotBeZero)
    } else if c == 3 {
        Some(CreateOutcome::LedgerMustNotBeZero)
    } else if c == 4 {
        Some(CreateOutcome::CodeMustNotBeZero)
    } else if c == 5 {
        Some(CreateOutcome::AccountsMustBeDifferent)
    } else if c == 6 {
        Some(CreateOutcome::PendingIdMustBeZero)
    } else if c == 7 {
        Some(CreateOutcome::ExceedsCredits)
    } else if c == 8 {
        Some(CreateOutcome::ExceedsDebits)
    } else if c == 9 {
        Some(CreateOutcome::Exists)
    } else {
        None
    }
}

/// The account with every field zero.
pub open spec fn spec_zero_account() -> Account {
    Account {
        id: 0,
        debits_pending: 0,
        debits_posted: 0,
        credits_pending: 0,
        credits_posted: 0,
        user_data_128: 0,
        user_data_64: 0,
        user_data_32: 0,
        reserved: 0,
        ledger: 0,
        code: 0,
        flags: 0,
        timestamp: 0,
    }
}

/// The transfer with every field zero.
pub open spec fn spec_zero_transfer() -> Transfer {
    Transfer {
        id: 0,
        debit_account_id: 0,
        credit_account_id: 0,
        amount: 0,
        pending_id: 0,
        user_data_128: 0,
        user_data_64: 0,
        user_data_32: 0,
        timeout: 0,
        ledger: 0,
        code: 0,
        flags: 0,
        timestamp: 0,
    }
}

impl Default for Account {
    /// The all-zero account, the starting point for client construction.
    fn default() -> (a: Account)
        ensures
            a == spec_zero_account(),
    {
        Account {
            id: 0,
            debits_pending: 0,
            debits_posted: 0,
            credits_pending: 0,
            credits_posted: 0,
            user_data_128: 0,
            user_data_64: 0,
            user_data_32: 0,
            reserved: 0,
            ledger: 0,
            code: 0,
            flags: 0,
            timestamp: 0,
        }
    }
}

impl Default for Transfer {
    /// The all-zero transfer, the starting point for client construction.
    fn default() -> (t: Transfer)
        ensures
            t == spec_zero_transfer(),
    {
        Transfer {
            id: 0,
            debit_account_id: 0,
            credit_account_id: 0,
            amount: 0,
            pending_id: 0,
            user_data_128: 0,
            user_data_64: 0,
            user_data_32: 0,
            timeout: 0,
            ledger: 0,
            code: 0,
            flags: 0,
            timestamp: 0,
        }
    }
}

} // verus!
