//! Error taxonomy of the client core.
//!
//! Validation errors are local and synchronous and never mutate session or
//! multiplexer state; connection errors are terminal for the affected
//! operation; protocol errors originate in the request multiplexer.

use vstd::prelude::*;

verus! {

/// Names the record field (or client parameter) that a validation error is
/// about.
#[derive(Clone, Copy, Debug, PartialEq, Eq, Structural)]
pub enum FieldName {
    ClusterId,
    Id,
    DebitAccountId,
    CreditAccountId,
    Amount,
    PendingId,
    DebitsPending,
    DebitsPosted,
    CreditsPending,
    CreditsPosted,
    UserData128,
    UserData64,
    UserData32,
    Timeout,
    Ledger,
    Code,
    Flags,
    Timestamp,
}

/// Every failure the client core can report.
#[derive(Clone, Copy, Debug, PartialEq, Eq, Structural)]
pub enum ClientError {
    /// A 128/64-bit field was not a base-10 string of the field's width.
    InvalidNumericField(FieldName),
    /// A narrow numeric field held a fractional or out-of-range number.
    FieldOutOfRange(FieldName),
    /// A mandatory field was absent from the value bag.
    MissingRequiredField(FieldName),
    /// A byte payload is not an exact multiple of the record width.
    MalformedRecord,
    /// A per-item result code lies outside the known outcome enumeration.
    UnknownOutcome,
    /// The address list is empty or an entry is not a host:port pair.
    InvalidAddress,
    /// An operation was attempted outside the `Connected` state.
    NotConnected,
    /// A completion arrived for a correlation id with no pending request.
    UnexpectedCompletion,
    /// The session left `Connected` while the request was pending.
    ConnectionLost,
    /// The in-flight bound was reached under the non-blocking policy.
    TooManyInFlight,
    /// A transport path that is not wired up yet was exercised.
    NotImplemented,
}

} // verus!
