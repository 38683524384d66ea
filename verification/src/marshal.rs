//! Marshaling between loosely typed application value bags and strict wire
//! records.
//!
//! Wide fields (128 and 64 bits) cross the boundary as base-10 strings;
//! narrow fields (32 and 16 bits) as host numbers.  Missing optional fields
//! default to zero; the record id is mandatory.  The reverse direction
//! always succeeds and re-renders every wide field as a canonical decimal
//! string, so that a round trip returns the original bag up to
//! canonicalization.

use vstd::prelude::*;
use crate::codec::spec_decode_accounts;
use crate::codec::spec_decode_transfers;
use crate::codec::spec_encode_accounts;
use crate::codec::spec_encode_transfers;
use crate::codec::lemma_accounts_codec_inverse;
use crate::codec::lemma_transfers_codec_inverse;
use crate::errors::ClientError;
use crate::errors::FieldName;
use crate::numeric::all_dec_digits;
use crate::numeric::dec_str;
use crate::numeric::dec_val;
use crate::numeric::parse_u128;
use crate::numeric::parse_u64;
use crate::numeric::render_u128;
use crate::numeric::render_u64;
use crate::records::Account;
use crate::records::Transfer;

verus! {

/// A loosely typed host number: an exactly representable integer, or a
/// number with a fractional part, which no narrow field accepts.
#[derive(Clone, Copy, Debug, PartialEq, Eq, Structural)]
pub enum NumValue {
    Int(i64),
    NonIntegral,
}

/// The application-facing value bag for an account record.
///
/// Absent fields default to zero when marshaled; `id` is mandatory.
#[derive(Clone, Debug, PartialEq, Eq)]
pub struct AccountBag {
    pub id: Option<String>,
    pub debits_pending: Option<String>,
    pub debits_posted: Option<String>,
    pub credits_pending: Option<String>,
    pub credits_posted: Option<String>,
    pub user_data_128: Option<String>,
    pub user_data_64: Option<String>,
    pub timestamp: Option<String>,
    pub ledger: Option<NumValue>,
    pub user_data_32: Option<NumValue>,
    pub code: Option<NumValue>,
    pub flags: Option<NumValue>,
}

/// The application-facing value bag for a transfer record.
#[derive(Clone, Debug, PartialEq, Eq)]
pub struct TransferBag {
    pub id: Option<String>,
    pub debit_account_id: Option<String>,
    pub credit_account_id: Option<String>,
    pub amount: Option<String>,
    pub pending_id: Option<String>,
    pub user_data_128: Option<String>,
    pub user_data_64: Option<String>,
    pub timestamp: Option<String>,
    pub timeout: Option<NumValue>,
    pub ledger: Option<NumValue>,
    pub user_data_32: Option<NumValue>,
    pub code: Option<NumValue>,
    pub flags: Option<NumValue>,
}

/// True when an optional string field is absent, or holds an all-digit
/// decimal string whose value is at most `max`.
pub open spec fn spec_str_field_ok(f: Option<String>, max: nat) -> bool {
    match f {
        Option::None => true,
        Option::Some(s) => s@.len() >= 1 && all_dec_digits(s@) && dec_val(s@) <= max,
    }
}

/// The value an optional string field marshals to; absent means zero.
pub open spec fn spec_str_field_val(f: Option<String>) -> nat {
    match f {
        Option::None => 0,
        Option::Some(s) => dec_val(s@),
    }
}

/// True when an optional numeric field is absent, or holds an integer in
/// `0 ..= max`.
pub open spec fn spec_num_field_ok(f: Option<NumValue>, max: int) -> bool {
    match f {
        Option::None => true,
        Option::Some(NumValue::Int(i)) => 0 <= i <= max,
        Option::Some(NumValue::NonIntegral) => false,
    }
}

/// The value an optional numeric field marshals to; absent means zero.
pub open spec fn spec_num_field_val(f: Option<NumValue>) -> int {
    match f {
        Option::None => 0,
        Option::Some(NumValue::Int(i)) => i as int,
        Option::Some(NumValue::NonIntegral) => 0,
    }
}

/// What marshaling an account value bag yields: the strict record, or the
/// first failing field in field order.
pub open spec fn spec_marshal_account(b: AccountBag) -> Result<Account, ClientError> {
    if b.id is None {
        Err(ClientError::MissingRequiredField(FieldName::Id))
    } else if !spec_str_field_ok(b.id, u128::MAX as nat) {
        Err(ClientError::InvalidNumericField(FieldName::Id))
    } else if !spec_str_field_ok(b.debits_pending, u128::MAX as nat) {
        Err(ClientError::InvalidNumericField(FieldName::DebitsPending))
    } else if !spec_str_field_ok(b.debits_posted, u128::MAX as nat) {
        Err(ClientError::InvalidNumericField(FieldName::DebitsPosted))
    } else if !spec_str_field_ok(b.credits_pending, u128::MAX as nat) {
        Err(ClientError::InvalidNumericField(FieldName::CreditsPending))
    } else if !spec_str_field_ok(b.credits_posted, u128::MAX as nat) {
        Err(ClientError::InvalidNumericField(FieldName::CreditsPosted))
    } else if !spec_str_field_ok(b.user_data_128, u128::MAX as nat) {
        Err(ClientError::InvalidNumericField(FieldName::UserData128))
    } else if !spec_str_field_ok(b.user_data_64, u64::MAX as nat) {
        Err(ClientError::InvalidNumericField(FieldName::UserData64))
    } else if !spec_str_field_ok(b.timestamp, u64::MAX as nat) {
        Err(ClientError::InvalidNumericField(FieldName::Timestamp))
    } else if !spec_num_field_ok(b.ledger, u32::MAX as int) {
        Err(ClientError::FieldOutOfRange(FieldName::Ledger))
    } else if !spec_num_field_ok(b.user_data_32, u32::MAX as int) {
        Err(ClientError::FieldOutOfRange(FieldName::UserData32))
    } else if !spec_num_field_ok(b.code, u16::MAX as int) {
        Err(ClientError::FieldOutOfRange(FieldName::Code))
    } else if !spec_num_field_ok(b.flags, u16::MAX as int) {
        Err(ClientError::FieldOutOfRange(FieldName::Flags))
    } else {
        Ok(
            Account {
                id: spec_str_field_val(b.id) as u128,
                debits_pending: spec_str_field_val(b.debits_pending) as u128,
                debits_posted: spec_str_field_val(b.debits_posted) as u128,
                credits_pending: spec_str_field_val(b.credits_pending) as u128,
                credits_posted: spec_str_field_val(b.credits_posted) as u128,
                user_data_128: spec_str_field_val(b.user_data_128) as u128,
                user_data_64: spec_str_field_val(b.user_data_64) as u64,
                user_data_32: spec_num_field_val(b.user_data_32) as u32,
                reserved: 0,
                ledger: spec_num_field_val(b.ledger) as u32,
                code: spec_num_field_val(b.code) as u16,
                flags: spec_num_field_val(b.flags) as u16,
                timestamp: spec_str_field_val(b.timestamp) as u64,
            },
        )
    }
}

/// What marshaling a transfer value bag yields: the strict record, or the
/// first failing field in field order.
pub open spec fn spec_marshal_transfer(b: TransferBag) -> Result<Transfer, ClientError> {
    if b.id is None {
        Err(ClientError::MissingRequiredField(FieldName::Id))
    } else if !spec_str_field_ok(b.id, u128::MAX as nat) {
        Err(ClientError::InvalidNumericField(FieldName::Id))
    } else if !spec_str_field_ok(b.debit_account_id, u128::MAX as nat) {
        Err(ClientError::InvalidNumericField(FieldName::DebitAccountId))
    } else if !spec_str_field_ok(b.credit_account_id, u128::MAX as nat) {
        Err(ClientError::InvalidNumericField(FieldName::CreditAccountId))
    } else if !spec_str_field_ok(b.amount, u128::MAX as nat) {
        Err(ClientError::InvalidNumericField(FieldName::Amount))
    } else if !spec_str_field_ok(b.pending_id, u128::MAX as nat) {
        Err(ClientError::InvalidNumericField(FieldName::PendingId))
    } else if !spec_str_field_ok(b.user_data_128, u128::MAX as nat) {
        Err(ClientError::InvalidNumericField(FieldName::UserData128))
    } else if !spec_str_field_ok(b.user_data_64, u64::MAX as nat) {
        Err(ClientError::InvalidNumericField(FieldName::UserData64))
    } else if !spec_str_field_ok(b.timestamp, u64::MAX as nat) {
        Err(ClientError::InvalidNumericField(FieldName::Timestamp))
    } else if !spec_num_field_ok(b.timeout, u32::MAX as int) {
        Err(ClientError::FieldOutOfRange(FieldName::Timeout))
    } else if !spec_num_field_ok(b.ledger, u32::MAX as int) {
        Err(ClientError::FieldOutOfRange(FieldName::Ledger))
    } else if !spec_num_field_ok(b.user_data_32, u32::MAX as int) {
        Err(ClientError::FieldOutOfRange(FieldName::UserData32))
    } else if !spec_num_field_ok(b.code, u16::MAX as int) {
        Err(ClientError::FieldOutOfRange(FieldName::Code))
    } else if !spec_num_field_ok(b.flags, u16::MAX as int) {
        Err(ClientError::FieldOutOfRange(FieldName::Flags))
    } else {
        Ok(
            Transfer {
                id: spec_str_field_val(b.id) as u128,
                debit_account_id: spec_str_field_val(b.debit_account_id) as u128,
                credit_account_id: spec_str_field_val(b.credit_account_id) as u128,
                amount: spec_str_field_val(b.amount) as u128,
                pending_id: spec_str_field_val(b.pending_id) as u128,
                user_data_128: spec_str_field_val(b.user_data_128) as u128,
                user_data_64: spec_str_field_val(b.user_data_64) as u64,
                user_data_32: spec_num_field_val(b.user_data_32) as u32,
                timeout: spec_num_field_val(b.timeout) as u32,
                ledger: spec_num_field_val(b.ledger) as u32,
                code: spec_num_field_val(b.code) as u16,
                flags: spec_num_field_val(b.flags) as u16,
                timestamp: spec_str_field_val(b.timestamp) as u64,
            },
        )
    }
}

/// Marshals one optional wide string field into a 128-bit value.
fn marshal_u128_field(f: &Option<String>, name: FieldName) -> (r: Result<u128, ClientError>)
    ensures
        r is Ok <==> spec_str_field_ok(*f, u128::MAX as nat),
        r matches Ok(v) ==> v == spec_str_field_val(*f),
        r is Err ==> r == Err::<u128, ClientError>(ClientError::InvalidNumericField(name)),
{
    match f {
        Option::None => Ok(0),
        Option::Some(s) => {
            match parse_u128(s.as_str()) {
                Option::Some(v) => Ok(v),
                Option::None => Err(ClientError::InvalidNumericField(name)),
            }
        },
    }
}

/// Marshals one optional wide string field into a 64-bit value.
fn marshal_u64_field(f: &Option<String>, name: FieldName) -> (r: Result<u64, ClientError>)
    ensures
        r is Ok <==> spec_str_field_ok(*f, u64::MAX as nat),
        r matches Ok(v) ==> v == spec_str_field_val(*f),
        r is Err ==> r == Err::<u64, ClientError>(ClientError::InvalidNumericField(name)),
{
    match f {
        Option::None => Ok(0),
        Option::Some(s) => {
            match parse_u64(s.as_str()) {
                Option::Some(v) => Ok(v),
                Option::None => Err(ClientError::InvalidNumericField(name)),
            }
        },
    }
}

/// Marshals one optional narrow numeric field into a value at most `max`.
fn marshal_num_field(f: &Option<NumValue>, max: u32, name: FieldName) -> (r: Result<
    u32,
    ClientError,
>)
    ensures
        r is Ok <==> spec_num_field_ok(*f, max as int),
        r matches Ok(v) ==> v == spec_num_field_val(*f),
        r is Err ==> r == Err::<u32, ClientError>(ClientError::FieldOutOfRange(name)),
{
    match f {
        Option::None => Ok(0),
        Option::Some(NumValue::Int(i)) => {
            if *i >= 0 && *i <= max as i64 {
                Ok(*i as u32)
            } else {
                Err(ClientError::FieldOutOfRange(name))
            }
        },
        Option::Some(NumValue::NonIntegral) => Err(ClientError::FieldOutOfRange(name)),
    }
}

/// Marshals an account value bag into a strict account record.
pub fn marshal_account(b: &AccountBag) -> (r: Result<Account, ClientError>)
    ensures
        r == spec_marshal_account(*b),
{
    if b.id.is_none() {
        return Err(ClientError::MissingRequiredField(FieldName::Id));
    }
    let id = match marshal_u128_field(&b.id, FieldName::Id) {
        Ok(v) => v,
        Err(e) => return Err(e),
    };
    let debits_pending = match marshal_u128_field(&b.debits_pending, FieldName::DebitsPending) {
        Ok(v) => v,
        Err(e) => return Err(e),
    };
    let debits_posted = match marshal_u128_field(&b.debits_posted, FieldName::DebitsPosted) {
        Ok(v) => v,
        Err(e) => return Err(e),
    };
    let credits_pending = match marshal_u128_field(&b.credits_pending, FieldName::CreditsPending) {
        Ok(v) => v,
        Err(e) => return Err(e),
    };
    let credits_posted = match marshal_u128_field(&b.credits_posted, FieldName::CreditsPosted) {
        Ok(v) => v,
        Err(e) => return Err(e),
    };
    let user_data_128 = match marshal_u128_field(&b.user_data_128, FieldName::UserData128) {
        Ok(v) => v,
        Err(e) => return Err(e),
    };
    let user_data_64 = match marshal_u64_field(&b.user_data_64, FieldName::UserData64) {
        Ok(v) => v,
        Err(e) => return Err(e),
    };
    let timestamp = match marshal_u64_field(&b.timestamp, FieldName::Timestamp) {
        Ok(v) => v,
        Err(e) => return Err(e),
    };
    let ledger = match marshal_num_field(&b.ledger, u32::MAX, FieldName::Ledger) {
        Ok(v) => v,
        Err(e) => return Err(e),
    };
    let user_data_32 = match marshal_num_field(&b.user_data_32, u32::MAX, FieldName::UserData32) {
        Ok(v) => v,
        Err(e) => return Err(e),
    };
    let code = match marshal_num_field(&b.code, 65535, FieldName::Code) {
        Ok(v) => v,
        Err(e) => return Err(e),
    };
    let flags = match marshal_num_field(&b.flags, 65535, FieldName::Flags) {
        Ok(v) => v,
        Err(e) => return Err(e),
    };
    Ok(
        Account {
            id,
            debits_pending,
            debits_posted,
            credits_pending,
            credits_posted,
            user_data_128,
            user_data_64,
            user_data_32,
            reserved: 0,
            ledger,
            code: code as u16,
            flags: flags as u16,
            timestamp,
        },
    )
}

/// Marshals a transfer value bag into a strict transfer record.
pub fn marshal_transfer(b: &TransferBag) -> (r: Result<Transfer, ClientError>)
    ensures
        r == spec_marshal_transfer(*b),
{
    if b.id.is_none() {
        return Err(ClientError::MissingRequiredField(FieldName::Id));
    }
    let id = match marshal_u128_field(&b.id, FieldName::Id) {
        Ok(v) => v,
        Err(e) => return Err(e),
    };
    let debit_account_id = match marshal_u128_field(
        &b.debit_account_id,
        FieldName::DebitAccountId,
    ) {
        Ok(v) => v,
        Err(e) => return Err(e),
    };
    let credit_account_id = match marshal_u128_field(
        &b.credit_account_id,
        FieldName::CreditAccountId,
    ) {
        Ok(v) => v,
        Err(e) => return Err(e),
    };
    let amount = match marshal_u128_field(&b.amount, FieldName::Amount) {
        Ok(v) => v,
        Err(e) => return Err(e),
    };
    let pending_id = match marshal_u128_field(&b.pending_id, FieldName::PendingId) {
        Ok(v) => v,
        Err(e) => return Err(e),
    };
    let user_data_128 = match marshal_u128_field(&b.user_data_128, FieldName::UserData128) {
        Ok(v) => v,
        Err(e) => return Err(e),
    };
    let user_data_64 = match marshal_u64_field(&b.user_data_64, FieldName::UserData64) {
        Ok(v) => v,
        Err(e) => return Err(e),
    };
    let timestamp = match marshal_u64_field(&b.timestamp, FieldName::Timestamp) {
        Ok(v) => v,
        Err(e) => return Err(e),
    };
    let timeout = match marshal_num_field(&b.timeout, u32::MAX, FieldName::Timeout) {
        Ok(v) => v,
        Err(e) => return Err(e),
    };
    let ledger = match marshal_num_field(&b.ledger, u32::MAX, FieldName::Ledger) {
        Ok(v) => v,
        Err(e) => return Err(e),
    };
    let user_data_32 = match marshal_num_field(&b.user_data_32, u32::MAX, FieldName::UserData32) {
        Ok(v) => v,
        Err(e) => return Err(e),
    };
    let code = match marshal_num_field(&b.code, 65535, FieldName::Code) {
        Ok(v) => v,
        Err(e) => return Err(e),
    };
    let flags = match marshal_num_field(&b.flags, 65535, FieldName::Flags) {
        Ok(v) => v,
        Err(e) => return Err(e),
    };
    Ok(
        Transfer {
            id,
            debit_account_id,
            credit_account_id,
            amount,
            pending_id,
            user_data_128,
            user_data_64,
            user_data_32,
            timeout,
            ledger,
            code: code as u16,
            flags: flags as u16,
            timestamp,
        },
    )
}

/// True when `b` is the value bag an account record unmarshals to: every
/// field explicit, every wide field a canonical decimal string.
pub open spec fn spec_account_bag_matches(b: AccountBag, a: Account) -> bool {
    &&& b.id matches Some(s) && s@ == dec_str(a.id as nat)
    &&& b.debits_pending matches Some(s) && s@ == dec_str(a.debits_pending as nat)
    &&& b.debits_posted matches Some(s) && s@ == dec_str(a.debits_posted as nat)
    &&& b.credits_pending matches Some(s) && s@ == dec_str(a.credits_pending as nat)
    &&& b.credits_posted matches Some(s) && s@ == dec_str(a.credits_posted as nat)
    &&& b.user_data_128 matches Some(s) && s@ == dec_str(a.user_data_128 as nat)
    &&& b.user_data_64 matches Some(s) && s@ == dec_str(a.user_data_64 as nat)
    &&& b.timestamp matches Some(s) && s@ == dec_str(a.timestamp as nat)
    &&& b.ledger == Some(NumValue::Int(a.ledger as i64))
    &&& b.user_data_32 == Some(NumValue::Int(a.user_data_32 as i64))
    &&& b.code == Some(NumValue::Int(a.code as i64))
    &&& b.flags == Some(NumValue::Int(a.flags as i64))
}

/// True when `b` is the value bag a transfer record unmarshals to.
pub open spec fn spec_transfer_bag_matches(b: TransferBag, t: Transfer) -> bool {
    &&& b.id matches Some(s) && s@ == dec_str(t.id as nat)
    &&& b.debit_account_id matches Some(s) && s@ == dec_str(t.debit_account_id as nat)
    &&& b.credit_account_id matches Some(s) && s@ == dec_str(t.credit_account_id as nat)
    &&& b.amount matches Some(s) && s@ == dec_str(t.amount as nat)
    &&& b.pending_id matches Some(s) && s@ == dec_str(t.pending_id as nat)
    &&& b.user_data_128 matches Some(s) && s@ == dec_str(t.user_data_128 as nat)
    &&& b.user_data_64 matches Some(s) && s@ == dec_str(t.user_data_64 as nat)
    &&& b.timestamp matches Some(s) && s@ == dec_str(t.timestamp as nat)
    &&& b.timeout == Some(NumValue::Int(t.timeout as i64))
    &&& b.ledger == Some(NumValue::Int(t.ledger as i64))
    &&& b.user_data_32 == Some(NumValue::Int(t.user_data_32 as i64))
    &&& b.code == Some(NumValue::Int(t.code as i64))
    &&& b.flags == Some(NumValue::Int(t.flags as i64))
}

/// Unmarshals an account record into its value bag; always succeeds.
pub fn unmarshal_account(a: &Account) -> (b: AccountBag)
    ensures
        spec_account_bag_matches(b, *a),
{
    AccountBag {
        id: Some(render_u128(a.id)),
        debits_pending: Some(render_u128(a.debits_pending)),
        debits_posted: Some(render_u128(a.debits_posted)),
        credits_pending: Some(render_u128(a.credits_pending)),
        credits_posted: Some(render_u128(a.credits_posted)),
        user_data_128: Some(render_u128(a.user_data_128)),
        user_data_64: Some(render_u64(a.user_data_64)),
        timestamp: Some(render_u64(a.timestamp)),
        ledger: Some(NumValue::Int(a.ledger as i64)),
        user_data_32: Some(NumValue::Int(a.user_data_32 as i64)),
        code: Some(NumValue::Int(a.code as i64)),
        flags: Some(NumValue::Int(a.flags as i64)),
    }
}

/// Unmarshals a transfer record into its value bag; always succeeds.
pub fn unmarshal_transfer(t: &Transfer) -> (b: TransferBag)
    ensures
        spec_transfer_bag_matches(b, *t),
{
    TransferBag {
        id: Some(render_u128(t.id)),
        debit_account_id: Some(render_u128(t.debit_account_id)),
        credit_account_id: Some(render_u128(t.credit_account_id)),
        amount: Some(render_u128(t.amount)),
        pending_id: Some(render_u128(t.pending_id)),
        user_data_128: Some(render_u128(t.user_data_128)),
        user_data_64: Some(render_u64(t.user_data_64)),
        timestamp: Some(render_u64(t.timestamp)),
        timeout: Some(NumValue::Int(t.timeout as i64)),
        ledger: Some(NumValue::Int(t.ledger as i64)),
        user_data_32: Some(NumValue::Int(t.user_data_32 as i64)),
        code: Some(NumValue::Int(t.code as i64)),
        flags: Some(NumValue::Int(t.flags as i64)),
    }
}

/// True when `c` is the canonical form of the account value bag `b`: every
/// field made explicit and every wide numeric string canonicalized.
pub open spec fn spec_account_bag_canonical_of(c: AccountBag, b: AccountBag) -> bool {
    &&& c.id matches Some(s) && s@ == dec_str(spec_str_field_val(b.id))
    &&& c.debits_pending matches Some(s) && s@ == dec_str(spec_str_field_val(b.debits_pending))
    &&& c.debits_posted matches Some(s) && s@ == dec_str(spec_str_field_val(b.debits_posted))
    &&& c.credits_pending matches Some(s) && s@ == dec_str(spec_str_field_val(b.credits_pending))
    &&& c.credits_posted matches Some(s) && s@ == dec_str(spec_str_field_val(b.credits_posted))
    &&& c.user_data_128 matches Some(s) && s@ == dec_str(spec_str_field_val(b.user_data_128))
    &&& c.user_data_64 matches Some(s) && s@ == dec_str(spec_str_field_val(b.user_data_64))
    &&& c.timestamp matches Some(s) && s@ == dec_str(spec_str_field_val(b.timestamp))
    &&& c.ledger == Some(NumValue::Int(spec_num_field_val(b.ledger) as i64))
    &&& c.user_data_32 == Some(NumValue::Int(spec_num_field_val(b.user_data_32) as i64))
    &&& c.code == Some(NumValue::Int(spec_num_field_val(b.code) as i64))
    &&& c.flags == Some(NumValue::Int(spec_num_field_val(b.flags) as i64))
}

/// True when `c` is the canonical form of the transfer value bag `b`.
pub open spec fn spec_transfer_bag_canonical_of(c: TransferBag, b: TransferBag) -> bool {
    &&& c.id matches Some(s) && s@ == dec_str(spec_str_field_val(b.id))
    &&& c.debit_account_id matches Some(s) && s@ == dec_str(spec_str_field_val(b.debit_account_id))
    &&& c.credit_account_id matches Some(s) && s@ == dec_str(
        spec_str_field_val(b.credit_account_id),
    )
    &&& c.amount matches Some(s) && s@ == dec_str(spec_str_field_val(b.amount))
    &&& c.pending_id matches Some(s) && s@ == dec_str(spec_str_field_val(b.pending_id))
    &&& c.user_data_128 matches Some(s) && s@ == dec_str(spec_str_field_val(b.user_data_128))
    &&& c.user_data_64 matches Some(s) && s@ == dec_str(spec_str_field_val(b.user_data_64))
    &&& c.timestamp matches Some(s) && s@ == dec_str(spec_str_field_val(b.timestamp))
    &&& c.timeout == Some(NumValue::Int(spec_num_field_val(b.timeout) as i64))
    &&& c.ledger == Some(NumValue::Int(spec_num_field_val(b.ledger) as i64))
    &&& c.user_data_32 == Some(NumValue::Int(spec_num_field_val(b.user_data_32) as i64))
    &&& c.code == Some(NumValue::Int(spec_num_field_val(b.code) as i64))
    &&& c.flags == Some(NumValue::Int(spec_num_field_val(b.flags) as i64))
}

/// Round-trip law for accounts: marshaling a valid value bag, sending the
/// record through the byte codec, and unmarshaling the decoded record
/// yields the original bag with its numeric strings canonicalized.
pub proof fn lemma_account_bag_round_trip(b: AccountBag, c: AccountBag)
    requires
        spec_marshal_account(b) is Ok,
        spec_account_bag_matches(
            c,
            spec_decode_accounts(spec_encode_accounts(seq![spec_marshal_account(b)->Ok_0]))[0],
        ),
    ensures
        spec_account_bag_canonical_of(c, b),
{
    let a = spec_marshal_account(b)->Ok_0;
    lemma_accounts_codec_inverse(seq![a]);
    assert(spec_decode_accounts(spec_encode_accounts(seq![a]))[0] == a);
}

/// Round-trip law for transfers: marshaling a valid value bag, sending the
/// record through the byte codec, and unmarshaling the decoded record
/// yields the original bag with its numeric strings canonicalized.
pub proof fn lemma_transfer_bag_round_trip(b: TransferBag, c: TransferBag)
    requires
        spec_marshal_transfer(b) is Ok,
        spec_transfer_bag_matches(
            c,
            spec_decode_transfers(spec_encode_transfers(seq![spec_marshal_transfer(b)->Ok_0]))[0],
        ),
    ensures
        spec_transfer_bag_canonical_of(c, b),
{
    let t = spec_marshal_transfer(b)->Ok_0;
    lemma_transfers_codec_inverse(seq![t]);
    assert(spec_decode_transfers(spec_encode_transfers(seq![t]))[0] == t);
}

} // verus!
