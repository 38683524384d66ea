//! Fixed-width binary record codec.
//!
//! Records travel on the wire in a fixed field order with fixed little-endian
//! widths, packed field by field; batches are plain concatenations of
//! same-kind records with no length prefix.  Encoding performs no
//! validation; decoding fails only on a byte length that is not an exact
//! multiple of the record width, or on an unknown result outcome code.

use vstd::prelude::*;
use vstd::bytes::*;
use vstd::slice::slice_subrange;
use crate::errors::ClientError;
use crate::records::Account;
use crate::records::CreateOutcome;
use crate::records::CreateResult;
use crate::records::Transfer;
use crate::records::outcome_code;
use crate::records::outcome_from_code;
use crate::records::spec_outcome_code;
use crate::records::spec_outcome_from_code;

verus! {

/// Wire width of one account record, in bytes.
pub const ACCOUNT_WIRE_SIZE: usize = 128;

/// Wire width of one transfer record, in bytes.
pub const TRANSFER_WIRE_SIZE: usize = 128;

/// Wire width of one per-item create result, in bytes.
pub const RESULT_WIRE_SIZE: usize = 8;

/// Wire width of one 128-bit lookup id, in bytes.
pub const ID_WIRE_SIZE: usize = 16;

// ------------------------------------------------------------------
// Single records
// ------------------------------------------------------------------

/// The wire bytes of one account record.
pub open spec fn spec_account_bytes(a: Account) -> Seq<u8> {
    spec_u128_to_le_bytes(a.id) + spec_u128_to_le_bytes(a.debits_pending)
        + spec_u128_to_le_bytes(a.debits_posted) + spec_u128_to_le_bytes(a.credits_pending)
        + spec_u128_to_le_bytes(a.credits_posted) + spec_u128_to_le_bytes(a.user_data_128)
        + spec_u64_to_le_bytes(a.user_data_64) + spec_u32_to_le_bytes(a.user_data_32)
        + spec_u32_to_le_bytes(a.reserved) + spec_u32_to_le_bytes(a.ledger)
        + spec_u16_to_le_bytes(a.code) + spec_u16_to_le_bytes(a.flags)
        + spec_u64_to_le_bytes(a.timestamp)
}

/// The account record a 128-byte chunk stands for.
pub open spec fn spec_account_of_bytes(b: Seq<u8>) -> Account
    recommends
        b.len() == ACCOUNT_WIRE_SIZE,
{
    Account {
        id: spec_u128_from_le_bytes(b.subrange(0, 16)),
        debits_pending: spec_u128_from_le_bytes(b.subrange(16, 32)),
        debits_posted: spec_u128_from_le_bytes(b.subrange(32, 48)),
        credits_pending: spec_u128_from_le_bytes(b.subrange(48, 64)),
        credits_posted: spec_u128_from_le_bytes(b.subrange(64, 80)),
        user_data_128: spec_u128_from_le_bytes(b.subrange(80, 96)),
        user_data_64: spec_u64_from_le_bytes(b.subrange(96, 104)),
        user_data_32: spec_u32_from_le_bytes(b.subrange(104, 108)),
        reserved: spec_u32_from_le_bytes(b.subrange(108, 112)),
        ledger: spec_u32_from_le_bytes(b.subrange(112, 116)),
        code: spec_u16_from_le_bytes(b.subrange(116, 118)),
        flags: spec_u16_from_le_bytes(b.subrange(118, 120)),
        timestamp: spec_u64_from_le_bytes(b.subrange(120, 128)),
    }
}

/// The wire bytes of one transfer record.
pub open spec fn spec_transfer_bytes(t: Transfer) -> Seq<u8> {
    spec_u128_to_le_bytes(t.id) + spec_u128_to_le_bytes(t.debit_account_id)
        + spec_u128_to_le_bytes(t.credit_account_id) + spec_u128_to_le_bytes(t.amount)
        + spec_u128_to_le_bytes(t.pending_id) + spec_u128_to_le_bytes(t.user_data_128)
        + spec_u64_to_le_bytes(t.user_data_64) + spec_u32_to_le_bytes(t.user_data_32)
        + spec_u32_to_le_bytes(t.timeout) + spec_u32_to_le_bytes(t.ledger)
        + spec_u16_to_le_bytes(t.code) + spec_u16_to_le_bytes(t.flags)
        + spec_u64_to_le_bytes(t.timestamp)
}

/// The transfer record a 128-byte chunk stands for.
pub open spec fn spec_transfer_of_bytes(b: Seq<u8>) -> Transfer
    recommends
        b.len() == TRANSFER_WIRE_SIZE,
{
    Transfer {
        id: spec_u128_from_le_bytes(b.subrange(0, 16)),
        debit_account_id: spec_u128_from_le_bytes(b.subrange(16, 32)),
        credit_account_id: spec_u128_from_le_bytes(b.subrange(32, 48)),
        amount: spec_u128_from_le_bytes(b.subrange(48, 64)),
        pending_id: spec_u128_from_le_bytes(b.subrange(64, 80)),
        user_data_128: spec_u128_from_le_bytes(b.subrange(80, 96)),
        user_data_64: spec_u64_from_le_bytes(b.subrange(96, 104)),
        user_data_32: spec_u32_from_le_bytes(b.subrange(104, 108)),
        timeout: spec_u32_from_le_bytes(b.subrange(108, 112)),
        ledger: spec_u32_from_le_bytes(b.subrange(112, 116)),
        code: spec_u16_from_le_bytes(b.subrange(116, 118)),
        flags: spec_u16_from_le_bytes(b.subrange(118, 120)),
        timestamp: spec_u64_from_le_bytes(b.subrange(120, 128)),
    }
}

/// The wire bytes of one per-item create result.
pub open spec fn spec_result_bytes(r: CreateResult) -> Seq<u8> {
    spec_u32_to_le_bytes(r.index) + spec_u32_to_le_bytes(spec_outcome_code(r.outcome))
}

/// An account record survives the trip through its wire bytes unchanged.
pub proof fn lemma_account_bytes_round_trip(a: Account)
    ensures
        spec_account_bytes(a).len() == ACCOUNT_WIRE_SIZE,
        spec_account_of_bytes(spec_account_bytes(a)) == a,
{
    lemma_auto_spec_u128_to_from_le_bytes();
    lemma_auto_spec_u64_to_from_le_bytes();
    lemma_auto_spec_u32_to_from_le_bytes();
    lemma_auto_spec_u16_to_from_le_bytes();
    let b = spec_account_bytes(a);
    assert(b.subrange(0, 16) =~= spec_u128_to_le_bytes(a.id));
    assert(b.subrange(16, 32) =~= spec_u128_to_le_bytes(a.debits_pending));
    assert(b.subrange(32, 48) =~= spec_u128_to_le_bytes(a.debits_posted));
    assert(b.subrange(48, 64) =~= spec_u128_to_le_bytes(a.credits_pending));
    assert(b.subrange(64, 80) =~= spec_u128_to_le_bytes(a.credits_posted));
    assert(b.subrange(80, 96) =~= spec_u128_to_le_bytes(a.user_data_128));
    assert(b.subrange(96, 104) =~= spec_u64_to_le_bytes(a.user_data_64));
    assert(b.subrange(104, 108) =~= spec_u32_to_le_bytes(a.user_data_32));
    assert(b.subrange(108, 112) =~= spec_u32_to_le_bytes(a.reserved));
    assert(b.subrange(112, 116) =~= spec_u32_to_le_bytes(a.ledger));
    assert(b.subrange(116, 118) =~= spec_u16_to_le_bytes(a.code));
    assert(b.subrange(118, 120) =~= spec_u16_to_le_bytes(a.flags));
    assert(b.subrange(120, 128) =~= spec_u64_to_le_bytes(a.timestamp));
}

/// A 128-byte chunk survives the trip through its account record unchanged.
pub proof fn lemma_account_of_bytes_round_trip(b: Seq<u8>)
    requires
        b.len() == ACCOUNT_WIRE_SIZE,
    ensures
        spec_account_bytes(spec_account_of_bytes(b)) == b,
{
    lemma_auto_spec_u128_to_from_le_bytes();
    lemma_auto_spec_u64_to_from_le_bytes();
    lemma_auto_spec_u32_to_from_le_bytes();
    lemma_auto_spec_u16_to_from_le_bytes();
    assert(spec_account_bytes(spec_account_of_bytes(b)) =~= b);
}

/// A 128-byte chunk survives the trip through its transfer record
/// unchanged.
pub proof fn lemma_transfer_of_bytes_round_trip(b: Seq<u8>)
    requires
        b.len() == TRANSFER_WIRE_SIZE,
    ensures
        spec_transfer_bytes(spec_transfer_of_bytes(b)) == b,
{
    lemma_auto_spec_u128_to_from_le_bytes();
    lemma_auto_spec_u64_to_from_le_bytes();
    lemma_auto_spec_u32_to_from_le_bytes();
    lemma_auto_spec_u16_to_from_le_bytes();
    assert(spec_transfer_bytes(spec_transfer_of_bytes(b)) =~= b);
}

/// A transfer record survives the trip through its wire bytes unchanged.
pub proof fn lemma_transfer_bytes_round_trip(t: Transfer)
    ensures
        spec_transfer_bytes(t).len() == TRANSFER_WIRE_SIZE,
        spec_transfer_of_bytes(spec_transfer_bytes(t)) == t,
{
    lemma_auto_spec_u128_to_from_le_bytes();
    lemma_auto_spec_u64_to_from_le_bytes();
    lemma_auto_spec_u32_to_from_le_bytes();
    lemma_auto_spec_u16_to_from_le_bytes();
    let b = spec_transfer_bytes(t);
    assert(b.subrange(0, 16) =~= spec_u128_to_le_bytes(t.id));
    assert(b.subrange(16, 32) =~= spec_u128_to_le_bytes(t.debit_account_id));
    assert(b.subrange(32, 48) =~= spec_u128_to_le_bytes(t.credit_account_id));
    assert(b.subrange(48, 64) =~= spec_u128_to_le_bytes(t.amount));
    assert(b.subrange(64, 80) =~= spec_u128_to_le_bytes(t.pending_id));
    assert(b.subrange(80, 96) =~= spec_u128_to_le_bytes(t.user_data_128));
    assert(b.subrange(96, 104) =~= spec_u64_to_le_bytes(t.user_data_64));
    assert(b.subrange(104, 108) =~= spec_u32_to_le_bytes(t.user_data_32));
    assert(b.subrange(108, 112) =~= spec_u32_to_le_bytes(t.timeout));
    assert(b.subrange(112, 116) =~= spec_u32_to_le_bytes(t.ledger));
    assert(b.subrange(116, 118) =~= spec_u16_to_le_bytes(t.code));
    assert(b.subrange(118, 120) =~= spec_u16_to_le_bytes(t.flags));
    assert(b.subrange(120, 128) =~= spec_u64_to_le_bytes(t.timestamp));
}

/// A per-item result survives the trip through its wire bytes unchanged.
pub proof fn lemma_result_bytes_round_trip(r: CreateResult)
    ensures
        spec_result_bytes(r).len() == RESULT_WIRE_SIZE,
        spec_u32_from_le_bytes(spec_result_bytes(r).subrange(0, 4)) == r.index,
        spec_outcome_from_code(spec_u32_from_le_bytes(spec_result_bytes(r).subrange(4, 8)))
            == Some(r.outcome),
{
    lemma_auto_spec_u32_to_from_le_bytes();
    let b = spec_result_bytes(r);
    assert(b.subrange(0, 4) =~= spec_u32_to_le_bytes(r.index));
    assert(b.subrange(4, 8) =~= spec_u32_to_le_bytes(spec_outcome_code(r.outcome)));
}

/// Packs one account record, field by field.
pub fn encode_account(a: &Account) -> (out: Vec<u8>)
    ensures
        out@ == spec_account_bytes(*a),
        out@.len() == ACCOUNT_WIRE_SIZE,
{
    proof {
        lemma_account_bytes_round_trip(*a);
    }
    let mut out: Vec<u8> = Vec::new();
    let mut part = u128_to_le_bytes(a.id);
    out.append(&mut part);
    let mut part = u128_to_le_bytes(a.debits_pending);
    out.append(&mut part);
    let mut part = u128_to_le_bytes(a.debits_posted);
    out.append(&mut part);
    let mut part = u128_to_le_bytes(a.credits_pending);
    out.append(&mut part);
    let mut part = u128_to_le_bytes(a.credits_posted);
    out.append(&mut part);
    let mut part = u128_to_le_bytes(a.user_data_128);
    out.append(&mut part);
    let mut part = u64_to_le_bytes(a.user_data_64);
    out.append(&mut part);
    let mut part = u32_to_le_bytes(a.user_data_32);
    out.append(&mut part);
    let mut part = u32_to_le_bytes(a.reserved);
    out.append(&mut part);
    let mut part = u32_to_le_bytes(a.ledger);
    out.append(&mut part);
    let mut part = u16_to_le_bytes(a.code);
    out.append(&mut part);
    let mut part = u16_to_le_bytes(a.flags);
    out.append(&mut part);
    let mut part = u64_to_le_bytes(a.timestamp);
    out.append(&mut part);
    assert(out@ =~= spec_account_bytes(*a));
    out
}

/// Unpacks one account record from a 128-byte chunk.
pub fn decode_account(b: &[u8]) -> (a: Account)
    requires
        b@.len() == ACCOUNT_WIRE_SIZE,
    ensures
        a == spec_account_of_bytes(b@),
{
    Account {
        id: u128_from_le_bytes(slice_subrange(b, 0, 16)),
        debits_pending: u128_from_le_bytes(slice_subrange(b, 16, 32)),
        debits_posted: u128_from_le_bytes(slice_subrange(b, 32, 48)),
        credits_pending: u128_from_le_bytes(slice_subrange(b, 48, 64)),
        credits_posted: u128_from_le_bytes(slice_subrange(b, 64, 80)),
        user_data_128: u128_from_le_bytes(slice_subrange(b, 80, 96)),
        user_data_64: u64_from_le_bytes(slice_subrange(b, 96, 104)),
        user_data_32: u32_from_le_bytes(slice_subrange(b, 104, 108)),
        reserved: u32_from_le_bytes(slice_subrange(b, 108, 112)),
        ledger: u32_from_le_bytes(slice_subrange(b, 112, 116)),
        code: u16_from_le_bytes(slice_subrange(b, 116, 118)),
        flags: u16_from_le_bytes(slice_subrange(b, 118, 120)),
        timestamp: u64_from_le_bytes(slice_subrange(b, 120, 128)),
    }
}

/// Packs one transfer record, field by field.
pub fn encode_transfer(t: &Transfer) -> (out: Vec<u8>)
    ensures
        out@ == spec_transfer_bytes(*t),
        out@.len() == TRANSFER_WIRE_SIZE,
{
    proof {
        lemma_transfer_bytes_round_trip(*t);
    }
    let mut out: Vec<u8> = Vec::new();
    let mut part = u128_to_le_bytes(t.id);
    out.append(&mut part);
    let mut part = u128_to_le_bytes(t.debit_account_id);
    out.append(&mut part);
    let mut part = u128_to_le_bytes(t.credit_account_id);
    out.append(&mut part);
    let mut part = u128_to_le_bytes(t.amount);
    out.append(&mut part);
    let mut part = u128_to_le_bytes(t.pending_id);
    out.append(&mut part);
    let mut part = u128_to_le_bytes(t.user_data_128);
    out.append(&mut part);
    let mut part = u64_to_le_bytes(t.user_data_64);
    out.append(&mut part);
    let mut part = u32_to_le_bytes(t.user_data_32);
    out.append(&mut part);
    let mut part = u32_to_le_bytes(t.timeout);
    out.append(&mut part);
    let mut part = u32_to_le_bytes(t.ledger);
    out.append(&mut part);
    let mut part = u16_to_le_bytes(t.code);
    out.append(&mut part);
    let mut part = u16_to_le_bytes(t.flags);
    out.append(&mut part);
    let mut part = u64_to_le_bytes(t.timestamp);
    out.append(&mut part);
    assert(out@ =~= spec_transfer_bytes(*t));
    out
}

/// Unpacks one transfer record from a 128-byte chunk.
pub fn decode_transfer(b: &[u8]) -> (t: Transfer)
    requires
        b@.len() == TRANSFER_WIRE_SIZE,
    ensures
        t == spec_transfer_of_bytes(b@),
{
    Transfer {
        id: u128_from_le_bytes(slice_subrange(b, 0, 16)),
        debit_account_id: u128_from_le_bytes(slice_subrange(b, 16, 32)),
        credit_account_id: u128_from_le_bytes(slice_subrange(b, 32, 48)),
        amount: u128_from_le_bytes(slice_subrange(b, 48, 64)),
        pending_id: u128_from_le_bytes(slice_subrange(b, 64, 80)),
        user_data_128: u128_from_le_bytes(slice_subrange(b, 80, 96)),
        user_data_64: u64_from_le_bytes(slice_subrange(b, 96, 104)),
        user_data_32: u32_from_le_bytes(slice_subrange(b, 104, 108)),
        timeout: u32_from_le_bytes(slice_subrange(b, 108, 112)),
        ledger: u32_from_le_bytes(slice_subrange(b, 112, 116)),
        code: u16_from_le_bytes(slice_subrange(b, 116, 118)),
        flags: u16_from_le_bytes(slice_subrange(b, 118, 120)),
        timestamp: u64_from_le_bytes(slice_subrange(b, 120, 128)),
    }
}

// ------------------------------------------------------------------
// Batches
// ------------------------------------------------------------------

/// The wire bytes of a batch of account records: plain concatenation.
pub open spec fn spec_encode_accounts(rs: Seq<Account>) -> Seq<u8>
    decreases rs.len(),
{
    if rs.len() == 0 {
        Seq::empty()
    } else {
        spec_account_bytes(rs.first()) + spec_encode_accounts(rs.drop_first())
    }
}

/// The account records a well-formed byte batch stands for.
pub open spec fn spec_decode_accounts(b: Seq<u8>) -> Seq<Account>
    recommends
        b.len() % 128 == 0,
    decreases b.len(),
{
    if b.len() < 128 {
        Seq::empty()
    } else {
        seq![spec_account_of_bytes(b.subrange(0, 128))] + spec_decode_accounts(
            b.subrange(128, b.len() as int),
        )
    }
}

/// Appending one record to a batch appends its bytes to the encoding.
pub proof fn lemma_encode_accounts_push(rs: Seq<Account>, a: Account)
    ensures
        spec_encode_accounts(rs.push(a)) == spec_encode_accounts(rs) + spec_account_bytes(a),
    decreases rs.len(),
{
    if rs.len() == 0 {
        assert(rs.push(a).drop_first() =~= Seq::<Account>::empty());
        assert(rs.push(a).first() == a);
        assert(spec_encode_accounts(Seq::<Account>::empty()) == Seq::<u8>::empty());
        assert(spec_encode_accounts(rs.push(a)) =~= spec_encode_accounts(rs)
            + spec_account_bytes(a));
    } else {
        lemma_encode_accounts_push(rs.drop_first(), a);
        assert(rs.push(a).drop_first() =~= rs.drop_first().push(a));
        assert(rs.push(a).first() == rs.first());
        assert(spec_account_bytes(rs.first()) + (spec_encode_accounts(rs.drop_first())
            + spec_account_bytes(a)) =~= (spec_account_bytes(rs.first()) + spec_encode_accounts(
            rs.drop_first(),
        )) + spec_account_bytes(a));
    }
}

/// The encoding of a batch is exactly one record width per record.
pub proof fn lemma_encode_accounts_len(rs: Seq<Account>)
    ensures
        spec_encode_accounts(rs).len() == 128 * rs.len(),
    decreases rs.len(),
{
    if rs.len() > 0 {
        lemma_encode_accounts_len(rs.drop_first());
        lemma_account_bytes_round_trip(rs.first());
    }
}

/// Appending one record chunk to a batch appends its record to the decoding.
pub proof fn lemma_decode_accounts_push(b: Seq<u8>, chunk: Seq<u8>)
    requires
        b.len() % 128 == 0,
        chunk.len() == 128,
    ensures
        spec_decode_accounts(b + chunk) == spec_decode_accounts(b).push(
            spec_account_of_bytes(chunk),
        ),
    decreases b.len(),
{
    if b.len() == 0 {
        assert(b + chunk =~= chunk);
        assert(chunk.subrange(0, 128) =~= chunk);
        assert(chunk.subrange(128, 128) =~= Seq::<u8>::empty());
        assert(spec_decode_accounts(Seq::<u8>::empty()) == Seq::<Account>::empty());
        assert(spec_decode_accounts(b + chunk) =~= spec_decode_accounts(b).push(
            spec_account_of_bytes(chunk),
        ));
    } else {
        let rest = b.subrange(128, b.len() as int);
        lemma_decode_accounts_push(rest, chunk);
        assert((b + chunk).subrange(0, 128) =~= b.subrange(0, 128));
        assert((b + chunk).subrange(128, (b + chunk).len() as int) =~= rest + chunk);
        assert(seq![spec_account_of_bytes(b.subrange(0, 128))] + spec_decode_accounts(rest).push(
            spec_account_of_bytes(chunk),
        ) =~= (seq![spec_account_of_bytes(b.subrange(0, 128))] + spec_decode_accounts(rest)).push(
            spec_account_of_bytes(chunk),
        ));
    }
}

/// Re-encoding a decoded well-formed byte batch gives the bytes back.
pub proof fn lemma_accounts_bytes_inverse(b: Seq<u8>)
    requires
        b.len() % 128 == 0,
    ensures
        spec_encode_accounts(spec_decode_accounts(b)) == b,
    decreases b.len(),
{
    if b.len() == 0 {
        assert(spec_encode_accounts(spec_decode_accounts(b)) =~= b);
    } else {
        let rest = b.subrange(128, b.len() as int);
        lemma_accounts_bytes_inverse(rest);
        lemma_account_of_bytes_round_trip(b.subrange(0, 128));
        let decoded = spec_decode_accounts(b);
        assert(decoded.first() == spec_account_of_bytes(b.subrange(0, 128)));
        assert(decoded.drop_first() =~= spec_decode_accounts(rest));
        assert(spec_encode_accounts(decoded) =~= b);
    }
}

/// Batch encoding and decoding of accounts are mutual inverses.
pub proof fn lemma_accounts_codec_inverse(rs: Seq<Account>)
    ensures
        spec_encode_accounts(rs).len() == 128 * rs.len(),
        spec_encode_accounts(rs).len() % 128 == 0,
        spec_decode_accounts(spec_encode_accounts(rs)) == rs,
    decreases rs.len(),
{
    lemma_encode_accounts_len(rs);
    if rs.len() == 0 {
        assert(spec_decode_accounts(spec_encode_accounts(rs)) =~= rs);
    } else {
        lemma_accounts_codec_inverse(rs.drop_first());
        lemma_account_bytes_round_trip(rs.first());
        let eb = spec_encode_accounts(rs);
        assert(eb.subrange(0, 128) =~= spec_account_bytes(rs.first()));
        assert(eb.subrange(128, eb.len() as int) =~= spec_encode_accounts(rs.drop_first()));
        assert(spec_decode_accounts(eb) =~= rs);
    }
}

/// Packs a batch of account records.
pub fn encode_accounts(rs: &Vec<Account>) -> (out: Vec<u8>)
    ensures
        out@ == spec_encode_accounts(rs@),
        out@.len() == 128 * rs@.len(),
{
    let mut out: Vec<u8> = Vec::new();
    let mut i: usize = 0;
    while i < rs.len()
        invariant
            i <= rs.len(),
            out@ == spec_encode_accounts(rs@.subrange(0, i as int)),
        decreases rs.len() - i,
    {
        let mut part = encode_account(&rs[i]);
        proof {
            assert(rs@.subrange(0, i + 1) =~= rs@.subrange(0, i as int).push(rs@[i as int]));
            lemma_encode_accounts_push(rs@.subrange(0, i as int), rs@[i as int]);
        }
        out.append(&mut part);
        i = i + 1;
    }
    proof {
        assert(rs@.subrange(0, rs@.len() as int) =~= rs@);
        lemma_encode_accounts_len(rs@);
    }
    out
}

/// Unpacks a batch of account records.
///
/// An empty payload decodes to the empty batch; a length that is not an
/// exact multiple of the record width is a malformed record.
pub fn decode_accounts(b: &[u8]) -> (r: Result<Vec<Account>, ClientError>)
    ensures
        r is Ok <==> b@.len() % 128 == 0,
        r matches Ok(v) ==> v@ == spec_decode_accounts(b@) && v@.len() * 128 == b@.len(),
        r is Err ==> r == Err::<Vec<Account>, ClientError>(ClientError::MalformedRecord),
{
    let n = b.len();
    if n % 128 != 0 {
        return Err(ClientError::MalformedRecord);
    }
    proof {
        vstd::arithmetic::div_mod::lemma_fundamental_div_mod(n as int, 128);
    }
    let mut out: Vec<Account> = Vec::new();
    let mut off: usize = 0;
    while off < n
        invariant
            off <= n,
            n == b@.len(),
            n == 128 * (n as int / 128),
            off == 128 * out@.len(),
            out@ == spec_decode_accounts(b@.subrange(0, off as int)),
        decreases n - off,
    {
        assert(off + 128 <= n);
        let chunk = slice_subrange(b, off, off + 128);
        let a = decode_account(chunk);
        proof {
            assert(b@.subrange(0, off + 128) =~= b@.subrange(0, off as int) + b@.subrange(
                off as int,
                off + 128,
            ));
            lemma_decode_accounts_push(
                b@.subrange(0, off as int),
                b@.subrange(off as int, off + 128),
            );
        }
        out.push(a);
        off = off + 128;
    }
    proof {
        assert(b@.subrange(0, n as int) =~= b@);
    }
    Ok(out)
}

/// The wire bytes of a batch of transfer records: plain concatenation.
pub open spec fn spec_encode_transfers(rs: Seq<Transfer>) -> Seq<u8>
    decreases rs.len(),
{
    if rs.len() == 0 {
        Seq::empty()
    } else {
        spec_transfer_bytes(rs.first()) + spec_encode_transfers(rs.drop_first())
    }
}

/// The transfer records a well-formed byte batch stands for.
pub open spec fn spec_decode_transfers(b: Seq<u8>) -> Seq<Transfer>
    recommends
        b.len() % 128 == 0,
    decreases b.len(),
{
    if b.len() < 128 {
        Seq::empty()
    } else {
        seq![spec_transfer_of_bytes(b.subrange(0, 128))] + spec_decode_transfers(
            b.subrange(128, b.len() as int),
        )
    }
}

/// Appending one record to a batch appends its bytes to the encoding.
pub proof fn lemma_encode_transfers_push(rs: Seq<Transfer>, t: Transfer)
    ensures
        spec_encode_transfers(rs.push(t)) == spec_encode_transfers(rs) + spec_transfer_bytes(t),
    decreases rs.len(),
{
    if rs.len() == 0 {
        assert(rs.push(t).drop_first() =~= Seq::<Transfer>::empty());
        assert(rs.push(t).first() == t);
        assert(spec_encode_transfers(Seq::<Transfer>::empty()) == Seq::<u8>::empty());
        assert(spec_encode_transfers(rs.push(t)) =~= spec_encode_transfers(rs)
            + spec_transfer_bytes(t));
    } else {
        lemma_encode_transfers_push(rs.drop_first(), t);
        assert(rs.push(t).drop_first() =~= rs.drop_first().push(t));
        assert(rs.push(t).first() == rs.first());
        assert(spec_transfer_bytes(rs.first()) + (spec_encode_transfers(rs.drop_first())
            + spec_transfer_bytes(t)) =~= (spec_transfer_bytes(rs.first())
            + spec_encode_transfers(rs.drop_first())) + spec_transfer_bytes(t));
    }
}

/// The encoding of a batch is exactly one record width per record.
pub proof fn lemma_encode_transfers_len(rs: Seq<Transfer>)
    ensures
        spec_encode_transfers(rs).len() == 128 * rs.len(),
    decreases rs.len(),
{
    if rs.len() > 0 {
        lemma_encode_transfers_len(rs.drop_first());
        lemma_transfer_bytes_round_trip(rs.first());
    }
}

/// Appending one record chunk to a batch appends its record to the decoding.
pub proof fn lemma_decode_transfers_push(b: Seq<u8>, chunk: Seq<u8>)
    requires
        b.len() % 128 == 0,
        chunk.len() == 128,
    ensures
        spec_decode_transfers(b + chunk) == spec_decode_transfers(b).push(
            spec_transfer_of_bytes(chunk),
        ),
    decreases b.len(),
{
    if b.len() == 0 {
        assert(b + chunk =~= chunk);
        assert(chunk.subrange(0, 128) =~= chunk);
        assert(chunk.subrange(128, 128) =~= Seq::<u8>::empty());
        assert(spec_decode_transfers(Seq::<u8>::empty()) == Seq::<Transfer>::empty());
        assert(spec_decode_transfers(b + chunk) =~= spec_decode_transfers(b).push(
            spec_transfer_of_bytes(chunk),
        ));
    } else {
        let rest = b.subrange(128, b.len() as int);
        lemma_decode_transfers_push(rest, chunk);
        assert((b + chunk).subrange(0, 128) =~= b.subrange(0, 128));
        assert((b + chunk).subrange(128, (b + chunk).len() as int) =~= rest + chunk);
        assert(seq![spec_transfer_of_bytes(b.subrange(0, 128))] + spec_decode_transfers(rest).push(
            spec_transfer_of_bytes(chunk),
        ) =~= (seq![spec_transfer_of_bytes(b.subrange(0, 128))] + spec_decode_transfers(
            rest,
        )).push(spec_transfer_of_bytes(chunk)));
    }
}

/// Re-encoding a decoded well-formed byte batch gives the bytes back.
pub proof fn lemma_transfers_bytes_inverse(b: Seq<u8>)
    requires
        b.len() % 128 == 0,
    ensures
        spec_encode_transfers(spec_decode_transfers(b)) == b,
    decreases b.len(),
{
    if b.len() == 0 {
        assert(spec_encode_transfers(spec_decode_transfers(b)) =~= b);
    } else {
        let rest = b.subrange(128, b.len() as int);
        lemma_transfers_bytes_inverse(rest);
        lemma_transfer_of_bytes_round_trip(b.subrange(0, 128));
        let decoded = spec_decode_transfers(b);
        assert(decoded.first() == spec_transfer_of_bytes(b.subrange(0, 128)));
        assert(decoded.drop_first() =~= spec_decode_transfers(rest));
        assert(spec_encode_transfers(decoded) =~= b);
    }
}

/// Batch encoding and decoding of transfers are mutual inverses.
pub proof fn lemma_transfers_codec_inverse(rs: Seq<Transfer>)
    ensures
        spec_encode_transfers(rs).len() == 128 * rs.len(),
        spec_encode_transfers(rs).len() % 128 == 0,
        spec_decode_transfers(spec_encode_transfers(rs)) == rs,
    decreases rs.len(),
{
    lemma_encode_transfers_len(rs);
    if rs.len() == 0 {
        assert(spec_decode_transfers(spec_encode_transfers(rs)) =~= rs);
    } else {
        lemma_transfers_codec_inverse(rs.drop_first());
        lemma_transfer_bytes_round_trip(rs.first());
        let eb = spec_encode_transfers(rs);
        assert(eb.subrange(0, 128) =~= spec_transfer_bytes(rs.first()));
        assert(eb.subrange(128, eb.len() as int) =~= spec_encode_transfers(rs.drop_first()));
        assert(spec_decode_transfers(eb) =~= rs);
    }
}

/// Packs a batch of transfer records.
pub fn encode_transfers(rs: &Vec<Transfer>) -> (out: Vec<u8>)
    ensures
        out@ == spec_encode_transfers(rs@),
        out@.len() == 128 * rs@.len(),
{
    let mut out: Vec<u8> = Vec::new();
    let mut i: usize = 0;
    while i < rs.len()
        invariant
            i <= rs.len(),
            out@ == spec_encode_transfers(rs@.subrange(0, i as int)),
        decreases rs.len() - i,
    {
        let mut part = encode_transfer(&rs[i]);
        proof {
            assert(rs@.subrange(0, i + 1) =~= rs@.subrange(0, i as int).push(rs@[i as int]));
            lemma_encode_transfers_push(rs@.subrange(0, i as int), rs@[i as int]);
        }
        out.append(&mut part);
        i = i + 1;
    }
    proof {
        assert(rs@.subrange(0, rs@.len() as int) =~= rs@);
        lemma_encode_transfers_len(rs@);
    }
    out
}

/// Unpacks a batch of transfer records.
pub fn decode_transfers(b: &[u8]) -> (r: Result<Vec<Transfer>, ClientError>)
    ensures
        r is Ok <==> b@.len() % 128 == 0,
        r matches Ok(v) ==> v@ == spec_decode_transfers(b@) && v@.len() * 128 == b@.len(),
        r is Err ==> r == Err::<Vec<Transfer>, ClientError>(ClientError::MalformedRecord),
{
    let n = b.len();
    if n % 128 != 0 {
        return Err(ClientError::MalformedRecord);
    }
    proof {
        vstd::arithmetic::div_mod::lemma_fundamental_div_mod(n as int, 128);
    }
    let mut out: Vec<Transfer> = Vec::new();
    let mut off: usize = 0;
    while off < n
        invariant
            off <= n,
            n == b@.len(),
            n == 128 * (n as int / 128),
            off == 128 * out@.len(),
            out@ == spec_decode_transfers(b@.subrange(0, off as int)),
        decreases n - off,
    {
        assert(off + 128 <= n);
        let chunk = slice_subrange(b, off, off + 128);
        let t = decode_transfer(chunk);
        proof {
            assert(b@.subrange(0, off + 128) =~= b@.subrange(0, off as int) + b@.subrange(
                off as int,
                off + 128,
            ));
            lemma_decode_transfers_push(
                b@.subrange(0, off as int),
                b@.subrange(off as int, off + 128),
            );
        }
        out.push(t);
        off = off + 128;
    }
    proof {
        assert(b@.subrange(0, n as int) =~= b@);
    }
    Ok(out)
}

// ------------------------------------------------------------------
// Per-item results and lookup ids
// ------------------------------------------------------------------

/// The wire bytes of a batch of per-item results: plain concatenation.
pub open spec fn spec_encode_results(rs: Seq<CreateResult>) -> Seq<u8>
    decreases rs.len(),
{
    if rs.len() == 0 {
        Seq::empty()
    } else {
        spec_result_bytes(rs.first()) + spec_encode_results(rs.drop_first())
    }
}

/// True when every 8-byte result chunk carries a known outcome code.
pub open spec fn spec_result_codes_known(b: Seq<u8>) -> bool
    recommends
        b.len() % 8 == 0,
    decreases b.len(),
{
    if b.len() < 8 {
        true
    } else {
        &&& spec_outcome_from_code(spec_u32_from_le_bytes(b.subrange(4, 8))) is Some
        &&& spec_result_codes_known(b.subrange(8, b.len() as int))
    }
}

/// The per-item results a well-formed byte batch stands for.
pub open spec fn spec_decode_results(b: Seq<u8>) -> Seq<CreateResult>
    recommends
        b.len() % 8 == 0,
        spec_result_codes_known(b),
    decreases b.len(),
{
    if b.len() < 8 {
        Seq::empty()
    } else {
        seq![
            CreateResult {
                index: spec_u32_from_le_bytes(b.subrange(0, 4)),
                outcome: spec_outcome_from_code(spec_u32_from_le_bytes(b.subrange(4, 8)))->Some_0,
            },
        ] + spec_decode_results(b.subrange(8, b.len() as int))
    }
}

/// Appending one result to a batch appends its bytes to the encoding.
pub proof fn lemma_encode_results_push(rs: Seq<CreateResult>, r: CreateResult)
    ensures
        spec_encode_results(rs.push(r)) == spec_encode_results(rs) + spec_result_bytes(r),
    decreases rs.len(),
{
    if rs.len() == 0 {
        assert(rs.push(r).drop_first() =~= Seq::<CreateResult>::empty());
        assert(rs.push(r).first() == r);
        assert(spec_encode_results(Seq::<CreateResult>::empty()) == Seq::<u8>::empty());
        assert(spec_encode_results(rs.push(r)) =~= spec_encode_results(rs)
            + spec_result_bytes(r));
    } else {
        lemma_encode_results_push(rs.drop_first(), r);
        assert(rs.push(r).drop_first() =~= rs.drop_first().push(r));
        assert(rs.push(r).first() == rs.first());
        assert(spec_result_bytes(rs.first()) + (spec_encode_results(rs.drop_first())
            + spec_result_bytes(r)) =~= (spec_result_bytes(rs.first()) + spec_encode_results(
            rs.drop_first(),
        )) + spec_result_bytes(r));
    }
}

/// The encoding of a batch is exactly one result width per result.
pub proof fn lemma_encode_results_len(rs: Seq<CreateResult>)
    ensures
        spec_encode_results(rs).len() == 8 * rs.len(),
    decreases rs.len(),
{
    if rs.len() > 0 {
        lemma_encode_results_len(rs.drop_first());
        lemma_result_bytes_round_trip(rs.first());
    }
}

/// Appending one result chunk to a batch appends its result to the decoding.
pub proof fn lemma_decode_results_push(b: Seq<u8>, chunk: Seq<u8>)
    requires
        b.len() % 8 == 0,
        chunk.len() == 8,
    ensures
        spec_result_codes_known(b + chunk) == (spec_result_codes_known(b)
            && spec_outcome_from_code(spec_u32_from_le_bytes(chunk.subrange(4, 8))) is Some),
        (spec_result_codes_known(b) && spec_outcome_from_code(
            spec_u32_from_le_bytes(chunk.subrange(4, 8)),
        ) is Some) ==> spec_decode_results(b + chunk) == spec_decode_results(b).push(
            CreateResult {
                index: spec_u32_from_le_bytes(chunk.subrange(0, 4)),
                outcome: spec_outcome_from_code(
                    spec_u32_from_le_bytes(chunk.subrange(4, 8)),
                )->Some_0,
            },
        ),
    decreases b.len(),
{
    if b.len() == 0 {
        assert(b + chunk =~= chunk);
        assert(chunk.subrange(0, 4) =~= (b + chunk).subrange(0, 4));
        assert(chunk.subrange(4, 8) =~= (b + chunk).subrange(4, 8));
        assert(chunk.subrange(8, 8) =~= Seq::<u8>::empty());
        assert(spec_result_codes_known(Seq::<u8>::empty()));
        assert(spec_decode_results(Seq::<u8>::empty()) == Seq::<CreateResult>::empty());
        assert((b + chunk).subrange(8, (b + chunk).len() as int) =~= Seq::<u8>::empty());
        if spec_outcome_from_code(spec_u32_from_le_bytes(chunk.subrange(4, 8))) is Some {
            assert(spec_decode_results(b + chunk) =~= spec_decode_results(b).push(
                CreateResult {
                    index: spec_u32_from_le_bytes(chunk.subrange(0, 4)),
                    outcome: spec_outcome_from_code(
                        spec_u32_from_le_bytes(chunk.subrange(4, 8)),
                    )->Some_0,
                },
            ));
        }
    } else {
        let rest = b.subrange(8, b.len() as int);
        lemma_decode_results_push(rest, chunk);
        assert((b + chunk).subrange(0, 4) =~= b.subrange(0, 4));
        assert((b + chunk).subrange(4, 8) =~= b.subrange(4, 8));
        assert((b + chunk).subrange(8, (b + chunk).len() as int) =~= rest + chunk);
        let x = CreateResult {
            index: spec_u32_from_le_bytes(b.subrange(0, 4)),
            outcome: spec_outcome_from_code(spec_u32_from_le_bytes(b.subrange(4, 8)))->Some_0,
        };
        let y = CreateResult {
            index: spec_u32_from_le_bytes(chunk.subrange(0, 4)),
            outcome: spec_outcome_from_code(spec_u32_from_le_bytes(chunk.subrange(4, 8)))->Some_0,
        };
        if spec_result_codes_known(b) && spec_outcome_from_code(
            spec_u32_from_le_bytes(chunk.subrange(4, 8)),
        ) is Some {
            assert(seq![x] + spec_decode_results(rest).push(y) =~= (seq![x]
                + spec_decode_results(rest)).push(y));
        }
    }
}

/// Batch encoding and decoding of per-item results are mutual inverses.
pub proof fn lemma_results_codec_inverse(rs: Seq<CreateResult>)
    ensures
        spec_encode_results(rs).len() == 8 * rs.len(),
        spec_encode_results(rs).len() % 8 == 0,
        spec_result_codes_known(spec_encode_results(rs)),
        spec_decode_results(spec_encode_results(rs)) == rs,
    decreases rs.len(),
{
    lemma_encode_results_len(rs);
    if rs.len() == 0 {
        assert(spec_decode_results(spec_encode_results(rs)) =~= rs);
    } else {
        lemma_results_codec_inverse(rs.drop_first());
        lemma_result_bytes_round_trip(rs.first());
        let eb = spec_encode_results(rs);
        assert(eb.subrange(0, 4) =~= spec_result_bytes(rs.first()).subrange(0, 4));
        assert(eb.subrange(4, 8) =~= spec_result_bytes(rs.first()).subrange(4, 8));
        assert(eb.subrange(8, eb.len() as int) =~= spec_encode_results(rs.drop_first()));
        assert(spec_decode_results(eb) =~= rs);
    }
}

/// Packs a batch of per-item results.
pub fn encode_results(rs: &Vec<CreateResult>) -> (out: Vec<u8>)
    ensures
        out@ == spec_encode_results(rs@),
        out@.len() == 8 * rs@.len(),
{
    let mut out: Vec<u8> = Vec::new();
    let mut i: usize = 0;
    while i < rs.len()
        invariant
            i <= rs.len(),
            out@ == spec_encode_results(rs@.subrange(0, i as int)),
        decreases rs.len() - i,
    {
        let mut part = u32_to_le_bytes(rs[i].index);
        out.append(&mut part);
        let mut part = u32_to_le_bytes(outcome_code(rs[i].outcome));
        out.append(&mut part);
        proof {
            assert(rs@.subrange(0, i + 1) =~= rs@.subrange(0, i as int).push(rs@[i as int]));
            lemma_encode_results_push(rs@.subrange(0, i as int), rs@[i as int]);
        }
        i = i + 1;
    }
    proof {
        assert(rs@.subrange(0, rs@.len() as int) =~= rs@);
        lemma_encode_results_len(rs@);
    }
    out
}

/// Unpacks a batch of per-item results.
///
/// An empty payload decodes to the empty batch, meaning every item of the
/// originating batch succeeded; a length that is not an exact multiple of
/// the result width is a malformed record, and a known-length chunk with an
/// outcome code outside the enumeration is an unknown outcome.
pub fn decode_results(b: &[u8]) -> (r: Result<Vec<CreateResult>, ClientError>)
    ensures
        r is Ok <==> b@.len() % 8 == 0 && spec_result_codes_known(b@),
        r matches Ok(v) ==> v@ == spec_decode_results(b@) && v@.len() * 8 == b@.len(),
        b@.len() % 8 != 0 ==> r == Err::<Vec<CreateResult>, ClientError>(
            ClientError::MalformedRecord,
        ),
        b@.len() % 8 == 0 && !spec_result_codes_known(b@) ==> r == Err::<
            Vec<CreateResult>,
            ClientError,
        >(ClientError::UnknownOutcome),
{
    let n = b.len();
    if n % 8 != 0 {
        return Err(ClientError::MalformedRecord);
    }
    proof {
        vstd::arithmetic::div_mod::lemma_fundamental_div_mod(n as int, 8);
        assert(b@.subrange(0, n as int) =~= b@);
    }
    let mut out: Vec<CreateResult> = Vec::new();
    let mut off: usize = 0;
    while off < n
        invariant
            off <= n,
            n == b@.len(),
            n == 8 * (n as int / 8),
            off == 8 * out@.len(),
            spec_result_codes_known(b@.subrange(0, off as int)),
            spec_result_codes_known(b@) == spec_result_codes_known(
                b@.subrange(off as int, n as int),
            ),
            out@ == spec_decode_results(b@.subrange(0, off as int)),
        decreases n - off,
    {
        assert(off + 8 <= n);
        let idx = u32_from_le_bytes(slice_subrange(b, off, off + 4));
        let code = u32_from_le_bytes(slice_subrange(b, off + 4, off + 8));
        proof {
            let suffix = b@.subrange(off as int, n as int);
            let chunk = b@.subrange(off as int, off + 8);
            let rest = b@.subrange(off + 8, n as int);
            assert(suffix.subrange(4, 8) =~= b@.subrange(off + 4, off + 8));
            assert(suffix.subrange(8, suffix.len() as int) =~= rest);
            assert(chunk.subrange(0, 4) =~= b@.subrange(off as int, off + 4));
            assert(chunk.subrange(4, 8) =~= b@.subrange(off + 4, off + 8));
            assert(b@.subrange(0, off + 8) =~= b@.subrange(0, off as int) + chunk);
            lemma_decode_results_push(b@.subrange(0, off as int), chunk);
        }
        match outcome_from_code(code) {
            Some(outcome) => {
                out.push(CreateResult { index: idx, outcome });
            },
            None => {
                return Err(ClientError::UnknownOutcome);
            },
        }
        off = off + 8;
    }
    proof {
        assert(b@.subrange(0, n as int) =~= b@);
        assert(b@.subrange(n as int, n as int) =~= Seq::<u8>::empty());
    }
    Ok(out)
}

/// The wire bytes of an ordered batch of 128-bit lookup ids.
pub open spec fn spec_encode_ids(ids: Seq<u128>) -> Seq<u8>
    decreases ids.len(),
{
    if ids.len() == 0 {
        Seq::empty()
    } else {
        spec_u128_to_le_bytes(ids.first()) + spec_encode_ids(ids.drop_first())
    }
}

/// Appending one id to a batch appends its bytes to the encoding.
pub proof fn lemma_encode_ids_push(ids: Seq<u128>, id: u128)
    ensures
        spec_encode_ids(ids.push(id)) == spec_encode_ids(ids) + spec_u128_to_le_bytes(id),
    decreases ids.len(),
{
    if ids.len() == 0 {
        assert(ids.push(id).drop_first() =~= Seq::<u128>::empty());
        assert(ids.push(id).first() == id);
        assert(spec_encode_ids(Seq::<u128>::empty()) == Seq::<u8>::empty());
        assert(spec_encode_ids(ids.push(id)) =~= spec_encode_ids(ids)
            + spec_u128_to_le_bytes(id));
    } else {
        lemma_encode_ids_push(ids.drop_first(), id);
        assert(ids.push(id).drop_first() =~= ids.drop_first().push(id));
        assert(ids.push(id).first() == ids.first());
        assert(spec_u128_to_le_bytes(ids.first()) + (spec_encode_ids(ids.drop_first())
            + spec_u128_to_le_bytes(id)) =~= (spec_u128_to_le_bytes(ids.first())
            + spec_encode_ids(ids.drop_first())) + spec_u128_to_le_bytes(id));
    }
}

/// The encoding of a batch is exactly one id width per id.
pub proof fn lemma_encode_ids_len(ids: Seq<u128>)
    ensures
        spec_encode_ids(ids).len() == ID_WIRE_SIZE * ids.len(),
    decreases ids.len(),
{
    if ids.len() > 0 {
        lemma_encode_ids_len(ids.drop_first());
        lemma_auto_spec_u128_to_from_le_bytes();
    }
}

/// Packs an ordered batch of lookup ids.
pub fn encode_ids(ids: &Vec<u128>) -> (out: Vec<u8>)
    ensures
        out@ == spec_encode_ids(ids@),
        out@.len() == ID_WIRE_SIZE * ids@.len(),
{
    let mut out: Vec<u8> = Vec::new();
    let mut i: usize = 0;
    while i < ids.len()
        invariant
            i <= ids.len(),
            out@ == spec_encode_ids(ids@.subrange(0, i as int)),
        decreases ids.len() - i,
    {
        let mut part = u128_to_le_bytes(ids[i]);
        out.append(&mut part);
        proof {
            assert(ids@.subrange(0, i + 1) =~= ids@.subrange(0, i as int).push(ids@[i as int]));
            lemma_encode_ids_push(ids@.subrange(0, i as int), ids@[i as int]);
        }
        i = i + 1;
    }
    proof {
        assert(ids@.subrange(0, ids@.len() as int) =~= ids@);
        lemma_encode_ids_len(ids@);
    }
    out
}

} // verus!
