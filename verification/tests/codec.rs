use ledger_client::codec::decode_account;
use ledger_client::codec::decode_accounts;
use ledger_client::codec::decode_results;
use ledger_client::codec::decode_transfers;
use ledger_client::codec::encode_account;
use ledger_client::codec::encode_accounts;
use ledger_client::codec::encode_ids;
use ledger_client::codec::encode_results;
use ledger_client::codec::encode_transfer;
use ledger_client::errors::ClientError;
use ledger_client::records::Account;
use ledger_client::records::CreateOutcome;
use ledger_client::records::CreateResult;
use ledger_client::records::Transfer;
use ledger_client::records::outcome_code;
use ledger_client::records::outcome_from_code;

fn sample_account() -> Account {
    Account {
        id: 0x0102030405060708090a0b0c0d0e0f10,
        debits_pending: 1,
        debits_posted: 2,
        credits_pending: 3,
        credits_posted: 4,
        user_data_128: u128::MAX,
        user_data_64: 0xdead_beef_cafe_f00d,
        user_data_32: 77,
        reserved: 0,
        ledger: 700,
        code: 10,
        flags: 3,
        timestamp: 123456789,
    }
}

fn sample_transfer() -> Transfer {
    Transfer {
        id: 42,
        debit_account_id: 1000,
        credit_account_id: 2000,
        amount: 170141183460469231731687303715884105727,
        pending_id: 0,
        user_data_128: 5,
        user_data_64: 6,
        user_data_32: 7,
        timeout: 30,
        ledger: 1,
        code: 2,
        flags: 0,
        timestamp: 0,
    }
}

#[test]
fn account_record_round_trip() {
    let a = sample_account();
    let bytes = encode_account(&a);
    assert_eq!(bytes.len(), 128);
    let back = decode_account(&bytes);
    assert_eq!(back, a);
}

#[test]
fn account_layout_is_little_endian_in_field_order() {
    let mut a = Account::default();
    a.id = 0x0201;
    a.ledger = 0x0403;
    a.code = 0x0605;
    let bytes = encode_account(&a);
    // id occupies the first 16 bytes, least significant byte first.
    assert_eq!(bytes[0], 0x01);
    assert_eq!(bytes[1], 0x02);
    assert_eq!(&bytes[2..16], &[0u8; 14]);
    // ledger sits at offset 112, code at 116.
    assert_eq!(bytes[112], 0x03);
    assert_eq!(bytes[113], 0x04);
    assert_eq!(bytes[116], 0x05);
    assert_eq!(bytes[117], 0x06);
}

#[test]
fn transfer_record_round_trip() {
    let t = sample_transfer();
    let bytes = encode_transfer(&t);
    assert_eq!(bytes.len(), 128);
    let back = decode_transfers(&bytes).expect("length is one record");
    assert_eq!(back.len(), 1);
    assert_eq!(back[0], t);
}

#[test]
fn batch_round_trip_preserves_length_and_order() {
    let mut a2 = sample_account();
    a2.id = 9;
    let batch = vec![sample_account(), a2, Account::default()];
    let bytes = encode_accounts(&batch);
    assert_eq!(bytes.len(), 3 * 128);
    let back = decode_accounts(&bytes).expect("exact multiple of record width");
    assert_eq!(back.len(), batch.len());
    assert_eq!(back, batch);
}

#[test]
fn decode_empty_bytes_yields_empty_batch() {
    let empty: Vec<u8> = Vec::new();
    assert_eq!(decode_accounts(&empty).expect("empty decodes"), vec![]);
    assert_eq!(decode_transfers(&empty).expect("empty decodes"), vec![]);
    assert_eq!(decode_results(&empty).expect("empty decodes"), vec![]);
}

#[test]
fn decode_rejects_partial_record() {
    let bytes = vec![0u8; 127];
    assert_eq!(decode_accounts(&bytes), Err(ClientError::MalformedRecord));
    assert_eq!(decode_transfers(&bytes), Err(ClientError::MalformedRecord));
    let bytes = vec![0u8; 9];
    assert_eq!(decode_results(&bytes), Err(ClientError::MalformedRecord));
}

#[test]
fn results_round_trip() {
    let rs = vec![
        CreateResult { index: 1, outcome: CreateOutcome::Exists },
        CreateResult { index: 4, outcome: CreateOutcome::LedgerMustNotBeZero },
    ];
    let bytes = encode_results(&rs);
    assert_eq!(bytes.len(), 16);
    let back = decode_results(&bytes).expect("known outcomes");
    assert_eq!(back, rs);
}

#[test]
fn result_pair_layout() {
    let rs = vec![CreateResult { index: 258, outcome: CreateOutcome::Exists }];
    let bytes = encode_results(&rs);
    // (index: u32, outcome: u32), both little-endian.
    assert_eq!(&bytes[0..4], &[2, 1, 0, 0]);
    assert_eq!(&bytes[4..8], &[outcome_code(CreateOutcome::Exists) as u8, 0, 0, 0]);
}

#[test]
fn decode_rejects_unknown_outcome_code() {
    // index 0, outcome code 200: outside the enumeration.
    let bytes = vec![0, 0, 0, 0, 200, 0, 0, 0];
    assert_eq!(decode_results(&bytes), Err(ClientError::UnknownOutcome));
}

#[test]
fn outcome_codes_are_mutually_inverse() {
    let all = [
        CreateOutcome::Succeeded,
        CreateOutcome::LinkedEventFailed,
        CreateOutcome::IdMustNotBeZero,
        CreateOutcome::LedgerMustNotBeZero,
        CreateOutcome::CodeMustNotBeZero,
        CreateOutcome::AccountsMustBeDifferent,
        CreateOutcome::PendingIdMustBeZero,
        CreateOutcome::ExceedsCredits,
        CreateOutcome::ExceedsDebits,
        CreateOutcome::Exists,
    ];
    for o in all {
        assert_eq!(outcome_from_code(outcome_code(o)), Some(o));
    }
    assert_eq!(outcome_from_code(10), None);
    assert_eq!(outcome_from_code(u32::MAX), None);
}

#[test]
fn id_batch_layout() {
    let ids = vec![1u128, 0x0100];
    let bytes = encode_ids(&ids);
    assert_eq!(bytes.len(), 32);
    assert_eq!(bytes[0], 1);
    assert_eq!(&bytes[1..16], &[0u8; 15]);
    assert_eq!(bytes[16], 0);
    assert_eq!(bytes[17], 1);
}
