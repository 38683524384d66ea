use ledger_client::codec::decode_accounts;
use ledger_client::codec::decode_transfers;
use ledger_client::codec::encode_accounts;
use ledger_client::codec::encode_transfers;
use ledger_client::errors::ClientError;
use ledger_client::errors::FieldName;
use ledger_client::marshal::AccountBag;
use ledger_client::marshal::NumValue;
use ledger_client::marshal::TransferBag;
use ledger_client::marshal::marshal_account;
use ledger_client::marshal::marshal_transfer;
use ledger_client::marshal::unmarshal_account;
use ledger_client::marshal::unmarshal_transfer;

fn empty_account_bag() -> AccountBag {
    AccountBag {
        id: None,
        debits_pending: None,
        debits_posted: None,
        credits_pending: None,
        credits_posted: None,
        user_data_128: None,
        user_data_64: None,
        timestamp: None,
        ledger: None,
        user_data_32: None,
        code: None,
        flags: None,
    }
}

fn empty_transfer_bag() -> TransferBag {
    TransferBag {
        id: None,
        debit_account_id: None,
        credit_account_id: None,
        amount: None,
        pending_id: None,
        user_data_128: None,
        user_data_64: None,
        timestamp: None,
        timeout: None,
        ledger: None,
        user_data_32: None,
        code: None,
        flags: None,
    }
}

#[test]
fn missing_id_is_rejected() {
    assert_eq!(
        marshal_account(&empty_account_bag()),
        Err(ClientError::MissingRequiredField(FieldName::Id))
    );
    assert_eq!(
        marshal_transfer(&empty_transfer_bag()),
        Err(ClientError::MissingRequiredField(FieldName::Id))
    );
}

#[test]
fn optional_fields_default_to_zero() {
    let mut bag = empty_account_bag();
    bag.id = Some("7".to_string());
    let a = marshal_account(&bag).expect("valid bag");
    assert_eq!(a.id, 7);
    assert_eq!(a.debits_pending, 0);
    assert_eq!(a.debits_posted, 0);
    assert_eq!(a.credits_pending, 0);
    assert_eq!(a.credits_posted, 0);
    assert_eq!(a.user_data_128, 0);
    assert_eq!(a.user_data_64, 0);
    assert_eq!(a.user_data_32, 0);
    assert_eq!(a.reserved, 0);
    assert_eq!(a.ledger, 0);
    assert_eq!(a.code, 0);
    assert_eq!(a.flags, 0);
    assert_eq!(a.timestamp, 0);
}

#[test]
fn non_digit_string_is_invalid_numeric() {
    let mut bag = empty_account_bag();
    bag.id = Some("12x4".to_string());
    assert_eq!(
        marshal_account(&bag),
        Err(ClientError::InvalidNumericField(FieldName::Id))
    );
    let mut bag = empty_account_bag();
    bag.id = Some("-5".to_string());
    assert_eq!(
        marshal_account(&bag),
        Err(ClientError::InvalidNumericField(FieldName::Id))
    );
    let mut bag = empty_account_bag();
    bag.id = Some("".to_string());
    assert_eq!(
        marshal_account(&bag),
        Err(ClientError::InvalidNumericField(FieldName::Id))
    );
}

#[test]
fn overflowing_string_is_invalid_numeric() {
    let mut bag = empty_account_bag();
    // One past the largest 128-bit value.
    bag.id = Some("340282366920938463463374607431768211456".to_string());
    assert_eq!(
        marshal_account(&bag),
        Err(ClientError::InvalidNumericField(FieldName::Id))
    );
    // The largest 128-bit value itself is accepted.
    let mut bag = empty_account_bag();
    bag.id = Some("340282366920938463463374607431768211455".to_string());
    assert_eq!(marshal_account(&bag).expect("fits").id, u128::MAX);
    // A 64-bit field rejects a value that only fits in 128 bits.
    let mut bag = empty_account_bag();
    bag.id = Some("1".to_string());
    bag.user_data_64 = Some("18446744073709551616".to_string());
    assert_eq!(
        marshal_account(&bag),
        Err(ClientError::InvalidNumericField(FieldName::UserData64))
    );
}

#[test]
fn narrow_fields_reject_out_of_range_numbers() {
    let mut bag = empty_account_bag();
    bag.id = Some("1".to_string());
    bag.ledger = Some(NumValue::Int(-1));
    assert_eq!(
        marshal_account(&bag),
        Err(ClientError::FieldOutOfRange(FieldName::Ledger))
    );
    let mut bag = empty_account_bag();
    bag.id = Some("1".to_string());
    bag.code = Some(NumValue::Int(65536));
    assert_eq!(
        marshal_account(&bag),
        Err(ClientError::FieldOutOfRange(FieldName::Code))
    );
    let mut bag = empty_account_bag();
    bag.id = Some("1".to_string());
    bag.flags = Some(NumValue::NonIntegral);
    assert_eq!(
        marshal_account(&bag),
        Err(ClientError::FieldOutOfRange(FieldName::Flags))
    );
    // The widest accepted values pass.
    let mut bag = empty_account_bag();
    bag.id = Some("1".to_string());
    bag.ledger = Some(NumValue::Int(u32::MAX as i64));
    bag.code = Some(NumValue::Int(65535));
    let a = marshal_account(&bag).expect("in range");
    assert_eq!(a.ledger, u32::MAX);
    assert_eq!(a.code, u16::MAX);
}

#[test]
fn transfer_field_errors_name_the_field() {
    let mut bag = empty_transfer_bag();
    bag.id = Some("1".to_string());
    bag.amount = Some("12.5".to_string());
    assert_eq!(
        marshal_transfer(&bag),
        Err(ClientError::InvalidNumericField(FieldName::Amount))
    );
    let mut bag = empty_transfer_bag();
    bag.id = Some("1".to_string());
    bag.timeout = Some(NumValue::NonIntegral);
    assert_eq!(
        marshal_transfer(&bag),
        Err(ClientError::FieldOutOfRange(FieldName::Timeout))
    );
}

#[test]
fn unmarshal_renders_canonical_strings() {
    let mut bag = empty_account_bag();
    // Leading zeros are accepted on the way in ...
    bag.id = Some("0042".to_string());
    bag.ledger = Some(NumValue::Int(3));
    let a = marshal_account(&bag).expect("valid bag");
    assert_eq!(a.id, 42);
    // ... and canonicalized on the way out.
    let out = unmarshal_account(&a);
    assert_eq!(out.id, Some("42".to_string()));
    assert_eq!(out.debits_pending, Some("0".to_string()));
    assert_eq!(out.ledger, Some(NumValue::Int(3)));
    assert_eq!(out.code, Some(NumValue::Int(0)));
}

#[test]
fn account_bag_round_trip_through_codec() {
    let bag = AccountBag {
        id: Some("170141183460469231731687303715884105727".to_string()),
        debits_pending: Some("0".to_string()),
        debits_posted: Some("0".to_string()),
        credits_pending: Some("0".to_string()),
        credits_posted: Some("0".to_string()),
        user_data_128: Some("123456789012345678901234567890".to_string()),
        user_data_64: Some("18446744073709551615".to_string()),
        timestamp: Some("0".to_string()),
        ledger: Some(NumValue::Int(1)),
        user_data_32: Some(NumValue::Int(9)),
        code: Some(NumValue::Int(10)),
        flags: Some(NumValue::Int(0)),
    };
    let record = marshal_account(&bag).expect("valid bag");
    let bytes = encode_accounts(&vec![record]);
    let decoded = decode_accounts(&bytes).expect("one record");
    assert_eq!(decoded.len(), 1);
    let back = unmarshal_account(&decoded[0]);
    // Every string of the input was already canonical, so the identical
    // value bag comes back.
    assert_eq!(back, bag);
}

#[test]
fn transfer_bag_round_trip_through_codec() {
    let bag = TransferBag {
        id: Some("1".to_string()),
        debit_account_id: Some("100".to_string()),
        credit_account_id: Some("200".to_string()),
        amount: Some("340282366920938463463374607431768211455".to_string()),
        pending_id: Some("0".to_string()),
        user_data_128: Some("0".to_string()),
        user_data_64: Some("0".to_string()),
        timestamp: Some("0".to_string()),
        timeout: Some(NumValue::Int(60)),
        ledger: Some(NumValue::Int(1)),
        user_data_32: Some(NumValue::Int(0)),
        code: Some(NumValue::Int(2)),
        flags: Some(NumValue::Int(0)),
    };
    let record = marshal_transfer(&bag).expect("valid bag");
    let bytes = encode_transfers(&vec![record]);
    let decoded = decode_transfers(&bytes).expect("one record");
    assert_eq!(decoded.len(), 1);
    let back = unmarshal_transfer(&decoded[0]);
    assert_eq!(back, bag);
}
