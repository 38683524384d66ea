use ledger_client::client::Client;
use ledger_client::client::create_outcomes_from_response;
use ledger_client::client::generate_id;
use ledger_client::client::lookup_bags_from_response;
use ledger_client::codec::encode_accounts;
use ledger_client::codec::encode_results;
use ledger_client::errors::ClientError;
use ledger_client::errors::FieldName;
use ledger_client::marshal::AccountBag;
use ledger_client::marshal::NumValue;
use ledger_client::marshal::marshal_account;
use ledger_client::mux::AwaitStatus;
use ledger_client::records::CreateOutcome;
use ledger_client::records::CreateResult;

fn bag_with_id(id: &str) -> AccountBag {
    AccountBag {
        id: Some(id.to_string()),
        debits_pending: None,
        debits_posted: None,
        credits_pending: None,
        credits_posted: None,
        user_data_128: None,
        user_data_64: None,
        timestamp: None,
        ledger: Some(NumValue::Int(1)),
        user_data_32: None,
        code: Some(NumValue::Int(10)),
        flags: None,
    }
}

fn connected_client(max_in_flight: usize) -> Client {
    let mut c = Client::new("0", "localhost:3000", max_in_flight).expect("valid cluster id");
    c.connect().expect("valid address list");
    c.transport_established();
    c
}

#[test]
fn operations_require_a_connected_session() {
    let mut c = Client::new("0", "localhost:3000", 4).expect("valid cluster id");
    assert_eq!(
        c.create_accounts(&vec![bag_with_id("1")]),
        Err(ClientError::NotConnected)
    );
    assert_eq!(
        c.lookup_accounts(&vec!["1".to_string()]),
        Err(ClientError::NotConnected)
    );
    // Nothing was registered or queued.
    assert_eq!(c.take_outbound(), None);
}

#[test]
fn validation_errors_touch_nothing() {
    let mut c = connected_client(4);
    let mut bad = bag_with_id("1");
    bad.ledger = Some(NumValue::NonIntegral);
    assert_eq!(
        c.create_accounts(&vec![bag_with_id("1"), bad]),
        Err(ClientError::FieldOutOfRange(FieldName::Ledger))
    );
    assert_eq!(c.take_outbound(), None);
    assert_eq!(
        c.lookup_accounts(&vec!["1".to_string(), "x".to_string()]),
        Err(ClientError::InvalidNumericField(FieldName::Id))
    );
    assert_eq!(c.take_outbound(), None);
}

#[test]
fn create_accounts_queues_the_encoded_batch() {
    let mut c = connected_client(4);
    let bags = vec![bag_with_id("1"), bag_with_id("2"), bag_with_id("3")];
    let id = c.create_accounts(&bags).expect("valid batch");
    let (frame_id, bytes) = c.take_outbound().expect("one frame queued");
    assert_eq!(frame_id, id);
    assert_eq!(bytes.len(), 3 * 128);
    let records: Vec<_> = bags.iter().map(|b| marshal_account(b).unwrap()).collect();
    assert_eq!(bytes, encode_accounts(&records));
}

#[test]
fn empty_response_means_every_item_succeeded() {
    let mut c = connected_client(4);
    let bags = vec![bag_with_id("1"), bag_with_id("2"), bag_with_id("3")];
    let id = c.create_accounts(&bags).expect("valid batch");
    c.take_outbound().expect("frame for the transport");
    // The server answers the batch with an empty payload.
    c.on_completion(id, Vec::new()).expect("pending id");
    let response = match c.await_result(id) {
        AwaitStatus::Ready(bytes) => bytes,
        other => panic!("expected a response, got {:?}", other),
    };
    let outcomes = create_outcomes_from_response(&response, bags.len()).expect("well-formed");
    assert_eq!(outcomes, vec![CreateOutcome::Succeeded; 3]);
}

#[test]
fn result_payload_lists_only_the_failing_indices() {
    let payload = encode_results(&vec![CreateResult {
        index: 1,
        outcome: CreateOutcome::Exists,
    }]);
    let outcomes = create_outcomes_from_response(&payload, 3).expect("well-formed");
    assert_eq!(
        outcomes,
        vec![
            CreateOutcome::Succeeded,
            CreateOutcome::Exists,
            CreateOutcome::Succeeded,
        ]
    );
}

#[test]
fn lookup_returns_only_the_records_that_exist() {
    let mut c = connected_client(4);
    let ids = vec!["17".to_string(), "18".to_string()];
    let id = c.lookup_accounts(&ids).expect("valid ids");
    let (_, bytes) = c.take_outbound().expect("one frame queued");
    assert_eq!(bytes.len(), 2 * 16);
    // Only the first account exists; the server returns just its record.
    let existing = marshal_account(&bag_with_id("17")).expect("valid bag");
    let response = encode_accounts(&vec![existing]);
    c.on_completion(id, response).expect("pending id");
    let response = match c.await_result(id) {
        AwaitStatus::Ready(bytes) => bytes,
        other => panic!("expected a response, got {:?}", other),
    };
    let bags = lookup_bags_from_response(&response).expect("well-formed");
    assert_eq!(bags.len(), 1);
    assert_eq!(bags[0].id, Some("17".to_string()));
    assert_eq!(bags[0].ledger, Some(NumValue::Int(1)));
    assert_eq!(bags[0].code, Some(NumValue::Int(10)));
}

#[test]
fn disconnect_resolves_every_pending_caller_with_the_loss() {
    let mut c = connected_client(4);
    let a = c.create_accounts(&vec![bag_with_id("1")]).expect("valid batch");
    let b = c.lookup_accounts(&vec!["2".to_string()]).expect("valid ids");
    c.disconnect();
    assert_eq!(c.await_result(a), AwaitStatus::Lost);
    assert_eq!(c.await_result(b), AwaitStatus::Lost);
    // Operations are refused again until a reconnect.
    assert_eq!(
        c.create_accounts(&vec![bag_with_id("3")]),
        Err(ClientError::NotConnected)
    );
}

#[test]
fn in_flight_bound_holds_across_operations() {
    let mut c = connected_client(2);
    c.create_accounts(&vec![bag_with_id("1")]).expect("below bound");
    c.lookup_accounts(&vec!["2".to_string()]).expect("below bound");
    assert_eq!(
        c.create_accounts(&vec![bag_with_id("3")]),
        Err(ClientError::TooManyInFlight)
    );
}

#[test]
fn malformed_and_unknown_responses_are_told_apart() {
    assert_eq!(
        create_outcomes_from_response(&[0u8; 7], 1),
        Err(ClientError::MalformedRecord)
    );
    assert_eq!(
        create_outcomes_from_response(&[0, 0, 0, 0, 99, 0, 0, 0], 1),
        Err(ClientError::UnknownOutcome)
    );
    assert_eq!(
        lookup_bags_from_response(&[0u8; 100]),
        Err(ClientError::MalformedRecord)
    );
}

#[test]
fn cluster_id_round_trips_through_the_client() {
    let c = Client::new("00340282366920938463463374607431768211455", "h:1", 1)
        .expect("valid cluster id");
    assert_eq!(
        c.get_cluster_id(),
        "340282366920938463463374607431768211455".to_string()
    );
    assert_eq!(c.get_addresses(), "h:1".to_string());
}

#[test]
fn generated_ids_fold_the_clock_into_both_halves() {
    let now: u64 = 1_700_000_123_456;
    let id = generate_id(now);
    assert_eq!(id, (now << 32) | (now % 1_000_000));
    assert_eq!(id >> 32, now & 0xffff_ffff);
    assert_eq!(id & 0xffff_ffff, 123_456);
}
