use ledger_client::errors::ClientError;
use ledger_client::mux::AwaitStatus;
use ledger_client::mux::Multiplexer;
use ledger_client::records::OperationKind;

#[test]
fn submit_below_the_bound_always_succeeds_at_once() {
    let mut m = Multiplexer::new(3);
    let a = m.submit(OperationKind::CreateAccounts, vec![1]).expect("below bound");
    let b = m.submit(OperationKind::CreateTransfers, vec![2]).expect("below bound");
    let c = m.submit(OperationKind::LookupAccounts, vec![3]).expect("below bound");
    assert_eq!(m.in_flight_count(), 3);
    // Ids are unique among in-flight requests.
    assert!(a != b && b != c && a != c);
}

#[test]
fn submit_at_the_bound_fails_deterministically() {
    let mut m = Multiplexer::new(2);
    m.submit(OperationKind::CreateAccounts, vec![1]).expect("below bound");
    m.submit(OperationKind::CreateAccounts, vec![2]).expect("below bound");
    assert_eq!(
        m.submit(OperationKind::CreateAccounts, vec![3]),
        Err(ClientError::TooManyInFlight)
    );
    // Failing at the bound changed nothing.
    assert_eq!(m.in_flight_count(), 2);
}

#[test]
fn outbound_frames_carry_the_id_in_submission_order() {
    let mut m = Multiplexer::new(4);
    let a = m.submit(OperationKind::CreateAccounts, vec![0xaa]).expect("below bound");
    let b = m.submit(OperationKind::CreateAccounts, vec![0xbb]).expect("below bound");
    let (id1, bytes1) = m.take_outbound().expect("one frame queued");
    let (id2, bytes2) = m.take_outbound().expect("another frame queued");
    assert_eq!((id1, bytes1), (a, vec![0xaa]));
    assert_eq!((id2, bytes2), (b, vec![0xbb]));
    assert_eq!(m.take_outbound(), None);
}

#[test]
fn responses_go_to_their_own_callers_whatever_the_order() {
    let mut m = Multiplexer::new(4);
    let a = m.submit(OperationKind::CreateAccounts, vec![1]).expect("below bound");
    let b = m.submit(OperationKind::LookupAccounts, vec![2]).expect("below bound");
    // Completions arrive out of submission order.
    m.on_completion(b, vec![20, 21]).expect("pending id");
    m.on_completion(a, vec![10]).expect("pending id");
    assert_eq!(m.await_result(a), AwaitStatus::Ready(vec![10]));
    assert_eq!(m.await_result(b), AwaitStatus::Ready(vec![20, 21]));
}

#[test]
fn awaiting_before_completion_does_not_block() {
    let mut m = Multiplexer::new(4);
    let a = m.submit(OperationKind::CreateAccounts, vec![1]).expect("below bound");
    assert_eq!(m.await_result(a), AwaitStatus::NotReady);
    m.on_completion(a, vec![9]).expect("pending id");
    assert_eq!(m.await_result(a), AwaitStatus::Ready(vec![9]));
}

#[test]
fn completion_for_an_unknown_id_is_a_protocol_violation() {
    let mut m = Multiplexer::new(4);
    assert_eq!(
        m.on_completion(5, vec![1]),
        Err(ClientError::UnexpectedCompletion)
    );
    let a = m.submit(OperationKind::CreateAccounts, vec![1]).expect("below bound");
    m.on_completion(a, vec![2]).expect("pending id");
    // Resolving the same id twice is a violation: the slot resolves once.
    assert_eq!(
        m.on_completion(a, vec![3]),
        Err(ClientError::UnexpectedCompletion)
    );
    // The first resolution is untouched.
    assert_eq!(m.await_result(a), AwaitStatus::Ready(vec![2]));
}

#[test]
fn ids_are_recycled_only_after_resolution() {
    let mut m = Multiplexer::new(2);
    let a = m.submit(OperationKind::CreateAccounts, vec![1]).expect("below bound");
    let b = m.submit(OperationKind::CreateAccounts, vec![2]).expect("below bound");
    m.on_completion(a, vec![]).expect("pending id");
    assert_eq!(m.await_result(a), AwaitStatus::Ready(vec![]));
    // The freed id may now be issued again; the other id stays taken.
    let c = m.submit(OperationKind::CreateAccounts, vec![3]).expect("slot freed");
    assert_eq!(c, a);
    assert!(c != b);
}

#[test]
fn cancelled_requests_drain_their_completion_silently() {
    let mut m = Multiplexer::new(2);
    let a = m.submit(OperationKind::CreateAccounts, vec![1]).expect("below bound");
    m.cancel(a);
    // The late completion is drained, not a table-lookup failure.
    m.on_completion(a, vec![7]).expect("drained");
    // The slot is free again afterwards.
    assert_eq!(m.in_flight_count(), 0);
}

#[test]
fn connection_loss_resolves_every_pending_caller() {
    let mut m = Multiplexer::new(4);
    let a = m.submit(OperationKind::CreateAccounts, vec![1]).expect("below bound");
    let b = m.submit(OperationKind::LookupAccounts, vec![2]).expect("below bound");
    let c = m.submit(OperationKind::CreateTransfers, vec![3]).expect("below bound");
    // One request already completed; it keeps its response.
    m.on_completion(c, vec![30]).expect("pending id");
    m.connection_lost();
    assert_eq!(m.await_result(a), AwaitStatus::Lost);
    assert_eq!(m.await_result(b), AwaitStatus::Lost);
    assert_eq!(m.await_result(c), AwaitStatus::Ready(vec![30]));
}
