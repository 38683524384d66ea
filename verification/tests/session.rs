use ledger_client::errors::ClientError;
use ledger_client::errors::FieldName;
use ledger_client::session::Session;
use ledger_client::session::SessionState;
use ledger_client::session::check_addr_list;
use ledger_client::session::check_host_port;

#[test]
fn new_parses_the_cluster_id() {
    let s = Session::new("12345", "localhost:3000").expect("valid id");
    assert_eq!(s.cluster_id, 12345);
    assert_eq!(s.state, SessionState::Disconnected);
    assert_eq!(s.get_addresses(), "localhost:3000".to_string());
}

#[test]
fn new_rejects_a_malformed_cluster_id() {
    assert_eq!(
        Session::new("abc", "localhost:3000").err(),
        Some(ClientError::InvalidNumericField(FieldName::ClusterId))
    );
    assert_eq!(
        Session::new("", "localhost:3000").err(),
        Some(ClientError::InvalidNumericField(FieldName::ClusterId))
    );
    // One past the largest 128-bit value.
    assert_eq!(
        Session::new("340282366920938463463374607431768211456", "x:1").err(),
        Some(ClientError::InvalidNumericField(FieldName::ClusterId))
    );
}

#[test]
fn cluster_id_renders_canonically() {
    let s = Session::new("0070", "h:1").expect("valid id");
    assert_eq!(s.get_cluster_id(), "70".to_string());
    let s = Session::new("0", "h:1").expect("valid id");
    assert_eq!(s.get_cluster_id(), "0".to_string());
}

#[test]
fn host_port_syntax() {
    assert!(check_host_port("localhost:3000"));
    assert!(check_host_port("10.0.0.1:65535"));
    assert!(check_host_port("h:0"));
    assert!(!check_host_port("localhost"));
    assert!(!check_host_port(":3000"));
    assert!(!check_host_port("localhost:"));
    assert!(!check_host_port("localhost:65536"));
    assert!(!check_host_port("localhost:30a0"));
    assert!(!check_host_port(""));
}

#[test]
fn address_lists() {
    assert!(check_addr_list("a:1"));
    assert!(check_addr_list("a:1,b:2,c:65535"));
    assert!(!check_addr_list(""));
    assert!(!check_addr_list("a:1,"));
    assert!(!check_addr_list(",a:1"));
    assert!(!check_addr_list("a:1,b"));
}

#[test]
fn connect_moves_to_connecting_on_valid_addresses() {
    let mut s = Session::new("1", "localhost:3000,peer:3001").expect("valid id");
    assert_eq!(s.connect(), Ok(()));
    assert_eq!(s.state, SessionState::Connecting);
    s.transport_established();
    assert_eq!(s.state, SessionState::Connected);
    assert!(s.is_connected());
}

#[test]
fn connect_rejects_invalid_addresses_before_any_transport_work() {
    let mut s = Session::new("1", "nonsense").expect("valid id");
    assert_eq!(s.connect(), Err(ClientError::InvalidAddress));
    assert_eq!(s.state, SessionState::Disconnected);
    let mut s = Session::new("1", "").expect("valid id");
    assert_eq!(s.connect(), Err(ClientError::InvalidAddress));
    assert_eq!(s.state, SessionState::Disconnected);
}

#[test]
fn transport_failure_is_terminal_and_carries_the_error() {
    let mut s = Session::new("1", "h:1").expect("valid id");
    assert_eq!(s.connect(), Ok(()));
    s.transport_failed(3);
    assert_eq!(s.state, SessionState::Failed);
    assert_eq!(s.transport_error, Some(3));
    assert!(!s.is_connected());
}

#[test]
fn disconnect_returns_to_disconnected() {
    let mut s = Session::new("1", "h:1").expect("valid id");
    assert_eq!(s.connect(), Ok(()));
    s.transport_established();
    s.disconnect();
    assert_eq!(s.state, SessionState::Disconnected);
}
