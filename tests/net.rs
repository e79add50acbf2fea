use std::sync::Arc;

use nakamoto::fsm;
use nakamoto::net::{DisconnectReason, Link};
use nakamoto::time::{elapsed, MINUTE, SECOND};

fn io_error() -> Arc<std::io::Error> {
    Arc::new(std::io::Error::new(std::io::ErrorKind::ConnectionRefused, "refused"))
}

#[test]
fn link_direction() {
    assert!(Link::Outbound.is_outbound());
    assert!(!Link::Outbound.is_inbound());
    assert!(Link::Inbound.is_inbound());
    assert!(!Link::Inbound.is_outbound());
}

#[test]
fn dial_error_is_dial_error_only() {
    let r: DisconnectReason<fsm::DisconnectReason> = DisconnectReason::DialError(io_error());
    assert!(r.is_dial_err());
    assert!(!r.is_connection_err());
}

#[test]
fn connection_error_is_connection_error_only() {
    let r: DisconnectReason<fsm::DisconnectReason> =
        DisconnectReason::ConnectionError(io_error());
    assert!(r.is_connection_err());
    assert!(!r.is_dial_err());
}

#[test]
fn protocol_reason_is_neither() {
    let r = DisconnectReason::Protocol(fsm::DisconnectReason::SelfConnection);
    assert!(!r.is_dial_err());
    assert!(!r.is_connection_err());
}

#[test]
fn elapsed_saturates() {
    assert_eq!(elapsed(5 * SECOND, 2 * SECOND), 3 * SECOND);
    assert_eq!(elapsed(2 * SECOND, 5 * SECOND), 0);
    assert_eq!(elapsed(MINUTE, MINUTE), 0);
}
