use nakamoto::fsm::{DisconnectReason, Output, Timeout};
use nakamoto::net::Link;
use nakamoto::peermgr::{
    Config, HandshakeState, PeerManager, VersionMessage, COMPACT_FILTERS, HANDSHAKE_TIMEOUT,
    MAX_TIME_ADJUSTMENT, MIN_PROTOCOL_VERSION, NETWORK,
};
use nakamoto::time::SECOND;

const NOW: u64 = 1_700_000_000_000;

fn config(max_outbound: usize) -> Config {
    Config {
        min_version: MIN_PROTOCOL_VERSION,
        required_services: NETWORK | COMPACT_FILTERS,
        max_outbound,
        handshake_timeout: HANDSHAKE_TIMEOUT,
    }
}

fn manager() -> PeerManager {
    PeerManager::new(config(8), fastrand::Rng::with_seed(7))
}

fn version(nonce: u64) -> VersionMessage {
    VersionMessage {
        version: 70016,
        services: NETWORK | COMPACT_FILTERS,
        timestamp: NOW / 1000,
        nonce,
        start_height: 144,
    }
}

fn disconnect(addr: u64, reason: DisconnectReason) -> Output {
    Output::Disconnect { addr, reason }
}

#[test]
fn handshake_constants() {
    assert_eq!(MIN_PROTOCOL_VERSION, 70012);
    assert_eq!(HANDSHAKE_TIMEOUT, 6000);
    assert_eq!(MAX_TIME_ADJUSTMENT, 5400);
}

#[test]
fn outbound_handshake_negotiates_once() {
    let mut m = manager();
    m.connected_with(1, Link::Outbound, 100, NOW);
    assert_eq!(m.drain(), vec![Output::Version { addr: 1, nonce: 100 }]);
    m.received_version_with(1, version(999), 200, NOW + 10);
    assert_eq!(m.drain(), vec![Output::Verack { addr: 1 }]);
    m.received_verack(1);
    assert_eq!(
        m.drain(),
        vec![Output::Negotiated {
            addr: 1,
            link: Link::Outbound,
            version: 70016,
            services: NETWORK | COMPACT_FILTERS,
            height: 144,
        }]
    );
    assert_eq!(
        m.peer(1).unwrap().state,
        HandshakeState::Negotiated { remote: version(999) }
    );
    m.received_verack(1);
    assert!(m.drain().is_empty());
}

#[test]
fn inbound_handshake_answers_version() {
    let mut m = manager();
    m.connected_with(2, Link::Inbound, 100, NOW);
    assert!(m.drain().is_empty());
    let mut v = version(999);
    v.services = 0;
    m.received_version_with(2, v, 300, NOW);
    assert_eq!(
        m.drain(),
        vec![Output::Version { addr: 2, nonce: 300 }, Output::Verack { addr: 2 }]
    );
    assert_eq!(m.peer(2).unwrap().nonce, Some(300));
    m.received_verack(2);
    let out = m.drain();
    assert_eq!(out.len(), 1);
    assert!(matches!(out[0], Output::Negotiated { addr: 2, link: Link::Inbound, .. }));
}

#[test]
fn own_nonce_is_self_connection() {
    let mut m = manager();
    m.connected_with(1, Link::Outbound, 555, NOW);
    m.connected_with(2, Link::Inbound, 0, NOW);
    m.drain();
    m.received_version_with(2, version(555), 1, NOW);
    assert_eq!(m.drain(), vec![disconnect(2, DisconnectReason::SelfConnection)]);
    assert_eq!(m.peer(2).unwrap().state, HandshakeState::Disconnecting);
    m.received_verack(2);
    assert!(m.drain().is_empty());
}

#[test]
fn old_protocol_version_is_refused() {
    let mut m = manager();
    m.connected_with(1, Link::Outbound, 100, NOW);
    m.drain();
    let mut v = version(999);
    v.version = 70011;
    m.received_version_with(1, v, 0, NOW);
    assert_eq!(m.drain(), vec![disconnect(1, DisconnectReason::PeerProtocolVersion(70011))]);
}

#[test]
fn outbound_peer_needs_filter_services() {
    let mut m = manager();
    m.connected_with(1, Link::Outbound, 100, NOW);
    m.drain();
    let mut v = version(999);
    v.services = NETWORK;
    m.received_version_with(1, v, 0, NOW);
    assert_eq!(m.drain(), vec![disconnect(1, DisconnectReason::PeerServices(NETWORK))]);
}

#[test]
fn clock_skew_beyond_ninety_minutes_is_refused() {
    let mut m = manager();
    m.connected_with(1, Link::Outbound, 100, NOW);
    m.connected_with(2, Link::Outbound, 101, NOW);
    m.drain();
    let mut v = version(999);
    v.timestamp = NOW / 1000 + MAX_TIME_ADJUSTMENT;
    m.received_version_with(1, v, 0, NOW);
    assert_eq!(m.drain(), vec![Output::Verack { addr: 1 }]);
    v.timestamp = NOW / 1000 - MAX_TIME_ADJUSTMENT - 1;
    m.received_version_with(2, v, 0, NOW);
    assert_eq!(m.drain(), vec![disconnect(2, DisconnectReason::PeerTimestamp)]);
}

#[test]
fn early_verack_is_a_protocol_error() {
    let mut m = manager();
    m.connected_with(1, Link::Outbound, 100, NOW);
    m.drain();
    m.received_verack(1);
    assert_eq!(m.drain(), vec![disconnect(1, DisconnectReason::ProtocolError)]);
}

#[test]
fn second_version_is_a_protocol_error() {
    let mut m = manager();
    m.connected_with(1, Link::Outbound, 100, NOW);
    m.received_version_with(1, version(999), 0, NOW);
    m.drain();
    m.received_version_with(1, version(999), 0, NOW);
    assert_eq!(m.drain(), vec![disconnect(1, DisconnectReason::ProtocolError)]);
}

#[test]
fn duplicate_connection_is_refused() {
    let mut m = manager();
    m.connected_with(1, Link::Outbound, 100, NOW);
    m.drain();
    m.connected_with(1, Link::Inbound, 101, NOW);
    assert_eq!(m.drain(), vec![disconnect(1, DisconnectReason::DuplicateConnection)]);
    assert_eq!(m.peer(1).unwrap().link, Link::Outbound);
}

#[test]
fn outbound_limit_is_enforced() {
    let mut m = PeerManager::new(config(1), fastrand::Rng::with_seed(7));
    for addr in [1u64, 2] {
        m.connected_with(addr, Link::Outbound, 100 + addr, NOW);
        m.received_version_with(addr, version(999), 0, NOW);
    }
    m.received_verack(1);
    m.drain();
    m.received_verack(2);
    assert_eq!(m.drain(), vec![disconnect(2, DisconnectReason::ConnectionLimit)]);
}

#[test]
fn handshake_times_out() {
    let mut m = manager();
    m.connected_with(1, Link::Outbound, 100, NOW);
    m.connected_with(2, Link::Inbound, 0, NOW + SECOND);
    m.drain();
    m.received_wake(NOW + HANDSHAKE_TIMEOUT - 1);
    assert!(m.drain().is_empty());
    m.received_wake(NOW + HANDSHAKE_TIMEOUT);
    assert_eq!(
        m.drain(),
        vec![disconnect(1, DisconnectReason::PeerTimeout(Timeout::Handshake))]
    );
    m.received_wake(NOW + HANDSHAKE_TIMEOUT + SECOND);
    assert_eq!(
        m.drain(),
        vec![disconnect(2, DisconnectReason::PeerTimeout(Timeout::Handshake))]
    );
}

#[test]
fn disconnected_peer_is_dropped() {
    let mut m = manager();
    m.connected_with(1, Link::Outbound, 100, NOW);
    m.disconnected(1);
    assert_eq!(m.peer(1), None);
    m.received_verack(1);
    m.drain();
    m.received_wake(NOW + HANDSHAKE_TIMEOUT);
    assert!(m.drain().is_empty());
}

#[test]
fn random_nonce_goes_into_version() {
    let mut m = manager();
    m.connected(1, Link::Outbound, NOW);
    let out = m.drain();
    assert_eq!(out.len(), 1);
    match out[0] {
        Output::Version { addr, nonce } => {
            assert_eq!(addr, 1);
            assert_eq!(m.peer(1).unwrap().nonce, Some(nonce));
        }
        other => panic!("unexpected output {:?}", other),
    }
    m.received_version(1, version(999), NOW);
    assert_eq!(m.drain(), vec![Output::Verack { addr: 1 }]);
}
