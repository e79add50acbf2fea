use nakamoto::fsm::{DisconnectReason, Output, Timeout};
use nakamoto::pingmgr::{
    PingManager, State, MAX_RECORDED_LATENCIES, PING_INTERVAL, PING_TIMEOUT,
};
use nakamoto::time::SECOND;

const PEER: u64 = 7;
const OTHER: u64 = 9;

fn manager() -> PingManager {
    PingManager::new(PING_TIMEOUT, fastrand::Rng::with_seed(42))
}

fn ping_timeout(addr: u64) -> Output {
    Output::Disconnect { addr, reason: DisconnectReason::PeerTimeout(Timeout::Ping) }
}

#[test]
fn ping_constants() {
    assert_eq!(PING_INTERVAL, 120_000);
    assert_eq!(PING_TIMEOUT, 30_000);
    assert_eq!(MAX_RECORDED_LATENCIES, 64);
}

#[test]
fn negotiated_peer_is_pinged() {
    let mut m = manager();
    m.peer_negotiated_with(PEER, 11, 1000);
    assert_eq!(m.drain(), vec![Output::Ping { addr: PEER, nonce: 11 }]);
    assert_eq!(m.state_of(PEER), Some(State::AwaitingPong { nonce: 11, since: 1000 }));
    assert!(m.drain().is_empty());
}

#[test]
fn random_nonce_is_sent_and_awaited() {
    let mut m = manager();
    m.peer_negotiated(PEER, 0);
    let out = m.drain();
    assert_eq!(out.len(), 1);
    let nonce = match out[0] {
        Output::Ping { addr, nonce } => {
            assert_eq!(addr, PEER);
            nonce
        }
        other => panic!("unexpected output {:?}", other),
    };
    assert_eq!(m.state_of(PEER), Some(State::AwaitingPong { nonce, since: 0 }));
}

#[test]
fn ping_times_out_after_31_seconds() {
    let mut m = manager();
    m.peer_negotiated_with(PEER, 5, 0);
    m.drain();
    m.received_wake(31 * SECOND);
    assert_eq!(m.drain(), vec![ping_timeout(PEER)]);
}

#[test]
fn ping_does_not_time_out_early() {
    let mut m = manager();
    m.peer_negotiated_with(PEER, 5, 10 * SECOND);
    m.drain();
    m.received_wake(39 * SECOND);
    assert!(m.drain().is_empty());
    m.received_wake(40 * SECOND);
    assert_eq!(m.drain(), vec![ping_timeout(PEER)]);
}

#[test]
fn matching_pong_records_latency() {
    let mut m = manager();
    m.peer_negotiated_with(PEER, 5, 1000);
    assert!(m.received_pong(PEER, 5, 1250));
    assert_eq!(m.state_of(PEER), Some(State::Idle { since: 1250 }));
    assert_eq!(m.latencies_of(PEER), Some(&vec![250]));
    m.drain();
    m.received_wake(1250 + PING_TIMEOUT);
    assert!(m.drain().is_empty());
}

#[test]
fn wrong_nonce_pong_is_ignored() {
    let mut m = manager();
    m.peer_negotiated_with(PEER, 5, 1000);
    assert!(!m.received_pong(PEER, 6, 1250));
    assert_eq!(m.state_of(PEER), Some(State::AwaitingPong { nonce: 5, since: 1000 }));
    assert_eq!(m.latencies_of(PEER), Some(&vec![]));
}

#[test]
fn unsolicited_pong_is_ignored() {
    let mut m = manager();
    assert!(!m.received_pong(PEER, 5, 1250));
    m.peer_negotiated_with(PEER, 5, 1000);
    assert!(m.received_pong(PEER, 5, 1250));
    assert!(!m.received_pong(PEER, 5, 1300));
    assert_eq!(m.latencies_of(PEER), Some(&vec![250]));
    assert_eq!(m.state_of(PEER), Some(State::Idle { since: 1250 }));
}

#[test]
fn ping_is_answered_for_known_peers_only() {
    let mut m = manager();
    m.peer_negotiated_with(PEER, 5, 0);
    m.drain();
    assert!(m.received_ping(PEER, 77));
    assert!(!m.received_ping(OTHER, 78));
    assert_eq!(m.drain(), vec![Output::Pong { addr: PEER, nonce: 77 }]);
}

#[test]
fn idle_peer_is_pinged_after_interval() {
    let mut m = manager();
    m.peer_negotiated_with(PEER, 5, 0);
    assert!(m.received_pong(PEER, 5, 100));
    m.drain();
    m.received_wake(100 + PING_INTERVAL - 1);
    assert!(m.drain().is_empty());
    m.received_wake(100 + PING_INTERVAL);
    let out = m.drain();
    assert_eq!(out.len(), 3);
    let nonce = match out[0] {
        Output::Ping { addr, nonce } => {
            assert_eq!(addr, PEER);
            nonce
        }
        other => panic!("unexpected output {:?}", other),
    };
    assert_eq!(out[1], Output::Wakeup(PING_TIMEOUT));
    assert_eq!(out[2], Output::Wakeup(PING_INTERVAL));
    assert_eq!(
        m.state_of(PEER),
        Some(State::AwaitingPong { nonce, since: 100 + PING_INTERVAL })
    );
}

#[test]
fn wake_handles_peers_in_order() {
    let mut m = manager();
    m.peer_negotiated_with(PEER, 1, 0);
    m.peer_negotiated_with(OTHER, 2, 0);
    m.drain();
    m.received_wake(PING_TIMEOUT);
    assert_eq!(m.drain(), vec![ping_timeout(PEER), ping_timeout(OTHER)]);
}

#[test]
fn disconnected_peer_is_forgotten() {
    let mut m = manager();
    m.peer_negotiated_with(PEER, 1, 0);
    m.peer_negotiated_with(OTHER, 2, 0);
    m.peer_disconnected(&PEER);
    assert_eq!(m.state_of(PEER), None);
    assert_eq!(m.state_of(OTHER), Some(State::AwaitingPong { nonce: 2, since: 0 }));
    m.drain();
    m.received_wake(PING_TIMEOUT);
    assert_eq!(m.drain(), vec![ping_timeout(OTHER)]);
    assert!(!m.received_ping(PEER, 3));
}

#[test]
fn renegotiation_replaces_record() {
    let mut m = manager();
    m.peer_negotiated_with(PEER, 1, 0);
    assert!(m.received_pong(PEER, 1, 10));
    m.peer_negotiated_with(PEER, 2, 20);
    assert_eq!(m.state_of(PEER), Some(State::AwaitingPong { nonce: 2, since: 20 }));
    assert_eq!(m.latencies_of(PEER), Some(&vec![]));
    assert!(!m.received_pong(PEER, 1, 30));
}

#[test]
fn latencies_are_capped_newest_first() {
    let mut m = manager();
    let mut now = 0;
    m.peer_negotiated_with(PEER, 0, now);
    for k in 0..70u64 {
        m.drain();
        let nonce = match m.state_of(PEER) {
            Some(State::AwaitingPong { nonce, .. }) => nonce,
            other => panic!("unexpected state {:?}", other),
        };
        assert!(m.received_pong(PEER, nonce, now + k));
        now += k;
        now += PING_INTERVAL;
        m.received_wake(now);
    }
    let lat = m.latencies_of(PEER).unwrap();
    assert_eq!(lat.len(), MAX_RECORDED_LATENCIES);
    assert_eq!(lat[0], 69);
    assert_eq!(lat[63], 6);
}
