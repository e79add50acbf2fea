use nakamoto::chain::{BlockTree, Header};
use nakamoto::net::Link;
use nakamoto::peermgr::{HandshakeState, PeerRecord, VersionMessage, COMPACT_FILTERS, NETWORK};
use nakamoto::syncmgr::{locator, locator_keys, sync_peer};

fn negotiated(addr: u64, link: Link, services: u64, height: u64) -> PeerRecord {
    PeerRecord {
        addr,
        link,
        state: HandshakeState::Negotiated {
            remote: VersionMessage {
                version: 70016,
                services,
                timestamp: 0,
                nonce: addr,
                start_height: height,
            },
        },
        nonce: None,
    }
}

#[test]
fn locator_of_genesis_and_short_chains() {
    assert_eq!(locator(0), vec![0]);
    assert_eq!(locator(5), vec![5, 4, 3, 2, 1, 0]);
}

#[test]
fn locator_steps_double_after_ten_entries() {
    assert_eq!(
        locator(20),
        vec![20, 19, 18, 17, 16, 15, 14, 13, 12, 11, 10, 8, 4, 0]
    );
    let l = locator(1_000_000);
    assert_eq!(l[0], 1_000_000);
    assert_eq!(*l.last().unwrap(), 0);
    assert!(l.len() < 40);
    assert!(l.windows(2).all(|w| w[0] > w[1]));
}

#[test]
fn locator_keys_follow_active_chain() {
    let mut t = BlockTree::new(500);
    let mut parent = 500;
    for key in 1..=12u64 {
        t.import(Header { key, parent, work: 1 }).unwrap();
        parent = key;
    }
    assert_eq!(locator(12), vec![12, 11, 10, 9, 8, 7, 6, 5, 4, 3, 2, 0]);
    assert_eq!(locator_keys(&t), vec![12, 11, 10, 9, 8, 7, 6, 5, 4, 3, 2, 500]);
}

#[test]
fn sync_peer_is_tallest_eligible_outbound() {
    let full = NETWORK | COMPACT_FILTERS;
    let peers = vec![
        negotiated(1, Link::Outbound, full, 150),
        negotiated(2, Link::Inbound, full, 300),
        negotiated(3, Link::Outbound, COMPACT_FILTERS, 400),
        negotiated(4, Link::Outbound, NETWORK, 200),
        negotiated(5, Link::Outbound, full, 200),
        PeerRecord {
            addr: 6,
            link: Link::Outbound,
            state: HandshakeState::Disconnecting,
            nonce: None,
        },
    ];
    assert_eq!(sync_peer(&peers, 144), Some(4));
    assert_eq!(sync_peer(&peers, 199), Some(4));
    assert_eq!(sync_peer(&peers, 200), None);
    assert_eq!(sync_peer(&vec![], 0), None);
}
