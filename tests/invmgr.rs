use nakamoto::event::TxStatus;
use nakamoto::invmgr::{InvOutput, InventoryManager};

const BLOCK_210: [u8; 32] = [0x21; 32];

#[test]
fn submit_announces_to_negotiated_peers() {
    let mut m = InventoryManager::new();
    assert!(m.submit(5, vec![1, 2, 3], &vec![10, 11]));
    assert_eq!(
        m.drain(),
        vec![
            InvOutput::Announce { addr: 10, txid: 5 },
            InvOutput::Announce { addr: 11, txid: 5 },
        ]
    );
    assert_eq!(m.received_getdata(5), Some(&vec![1, 2, 3]));
    assert_eq!(m.received_getdata(6), None);
}

#[test]
fn second_submit_is_ignored() {
    let mut m = InventoryManager::new();
    assert!(m.submit(5, vec![1], &vec![10]));
    m.drain();
    assert!(!m.submit(5, vec![2], &vec![10]));
    assert!(m.drain().is_empty());
    assert_eq!(m.received_getdata(5), Some(&vec![1]));
}

#[test]
fn new_peer_gets_unconfirmed_announcements() {
    let mut m = InventoryManager::new();
    m.submit(5, vec![1], &vec![]);
    m.submit(6, vec![2], &vec![]);
    m.submit(7, vec![3], &vec![]);
    m.tx_confirmed(6, 100, [0; 32]);
    m.drain();
    m.peer_negotiated(12);
    assert_eq!(
        m.drain(),
        vec![
            InvOutput::Announce { addr: 12, txid: 5 },
            InvOutput::Announce { addr: 12, txid: 7 },
        ]
    );
}

#[test]
fn confirm_at_210_then_revert_resumes_broadcast() {
    let mut m = InventoryManager::new();
    m.submit(5, vec![9, 9], &vec![10]);
    m.drain();
    assert!(m.tx_confirmed(5, 210, BLOCK_210));
    assert_eq!(
        m.drain(),
        vec![InvOutput::StatusChanged {
            txid: 5,
            status: TxStatus::Confirmed { height: 210, block: BLOCK_210 },
        }]
    );
    assert_eq!(m.received_getdata(5), None);
    m.peer_negotiated(11);
    assert!(m.drain().is_empty());
    // A re-org to a fork at 209 takes block 210 off the active chain.
    m.block_disconnected(210);
    assert_eq!(
        m.drain(),
        vec![InvOutput::StatusChanged { txid: 5, status: TxStatus::Reverted }]
    );
    m.peer_negotiated(11);
    assert_eq!(m.drain(), vec![InvOutput::Announce { addr: 11, txid: 5 }]);
    assert_eq!(m.received_getdata(5), Some(&vec![9, 9]));
}

#[test]
fn confirmation_of_unknown_or_confirmed_tx_is_ignored() {
    let mut m = InventoryManager::new();
    assert!(!m.tx_confirmed(5, 210, BLOCK_210));
    m.submit(5, vec![1], &vec![]);
    assert!(m.tx_confirmed(5, 210, BLOCK_210));
    m.drain();
    assert!(!m.tx_confirmed(5, 211, [0; 32]));
    assert!(m.drain().is_empty());
}

#[test]
fn disconnect_of_other_height_keeps_confirmation() {
    let mut m = InventoryManager::new();
    m.submit(5, vec![1], &vec![]);
    m.tx_confirmed(5, 210, BLOCK_210);
    m.drain();
    m.block_disconnected(211);
    assert!(m.drain().is_empty());
    assert_eq!(m.received_getdata(5), None);
}
