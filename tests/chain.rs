use nakamoto::chain::{BlockTree, ChainEvent, Header, ImportError};

const GENESIS: u64 = 1000;

/// Headers of a chain of `n` blocks on top of `parent`, keys from `first`.
fn headers(parent: u64, first: u64, n: u64, work: u64) -> Vec<Header> {
    let mut out = Vec::new();
    let mut parent = parent;
    for k in 0..n {
        let key = first + k;
        out.push(Header { key, parent, work });
        parent = key;
    }
    out
}

#[test]
fn new_tree_holds_genesis() {
    let t = BlockTree::new(GENESIS);
    assert_eq!(t.height(), 0);
    assert_eq!(t.tip(), GENESIS);
    assert_eq!(t.active(), &vec![GENESIS]);
}

#[test]
fn sync_144_headers_connects_each_once() {
    let mut t = BlockTree::new(GENESIS);
    let batch = headers(GENESIS, 1, 144, 1);
    let events = t.import_batch(&batch).unwrap();
    assert_eq!(events.len(), 144);
    for (k, e) in events.iter().enumerate() {
        assert_eq!(*e, ChainEvent::BlockConnected { key: 1 + k as u64, height: 1 + k as u64 });
    }
    assert_eq!(t.height(), 144);
    assert_eq!(t.tip(), 144);
}

#[test]
fn replaying_a_batch_changes_nothing() {
    let mut t = BlockTree::new(GENESIS);
    let batch = headers(GENESIS, 1, 10, 1);
    t.import_batch(&batch).unwrap();
    let events = t.import_batch(&batch).unwrap();
    assert!(events.is_empty());
    assert_eq!(t.height(), 10);
    assert_eq!(t.tip(), 10);
}

#[test]
fn competing_fork_from_142_reorgs_to_145() {
    let mut t = BlockTree::new(GENESIS);
    t.import_batch(&headers(GENESIS, 1, 144, 1)).unwrap();
    // The fork builds on block 142 and reaches height 145.
    let fork = headers(142, 10_143, 3, 1);
    let events = t.import_batch(&fork).unwrap();
    assert_eq!(
        events,
        vec![
            ChainEvent::BlockDisconnected { key: 144, height: 144 },
            ChainEvent::BlockDisconnected { key: 143, height: 143 },
            ChainEvent::BlockConnected { key: 10_143, height: 143 },
            ChainEvent::BlockConnected { key: 10_144, height: 144 },
            ChainEvent::BlockConnected { key: 10_145, height: 145 },
        ]
    );
    assert_eq!(t.height(), 145);
    assert_eq!(t.tip(), 10_145);
}

#[test]
fn equal_work_keeps_first_seen_tip() {
    let mut t = BlockTree::new(GENESIS);
    t.import_batch(&headers(GENESIS, 1, 3, 1)).unwrap();
    let events = t.import_batch(&headers(2, 20, 1, 1)).unwrap();
    assert!(events.is_empty());
    assert_eq!(t.tip(), 3);
}

#[test]
fn heavier_single_block_wins() {
    let mut t = BlockTree::new(GENESIS);
    t.import_batch(&headers(GENESIS, 1, 3, 1)).unwrap();
    let events = t.import(Header { key: 50, parent: 1, work: 5 }).unwrap();
    assert_eq!(
        events,
        vec![
            ChainEvent::BlockDisconnected { key: 3, height: 3 },
            ChainEvent::BlockDisconnected { key: 2, height: 2 },
            ChainEvent::BlockConnected { key: 50, height: 2 },
        ]
    );
    assert_eq!(t.active(), &vec![GENESIS, 1, 50]);
}

#[test]
fn unknown_parent_is_refused() {
    let mut t = BlockTree::new(GENESIS);
    assert_eq!(
        t.import(Header { key: 5, parent: 4, work: 1 }),
        Err(ImportError::UnknownParent)
    );
    assert_eq!(t.height(), 0);
}

#[test]
fn batch_stops_at_first_refusal() {
    let mut t = BlockTree::new(GENESIS);
    let mut batch = headers(GENESIS, 1, 3, 1);
    batch.push(Header { key: 99, parent: 98, work: 1 });
    batch.push(Header { key: 4, parent: 3, work: 1 });
    assert_eq!(t.import_batch(&batch), Err(ImportError::UnknownParent));
    assert_eq!(t.height(), 3);
    assert_eq!(t.tip(), 3);
}
