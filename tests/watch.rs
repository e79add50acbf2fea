use nakamoto::watch::Watchlist;

fn script(tag: u8) -> Vec<u8> {
    vec![0x00, 0x14, tag, tag, tag]
}

#[test]
fn empty_watchlist_matches_nothing() {
    let w = Watchlist::new();
    assert!(!w.contains(&script(1)));
    let block = vec![vec![script(1)], vec![script(2), script(3)]];
    assert!(w.matching(&block).is_empty());
}

#[test]
fn watched_script_is_found() {
    let mut w = Watchlist::new();
    w.insert(script(7));
    assert!(w.contains(&script(7)));
    assert!(!w.contains(&script(8)));
    assert!(!w.contains(&vec![0x00, 0x14, 7, 7]));
    assert!(w.tx_matches(&vec![script(1), script(7)]));
    assert!(!w.tx_matches(&vec![script(1), script(2)]));
    assert!(!w.tx_matches(&vec![]));
}

#[test]
fn block_scan_lists_matching_transactions_in_order() {
    let mut w = Watchlist::new();
    w.insert(script(7));
    w.insert(script(9));
    let block = vec![
        vec![script(1)],
        vec![script(2), script(9)],
        vec![],
        vec![script(7)],
        vec![script(3), script(4)],
    ];
    assert_eq!(w.matching(&block), vec![1, 3]);
}

#[test]
fn inserting_twice_keeps_one_script() {
    let mut w = Watchlist::new();
    w.insert(script(7));
    w.insert(script(7));
    let block = vec![vec![script(7), script(7)]];
    assert_eq!(w.matching(&block), vec![0]);
}
