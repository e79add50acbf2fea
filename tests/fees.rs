use nakamoto::event::FeeEstimate;
use nakamoto::fees::{estimate, TxFee};

fn tx(fee: Option<u64>, vsize: u64) -> TxFee {
    TxFee { fee, vsize }
}

#[test]
fn no_rates_no_estimate() {
    assert_eq!(estimate(&vec![]), None);
    assert_eq!(estimate(&vec![tx(None, 200), tx(Some(500), 0)]), None);
}

#[test]
fn percentiles_of_known_rates() {
    let txs = vec![
        tx(Some(1000), 100),
        tx(None, 200),
        tx(Some(3000), 100),
        tx(Some(500), 0),
        tx(Some(2000), 100),
        tx(Some(4000), 100),
    ];
    assert_eq!(estimate(&txs), Some(FeeEstimate { low: 20, median: 30, high: 40 }));
}

#[test]
fn single_rate_is_every_percentile() {
    assert_eq!(
        estimate(&vec![tx(Some(1234), 100)]),
        Some(FeeEstimate { low: 12, median: 12, high: 12 })
    );
}

#[test]
fn rates_round_down_and_ties_count() {
    let txs = vec![
        tx(Some(999), 100),
        tx(Some(150), 10),
        tx(Some(150), 10),
        tx(Some(1), 3),
        tx(Some(70), 7),
    ];
    // Rates 9, 15, 15, 0, 10; ascending 0, 9, 10, 15, 15.
    assert_eq!(estimate(&txs), Some(FeeEstimate { low: 9, median: 10, high: 15 }));
}
