//! Fee estimation from the transactions of a matched block.
//!
//! Each transaction whose fee is known (its inputs' values came with the
//! watchlist match) and whose virtual size is not zero gives a fee rate, in
//! satoshis per virtual byte, rounded down. The estimate is the 25th, 50th
//! and 75th percentile of the rates: the rates at positions `n / 4`, `n / 2`
//! and `3 n / 4` of the `n` rates in ascending order.
use crate::event::FeeEstimate;
use vstd::prelude::*;
use vstd::relations::{sorted_by, total_ordering};

verus! {

/// What a transaction tells the estimator.
#[derive(Clone, Copy, Debug, PartialEq, Eq)]
pub struct TxFee {
    /// The fee, when the values of all inputs are known.
    pub fee: Option<u64>,
    /// Virtual size, in virtual bytes.
    pub vsize: u64,
}

/// Fee rate of `t`, if it has one.
pub open spec fn rate_of(t: TxFee) -> Option<u64> {
    if t.fee is Some && t.vsize > 0 {
        Some((t.fee->0 / t.vsize) as u64)
    } else {
        None
    }
}

/// Fee rates of the transactions of `txs` that have one, in order.
pub open spec fn rates(txs: Seq<TxFee>) -> Seq<u64>
    decreases txs.len(),
{
    if txs.len() == 0 {
        seq![]
    } else {
        match rate_of(txs.last()) {
            Some(r) => rates(txs.drop_last()).push(r),
            None => rates(txs.drop_last()),
        }
    }
}

/// Ascending order of rates.
pub open spec fn ascending() -> spec_fn(u64, u64) -> bool {
    |a: u64, b: u64| a <= b
}

/// The estimate for `rs`: none without rates.
pub open spec fn estimate_of(rs: Seq<u64>) -> Option<FeeEstimate> {
    if rs.len() == 0 {
        None
    } else {
        let s = rs.sort_by(ascending());
        Some(
            FeeEstimate {
                low: s[(rs.len() / 4) as int],
                median: s[(rs.len() / 2) as int],
                high: s[((3 * rs.len()) / 4) as int],
            },
        )
    }
}

/// `ascending` is a total order.
proof fn lemma_ascending_total()
    ensures
        total_ordering(ascending()),
{
}

/// Insert `x` into the ascending `v`, keeping it ascending.
fn insert_sorted(v: &mut Vec<u64>, x: u64)
    requires
        sorted_by(old(v)@, ascending()),
    ensures
        sorted_by(final(v)@, ascending()),
        final(v)@.to_multiset() == old(v)@.to_multiset().insert(x),
{
    let mut p: usize = 0;
    while p < v.len() && v[p] <= x
        invariant
            0 <= p <= v@.len(),
            forall|k: int| 0 <= k < p ==> v@[k] <= x,
        decreases v@.len() - p,
    {
        p += 1;
    }
    let ghost before = v@;
    v.insert(p, x);
    proof {
        before.to_multiset_ensures();
        vstd::seq_lib::to_multiset_insert(before, p as int, x);
        let after = v@;
        assert forall|i: int, j: int| 0 <= i < j < after.len() implies #[trigger] ascending()(
            after[i],
            after[j],
        ) by {
            if j < p {
                assert(ascending()(before[i], before[j]));
            } else if i > p {
                assert(ascending()(before[i - 1], before[j - 1]));
            } else if i == p {
                if p < before.len() {
                    assert(before[p as int] > x);
                    if j - 1 > p {
                        assert(ascending()(before[p as int], before[j - 1]));
                    }
                }
            } else if j > p {
                assert(ascending()(before[i], before[j - 1]));
            }
        }
    }
}

/// Fee estimate of a block's transactions: none when no transaction has a
/// fee rate.
pub fn estimate(txs: &Vec<TxFee>) -> (r: Option<FeeEstimate>)
    ensures
        r == estimate_of(rates(txs@)),
{
    let mut sorted: Vec<u64> = Vec::new();
    let mut i: usize = 0;
    while i < txs.len()
        invariant
            0 <= i <= txs@.len(),
            sorted_by(sorted@, ascending()),
            sorted@.to_multiset() == rates(txs@.take(i as int)).to_multiset(),
        decreases txs@.len() - i,
    {
        let t = txs[i];
        assert(txs@.take(i + 1).drop_last() =~= txs@.take(i as int));
        assert(txs@.take(i + 1).last() == t);
        match t.fee {
            Some(fee) => {
                if t.vsize > 0 {
                    let rate = fee / t.vsize;
                    insert_sorted(&mut sorted, rate);
                    proof {
                        let rs = rates(txs@.take(i as int));
                        vstd::seq_lib::to_multiset_build(rs, rate);
                    }
                }
            },
            None => {},
        }
        i += 1;
    }
    assert(txs@.take(i as int) =~= txs@);
    let n = sorted.len();
    proof {
        let rs = rates(txs@);
        lemma_ascending_total();
        rs.lemma_sort_by_ensures(ascending());
        vstd::seq_lib::lemma_sorted_unique(
            sorted@,
            rs.sort_by(ascending()),
            ascending(),
        );
        sorted@.to_multiset_ensures();
        rs.to_multiset_ensures();
        assert(sorted@.len() == rs.len());
    }
    if n == 0 {
        return None;
    }
    let high = ((3 * (n as u128)) / 4) as usize;
    Some(FeeEstimate { low: sorted[n / 4], median: sorted[n / 2], high: sorted[high] })
}

} // verus!
