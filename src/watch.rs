//! Watchlist of output scripts, and the scan of a block's transactions
//! against it.
use vstd::prelude::*;

verus! {

/// The output scripts of a transaction, in order.
pub type TxScripts = Vec<Vec<u8>>;

/// Scripts as byte sequences.
pub open spec fn scripts_view(v: Seq<Vec<u8>>) -> Seq<Seq<u8>> {
    v.map_values(|s: Vec<u8>| s@)
}

/// Whether some script of `tx` is in `watched`.
pub open spec fn pays_to(watched: Set<Seq<u8>>, tx: Seq<Seq<u8>>) -> bool {
    exists|i: int| 0 <= i < tx.len() && watched.contains(#[trigger] tx[i])
}

/// Positions, in order, of the transactions among the first `n` of `txs` that
/// pay to a script of `watched`.
pub open spec fn matching_upto(watched: Set<Seq<u8>>, txs: Seq<Seq<Seq<u8>>>, n: int) -> Seq<
    usize,
>
    decreases n,
{
    if n <= 0 {
        seq![]
    } else if pays_to(watched, txs[n - 1]) {
        matching_upto(watched, txs, n - 1).push((n - 1) as usize)
    } else {
        matching_upto(watched, txs, n - 1)
    }
}

/// Whether two byte strings are equal.
fn bytes_equal(a: &Vec<u8>, b: &Vec<u8>) -> (r: bool)
    ensures
        r == (a@ == b@),
{
    if a.len() != b.len() {
        return false;
    }
    let mut i: usize = 0;
    while i < a.len()
        invariant
            0 <= i <= a@.len(),
            a@.len() == b@.len(),
            forall|k: int| 0 <= k < i ==> a@[k] == b@[k],
        decreases a@.len() - i,
    {
        if a[i] != b[i] {
            return false;
        }
        i += 1;
    }
    assert(a@ =~= b@);
    true
}

/// A set of output scripts to look for.
pub struct Watchlist {
    scripts: Vec<Vec<u8>>,
}

impl View for Watchlist {
    type V = Set<Seq<u8>>;

    closed spec fn view(&self) -> Set<Seq<u8>> {
        scripts_view(self.scripts@).to_set()
    }
}

impl Watchlist {
    /// An empty watchlist.
    pub fn new() -> (r: Self)
        ensures
            r@ == Set::<Seq<u8>>::empty(),
    {
        let r = Watchlist { scripts: Vec::new() };
        assert(r@ =~= Set::<Seq<u8>>::empty());
        r
    }

    /// Whether `script` is watched.
    pub fn contains(&self, script: &Vec<u8>) -> (r: bool)
        ensures
            r == self@.contains(script@),
    {
        let ghost sv = scripts_view(self.scripts@);
        let mut i: usize = 0;
        while i < self.scripts.len()
            invariant
                0 <= i <= self.scripts@.len(),
                sv == scripts_view(self.scripts@),
                forall|k: int| 0 <= k < i ==> #[trigger] sv[k] != script@,
            decreases self.scripts@.len() - i,
        {
            if bytes_equal(&self.scripts[i], script) {
                assert(sv[i as int] == script@);
                return true;
            }
            i += 1;
        }
        proof {
            if sv.to_set().contains(script@) {
                let k = choose|k: int| 0 <= k < sv.len() && sv[k] == script@;
                assert(sv[k] != script@);
            }
        }
        false
    }

    /// Watch `script` as well.
    pub fn insert(&mut self, script: Vec<u8>)
        ensures
            final(self)@ == old(self)@.insert(script@),
    {
        let ghost before = scripts_view(self.scripts@);
        let ghost s = script@;
        self.scripts.push(script);
        assert(scripts_view(self.scripts@) =~= before.push(s));
        proof {
            let after = before.push(s);
            assert forall|x: Seq<u8>| after.to_set().contains(x) <==> before.to_set().insert(
                s,
            ).contains(x) by {
                if after.to_set().contains(x) {
                    let k = choose|k: int| 0 <= k < after.len() && after[k] == x;
                    if k < before.len() {
                        assert(before[k] == x);
                    }
                }
                if before.to_set().contains(x) {
                    let k = choose|k: int| 0 <= k < before.len() && before[k] == x;
                    assert(after[k] == x);
                }
                if x == s {
                    assert(after[before.len() as int] == x);
                }
            }
            assert(after.to_set() =~= before.to_set().insert(s));
        }
    }

    /// Whether some output script of `tx` is watched.
    pub fn tx_matches(&self, tx: &TxScripts) -> (r: bool)
        ensures
            r == pays_to(self@, scripts_view(tx@)),
    {
        let ghost tv = scripts_view(tx@);
        let mut i: usize = 0;
        while i < tx.len()
            invariant
                0 <= i <= tx@.len(),
                tv == scripts_view(tx@),
                forall|k: int| 0 <= k < i ==> !self@.contains(#[trigger] tv[k]),
            decreases tx@.len() - i,
        {
            if self.contains(&tx[i]) {
                assert(self@.contains(tv[i as int]));
                return true;
            }
            i += 1;
        }
        false
    }

    /// Positions, in order, of the transactions of a block that pay to a
    /// watched script.
    pub fn matching(&self, block: &Vec<TxScripts>) -> (r: Vec<usize>)
        ensures
            r@ == matching_upto(
                self@,
                block@.map_values(|t: TxScripts| scripts_view(t@)),
                block@.len() as int,
            ),
    {
        let ghost bv = block@.map_values(|t: TxScripts| scripts_view(t@));
        let mut r: Vec<usize> = Vec::new();
        let mut i: usize = 0;
        while i < block.len()
            invariant
                0 <= i <= block@.len(),
                bv == block@.map_values(|t: TxScripts| scripts_view(t@)),
                r@ == matching_upto(self@, bv, i as int),
            decreases block@.len() - i,
        {
            assert(bv[i as int] == scripts_view(block@[i as int]@));
            if self.tx_matches(&block[i]) {
                r.push(i);
            }
            i += 1;
        }
        r
    }
}

/// The positions found are those of transactions paying to a watched script.
proof fn lemma_matching_members(watched: Set<Seq<u8>>, txs: Seq<Seq<Seq<u8>>>, n: int, k: int)
    requires
        0 <= k < n <= txs.len(),
        txs.len() <= usize::MAX,
    ensures
        matching_upto(watched, txs, n).contains(k as usize) <==> pays_to(watched, txs[k]),
    decreases n,
{
    let prev = matching_upto(watched, txs, n - 1);
    if k < n - 1 {
        lemma_matching_members(watched, txs, n - 1, k);
        if pays_to(watched, txs[n - 1]) {
            let all = prev.push((n - 1) as usize);
            if prev.contains(k as usize) {
                let j = choose|j: int| 0 <= j < prev.len() && prev[j] == k as usize;
                assert(all[j] == k as usize);
            }
            if all.contains(k as usize) {
                let j = choose|j: int| 0 <= j < all.len() && all[j] == k as usize;
                if j < prev.len() {
                    assert(prev[j] == k as usize);
                }
            }
        }
    } else {
        lemma_matching_below(watched, txs, n - 1);
        if pays_to(watched, txs[n - 1]) {
            let all = prev.push((n - 1) as usize);
            assert(all[prev.len() as int] == k as usize);
        } else if prev.contains(k as usize) {
            let j = choose|j: int| 0 <= j < prev.len() && prev[j] == k as usize;
            assert(prev[j] < n - 1);
        }
    }
}

/// The positions found among the first `n` are below `n`.
proof fn lemma_matching_below(watched: Set<Seq<u8>>, txs: Seq<Seq<Seq<u8>>>, n: int)
    requires
        0 <= n <= txs.len(),
        txs.len() <= usize::MAX,
    ensures
        forall|j: int|
            0 <= j < matching_upto(watched, txs, n).len() ==> #[trigger] matching_upto(
                watched,
                txs,
                n,
            )[j] < n,
    decreases n,
{
    if n > 0 {
        lemma_matching_below(watched, txs, n - 1);
        let prev = matching_upto(watched, txs, n - 1);
        if pays_to(watched, txs[n - 1]) {
            let all = prev.push((n - 1) as usize);
            assert forall|j: int| 0 <= j < all.len() implies #[trigger] all[j] < n by {
                if j < prev.len() {
                    assert(all[j] == prev[j]);
                }
            }
        }
    }
}

/// Watchlist soundness: a transaction of a block with an output script in the
/// watchlist is among the matches of that block, and only such transactions are.
pub proof fn lemma_watch_sound(watched: Set<Seq<u8>>, block: Seq<Seq<Seq<u8>>>, k: int)
    requires
        0 <= k < block.len(),
        block.len() <= usize::MAX,
    ensures
        matching_upto(watched, block, block.len() as int).contains(k as usize) <==> pays_to(
            watched,
            block[k],
        ),
{
    lemma_matching_members(watched, block, block.len() as int, k);
}

} // verus!
