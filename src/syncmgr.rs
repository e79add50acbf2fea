//! Header synchronization: choosing the sync peer and building locators.
use crate::chain::{BlockKey, BlockTree};
use crate::fsm::PeerId;
use crate::net::Link;
use crate::peermgr::{HandshakeState, PeerRecord, NETWORK};
use vstd::prelude::*;

verus! {

/// Number of locator entries taken one height apart before the step doubles.
pub const LOCATOR_DENSE: u64 = 10;

/// Number of entries counted toward `LOCATOR_DENSE` after one more.
pub open spec fn counted(count: u64) -> u64 {
    if count < LOCATOR_DENSE {
        (count + 1) as u64
    } else {
        count
    }
}

/// Heights of a locator from height `h`, with `count` entries before it
/// (counted up to `LOCATOR_DENSE`) and the current `step`: every height down
/// to genesis, one apart for the first `LOCATOR_DENSE` entries, then with a
/// step that doubles after each entry.
pub open spec fn locator_from(h: u64, step: u64, count: u64) -> Seq<u64>
    decreases h,
{
    if h == 0 || step == 0 {
        seq![h]
    } else {
        let next = if h >= step {
            (h - step) as u64
        } else {
            0
        };
        let step2 = if count + 1 >= LOCATOR_DENSE {
            if step <= u64::MAX / 2 {
                (step * 2) as u64
            } else {
                u64::MAX
            }
        } else {
            step
        };
        seq![h] + locator_from(next, step2, counted(count))
    }
}

/// Keys of `active` at heights `hs`.
pub open spec fn keys_at(active: Seq<BlockKey>, hs: Seq<u64>) -> Seq<BlockKey> {
    hs.map_values(|h: u64| active[h as int])
}

/// Heights of the locator of a chain whose tip is at `tip`.
pub open spec fn locator_heights(tip: u64) -> Seq<u64> {
    locator_from(tip, 1, 0)
}

/// Whether `p` may serve headers to sync from: negotiated, outbound, offering
/// full blocks, and claiming a height above `tip`.
pub open spec fn can_sync_from(p: PeerRecord, tip: u64) -> bool {
    match p.state {
        HandshakeState::Negotiated { remote } => p.link == Link::Outbound && remote.services
            & NETWORK == NETWORK && remote.start_height > tip,
        _ => false,
    }
}

/// Claimed height of `p`, zero unless negotiated.
pub open spec fn claimed_height(p: PeerRecord) -> u64 {
    match p.state {
        HandshakeState::Negotiated { remote } => remote.start_height,
        _ => 0,
    }
}

/// Heights of a locator for a chain whose tip is at `tip`, from the tip down.
pub fn locator(tip: u64) -> (r: Vec<u64>)
    ensures
        r@ == locator_heights(tip),
{
    let mut r: Vec<u64> = Vec::new();
    let mut h = tip;
    let mut step: u64 = 1;
    let mut count: u64 = 0;
    loop
        invariant
            step >= 1,
            count <= LOCATOR_DENSE,
            r@ + locator_from(h, step, count) == locator_heights(tip),
        decreases h,
    {
        let ghost before = r@;
        r.push(h);
        if h == 0 {
            assert(r@ =~= before + locator_from(h, step, count));
            return r;
        }
        let next = if h >= step {
            h - step
        } else {
            0
        };
        let step2 = if count + 1 >= LOCATOR_DENSE {
            if step <= u64::MAX / 2 {
                step * 2
            } else {
                u64::MAX
            }
        } else {
            step
        };
        let count2 = if count < LOCATOR_DENSE {
            count + 1
        } else {
            count
        };
        assert(locator_from(h, step, count) == seq![h] + locator_from(next, step2, count2));
        assert(before + (seq![h] + locator_from(next, step2, count2)) =~= r@ + locator_from(
            next,
            step2,
            count2,
        ));
        h = next;
        step = step2;
        count = count2;
    }
}

/// The active chain's keys at the locator heights of `tree`, from the tip down.
pub fn locator_keys(tree: &BlockTree) -> (r: Vec<BlockKey>)
    requires
        tree@.wf(),
    ensures
        r@ == keys_at(tree@.active, locator_heights(tree@.height() as u64)),
{
    let heights = locator(tree.height());
    let active = tree.active();
    let ghost hs = heights@;
    let mut r: Vec<BlockKey> = Vec::new();
    let mut i: usize = 0;
    proof {
        lemma_locator_bounded(tree@.height() as u64, 1, 0);
    }
    while i < heights.len()
        invariant
            0 <= i <= hs.len(),
            hs == heights@,
            hs == locator_heights(tree@.height() as u64),
            active@ == tree@.active,
            tree@.height() == active@.len() - 1,
            forall|k: int| 0 <= k < hs.len() ==> #[trigger] hs[k] <= tree@.height(),
            r@ == keys_at(tree@.active, hs.take(i as int)),
        decreases hs.len() - i,
    {
        assert(hs[i as int] <= tree@.height());
        assert(active@.len() == active.len());
        let ghost before = r@;
        let hi = heights[i] as usize;
        r.push(active[hi]);
        assert(r@ == before.push(tree@.active[hs[i as int] as int]));
        assert(keys_at(tree@.active, hs.take(i + 1)) =~= keys_at(tree@.active, hs.take(i as int)).push(
            tree@.active[hs[i as int] as int],
        ));
        i += 1;
    }
    assert(hs.take(i as int) =~= hs);
    r
}

/// Every height of a locator from `h` is at most `h`.
proof fn lemma_locator_bounded(h: u64, step: u64, count: u64)
    ensures
        forall|k: int|
            0 <= k < locator_from(h, step, count).len() ==> #[trigger] locator_from(
                h,
                step,
                count,
            )[k] <= h,
    decreases h,
{
    if h != 0 && step != 0 {
        let next = if h >= step {
            (h - step) as u64
        } else {
            0
        };
        let step2 = if count + 1 >= LOCATOR_DENSE {
            if step <= u64::MAX / 2 {
                (step * 2) as u64
            } else {
                u64::MAX
            }
        } else {
            step
        };
        lemma_locator_bounded(next, step2, counted(count));
        let rest = locator_from(next, step2, counted(count));
        let all = seq![h] + rest;
        assert forall|k: int| 0 <= k < all.len() implies #[trigger] all[k] <= h by {
            if k > 0 {
                assert(all[k] == rest[k - 1]);
            }
        }
    }
}

/// Position of the peer to sync from among the first `n` of `peers`: one that
/// `can_sync_from` with the greatest claimed height, the first among equals.
pub open spec fn sync_choice(peers: Seq<PeerRecord>, tip: u64, n: int) -> Option<int>
    decreases n,
{
    if n <= 0 {
        None
    } else {
        let best = sync_choice(peers, tip, n - 1);
        let p = peers[n - 1];
        if !can_sync_from(p, tip) {
            best
        } else {
            match best {
                Some(b) => if claimed_height(p) > claimed_height(peers[b]) {
                    Some(n - 1)
                } else {
                    Some(b)
                },
                None => Some(n - 1),
            }
        }
    }
}

/// The peer to sync headers from, given our tip height: the negotiated
/// outbound peer offering full blocks with the greatest claimed height above
/// the tip, the first among equals; none when no peer is ahead of us.
pub fn sync_peer(peers: &Vec<PeerRecord>, tip: u64) -> (r: Option<PeerId>)
    ensures
        r == match sync_choice(peers@, tip, peers@.len() as int) {
            Some(i) => Some(peers@[i].addr),
            None => None::<PeerId>,
        },
{
    let mut best: Option<usize> = None;
    let mut best_height: u64 = 0;
    let mut i: usize = 0;
    while i < peers.len()
        invariant
            0 <= i <= peers@.len(),
            best == match sync_choice(peers@, tip, i as int) {
                Some(b) => Some(b as usize),
                None => None::<usize>,
            },
            forall|b: int| sync_choice(peers@, tip, i as int) == Some(b) ==> 0 <= b < i && best_height
                == claimed_height(peers@[b]),
        decreases peers@.len() - i,
    {
        let p = peers[i];
        let eligible = match p.state {
            HandshakeState::Negotiated { remote } => p.link == Link::Outbound && remote.services
                & NETWORK == NETWORK && remote.start_height > tip,
            _ => false,
        };
        let height = match p.state {
            HandshakeState::Negotiated { remote } => remote.start_height,
            _ => 0,
        };
        if eligible {
            match best {
                Some(_) => {
                    if height > best_height {
                        best = Some(i);
                        best_height = height;
                    }
                },
                None => {
                    best = Some(i);
                    best_height = height;
                },
            }
        }
        i += 1;
    }
    match best {
        Some(b) => Some(peers[b].addr),
        None => None,
    }
}

} // verus!
