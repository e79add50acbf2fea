//! Cross-checking compact-filter headers from independent peers.
//!
//! Filter headers for a range are committed only once two distinct peers
//! returned them and agree at every height that both responses cover. When
//! they disagree at any such height, both peers are penalized and neither
//! response is committed.
use crate::fsm::PeerId;
use vstd::prelude::*;

verus! {

/// A filter header.
pub type FilterHeader = u64;

/// A peer's `cfheaders` response: the filter headers from height `start` on.
#[derive(Clone, Debug)]
pub struct CfResponse {
    /// The peer that answered.
    pub peer: PeerId,
    /// Height of the first header.
    pub start: u64,
    /// The headers, one per height.
    pub headers: Vec<FilterHeader>,
}

/// What two responses decide.
#[derive(Clone, Copy, Debug, PartialEq, Eq, Structural)]
pub enum Judgement {
    /// Distinct peers agree: the headers can be committed.
    Confirmed,
    /// Both responses come from the same peer: no confirmation yet.
    NotIndependent,
    /// The responses disagree, first at `height`: penalize both peers and
    /// commit neither response.
    Diverged { first: PeerId, second: PeerId, height: u64 },
}

/// Whether the responses (`sa`, `a`) and (`sb`, `b`) differ at height `h`,
/// which both cover.
pub open spec fn differ_at(sa: int, a: Seq<FilterHeader>, sb: int, b: Seq<FilterHeader>, h: int) -> bool {
    &&& sa <= h < sa + a.len()
    &&& sb <= h < sb + b.len()
    &&& a[h - sa] != b[h - sb]
}

/// The responses differ at some height that both cover.
pub open spec fn diverge(sa: int, a: Seq<FilterHeader>, sb: int, b: Seq<FilterHeader>) -> bool {
    exists|h: int| differ_at(sa, a, sb, b, h)
}

/// Lowest height at which the responses (`a_start`, `a`) and
/// (`b_start`, `b`) differ, if any.
pub fn first_divergence(a_start: u64, a: &Vec<FilterHeader>, b_start: u64, b: &Vec<FilterHeader>) -> (r:
    Option<u64>)
    requires
        a_start + a@.len() <= u64::MAX,
        b_start + b@.len() <= u64::MAX,
    ensures
        r is None <==> !diverge(a_start as int, a@, b_start as int, b@),
        r is Some ==> differ_at(a_start as int, a@, b_start as int, b@, r->0 as int) && forall|
            h: int,
        |
            #![trigger differ_at(a_start as int, a@, b_start as int, b@, h)]
            h < r->0 ==> !differ_at(a_start as int, a@, b_start as int, b@, h),
{
    let lo: u64 = if a_start >= b_start {
        a_start
    } else {
        b_start
    };
    if lo - a_start >= a.len() as u64 || lo - b_start >= b.len() as u64 {
        proof {
            assert forall|h: int| !differ_at(a_start as int, a@, b_start as int, b@, h) by {}
        }
        return None;
    }
    let ia: usize = (lo - a_start) as usize;
    let ib: usize = (lo - b_start) as usize;
    let mut k: usize = 0;
    assert(a@.len() == a.len() && b@.len() == b.len());
    while ia + k < a.len() && ib + k < b.len()
        invariant
            ia as int == lo - a_start,
            ib as int == lo - b_start,
            lo == a_start || lo == b_start,
            lo >= a_start && lo >= b_start,
            ia < a@.len() && ib < b@.len(),
            ia + k <= a@.len() && ib + k <= b@.len(),
            a@.len() <= usize::MAX && b@.len() <= usize::MAX,
            a_start + a@.len() <= u64::MAX,
            forall|h: int|
                #![trigger differ_at(a_start as int, a@, b_start as int, b@, h)]
                h < lo + k ==> !differ_at(a_start as int, a@, b_start as int, b@, h),
        decreases a@.len() - (ia + k),
    {
        if a[ia + k] != b[ib + k] {
            let h = lo as u128 + k as u128;
            assert(differ_at(a_start as int, a@, b_start as int, b@, h as int));
            assert(h <= u64::MAX) by {
                assert(h == a_start + (ia + k));
                assert(a_start + (ia + k) < a_start + a@.len());
            }
            return Some(h as u64);
        }
        k += 1;
    }
    proof {
        assert forall|h: int| !differ_at(a_start as int, a@, b_start as int, b@, h) by {
            if h >= lo + k {
                assert(!(h < a_start + a@.len() && h < b_start + b@.len()));
            }
        }
    }
    None
}

/// Judge two responses for the same range: distinct peers that agree at every
/// shared height confirm it; any disagreement penalizes both; one peer alone
/// confirms nothing.
pub fn judge(first: &CfResponse, second: &CfResponse) -> (r: Judgement)
    requires
        first.start + first.headers@.len() <= u64::MAX,
        second.start + second.headers@.len() <= u64::MAX,
    ensures
        diverge(first.start as int, first.headers@, second.start as int, second.headers@) ==> (
        r is Diverged && r->first == first.peer && r->second == second.peer && differ_at(
            first.start as int,
            first.headers@,
            second.start as int,
            second.headers@,
            r->height as int,
        )),
        !diverge(first.start as int, first.headers@, second.start as int, second.headers@) ==> r
            == if first.peer == second.peer {
            Judgement::NotIndependent
        } else {
            Judgement::Confirmed
        },
{
    match first_divergence(first.start, &first.headers, second.start, &second.headers) {
        Some(height) => Judgement::Diverged { first: first.peer, second: second.peer, height },
        None => if first.peer == second.peer {
            Judgement::NotIndependent
        } else {
            Judgement::Confirmed
        },
    }
}

} // verus!
