//! Inventory manager: broadcasts the transactions the user submits and
//! follows their confirmation status.
//!
//! A submitted transaction is announced with `inv` to every negotiated peer,
//! and to each peer negotiated later while it is unconfirmed. Once a matched
//! block on the active chain holds it, it is confirmed and no longer announced;
//! when that block leaves the active chain it is reverted and announced again.
use crate::event::{Hash256, Height, TxStatus};
use crate::fsm::PeerId;
use vstd::prelude::*;

verus! {

/// Key of a transaction.
pub type Txid = u64;

/// Where a transaction was confirmed.
#[derive(Clone, Copy, Debug, PartialEq, Eq)]
pub struct Confirmation {
    /// Height of the block.
    pub height: Height,
    /// Hash of the block.
    pub block: Hash256,
}

/// A transaction that the user submitted.
#[derive(Debug)]
pub struct TxRecord {
    /// Its key.
    pub txid: Txid,
    /// Its serialized bytes.
    pub tx: Vec<u8>,
    /// Where it was confirmed, if it was.
    pub confirmed: Option<Confirmation>,
}

/// A transaction record as a mathematical value.
pub struct TxView {
    pub txid: Txid,
    pub tx: Seq<u8>,
    pub confirmed: Option<Confirmation>,
}

impl View for TxRecord {
    type V = TxView;

    open spec fn view(&self) -> TxView {
        TxView { txid: self.txid, tx: self.tx@, confirmed: self.confirmed }
    }
}

/// An action of the inventory manager.
#[derive(Clone, Copy, Debug, PartialEq, Eq)]
pub enum InvOutput {
    /// Announce transaction `txid` to peer `addr` with `inv`.
    Announce { addr: PeerId, txid: Txid },
    /// The status of transaction `txid` changed; it is an event for the client.
    StatusChanged { txid: Txid, status: TxStatus },
}

/// Whether some record of `txs` has key `txid`.
pub open spec fn holds(txs: Seq<TxView>, txid: Txid) -> bool {
    exists|i: int| 0 <= i < txs.len() && #[trigger] txs[i].txid == txid
}

/// Position of the record of `txid` in `txs`.
pub open spec fn slot(txs: Seq<TxView>, txid: Txid) -> int {
    choose|i: int| 0 <= i < txs.len() && #[trigger] txs[i].txid == txid
}

/// No two records share a key.
pub open spec fn txids_unique(txs: Seq<TxView>) -> bool {
    forall|i: int, j: int|
        #![trigger txs[i].txid, txs[j].txid]
        0 <= i < txs.len() && 0 <= j < txs.len() && txs[i].txid == txs[j].txid ==> i == j
}

/// Announcements of `txid` to each of `peers`, in order.
pub open spec fn announce_to(peers: Seq<PeerId>, txid: Txid) -> Seq<InvOutput> {
    Seq::new(peers.len(), |k: int| InvOutput::Announce { addr: peers[k], txid })
}

/// Announcements to `addr` of each unconfirmed transaction of `txs`, in order.
pub open spec fn announce_pending(txs: Seq<TxView>, addr: PeerId) -> Seq<InvOutput>
    decreases txs.len(),
{
    if txs.len() == 0 {
        seq![]
    } else {
        let rest = announce_pending(txs.drop_last(), addr);
        if txs.last().confirmed is None {
            rest.push(InvOutput::Announce { addr, txid: txs.last().txid })
        } else {
            rest
        }
    }
}

/// Whether `t` was confirmed at height `height`.
pub open spec fn confirmed_at(t: TxView, height: Height) -> bool {
    t.confirmed is Some && t.confirmed->0.height == height
}

/// A record after the block at `height` left the active chain.
pub open spec fn reverted(t: TxView, height: Height) -> TxView {
    if confirmed_at(t, height) {
        TxView { confirmed: None, ..t }
    } else {
        t
    }
}

/// Status changes when the block at `height` leaves the active chain: each
/// transaction confirmed there is reverted, in order.
pub open spec fn revert_outputs(txs: Seq<TxView>, height: Height) -> Seq<InvOutput>
    decreases txs.len(),
{
    if txs.len() == 0 {
        seq![]
    } else {
        let rest = revert_outputs(txs.drop_last(), height);
        if confirmed_at(txs.last(), height) {
            rest.push(InvOutput::StatusChanged { txid: txs.last().txid, status: TxStatus::Reverted })
        } else {
            rest
        }
    }
}

/// The inventory manager as a mathematical value.
pub struct InvView {
    /// Submitted transactions, oldest first.
    pub txs: Seq<TxView>,
    /// Outputs not yet drained.
    pub outputs: Seq<InvOutput>,
}

impl InvView {
    /// Transactions are unique by key.
    pub open spec fn wf(self) -> bool {
        txids_unique(self.txs)
    }
}

/// Replacing a record by one of the same key keeps keys unique.
proof fn lemma_update_unique(txs: Seq<TxView>, i: int, t: TxView)
    requires
        txids_unique(txs),
        0 <= i < txs.len(),
        t.txid == txs[i].txid,
    ensures
        txids_unique(txs.update(i, t)),
{
    let news = txs.update(i, t);
    assert forall|a: int, b: int|
        #![trigger news[a].txid, news[b].txid]
        0 <= a < news.len() && 0 <= b < news.len() && news[a].txid == news[b].txid implies a
            == b by {
        assert(news[a].txid == txs[a].txid);
        assert(news[b].txid == txs[b].txid);
    }
}

/// Broadcasts submitted transactions and follows their status.
pub struct InventoryManager {
    txs: Vec<TxRecord>,
    outbox: Vec<InvOutput>,
}

impl View for InventoryManager {
    type V = InvView;

    closed spec fn view(&self) -> InvView {
        InvView { txs: self.txs@.map_values(|t: TxRecord| t@), outputs: self.outbox@ }
    }
}

impl InventoryManager {
    /// A manager with no transactions and no outputs.
    pub fn new() -> (r: Self)
        ensures
            r@.txs == Seq::<TxView>::empty(),
            r@.outputs == Seq::<InvOutput>::empty(),
            r@.wf(),
    {
        let r = InventoryManager { txs: Vec::new(), outbox: Vec::new() };
        assert(r@.txs =~= Seq::<TxView>::empty());
        r
    }

    /// Take the outputs produced so far, oldest first.
    pub fn drain(&mut self) -> (r: Vec<InvOutput>)
        ensures
            r@ == old(self)@.outputs,
            final(self)@.outputs == Seq::<InvOutput>::empty(),
            final(self)@.txs == old(self)@.txs,
    {
        let mut r = Vec::new();
        std::mem::swap(&mut r, &mut self.outbox);
        r
    }

    /// Set the confirmation of the record at position `i`.
    fn set_confirmed(&mut self, i: usize, c: Option<Confirmation>)
        requires
            old(self)@.wf(),
            i < old(self)@.txs.len(),
        ensures
            final(self)@.wf(),
            final(self)@.txs == old(self)@.txs.update(
                i as int,
                TxView { confirmed: c, ..old(self)@.txs[i as int] },
            ),
            final(self)@.outputs == old(self)@.outputs,
    {
        let ghost olds = self@.txs;
        let mut t = self.txs.remove(i);
        t.confirmed = c;
        let ghost tv = t@;
        self.txs.insert(i, t);
        assert(self@.txs =~= olds.update(i as int, tv));
        proof {
            lemma_update_unique(olds, i as int, tv);
        }
    }

    /// Submit transaction `txid` with bytes `tx`, announcing it to each of the
    /// negotiated `peers`. A transaction submitted before is left as it is,
    /// and `false` is returned.
    pub fn submit(&mut self, txid: Txid, tx: Vec<u8>, peers: &Vec<PeerId>) -> (r: bool)
        requires
            old(self)@.wf(),
        ensures
            final(self)@.wf(),
            r == !holds(old(self)@.txs, txid),
            r ==> final(self)@.txs == old(self)@.txs.push(
                TxView { txid, tx: tx@, confirmed: None },
            ),
            r ==> final(self)@.outputs == old(self)@.outputs + announce_to(peers@, txid),
            !r ==> final(self)@ == old(self)@,
    {
        if self.find(txid).is_some() {
            return false;
        }
        let ghost olds = self@.txs;
        let ghost out0 = self@.outputs;
        let record = TxRecord { txid, tx, confirmed: None };
        let ghost tv = record@;
        self.txs.push(record);
        assert(self@.txs =~= olds.push(tv));
        proof {
            let news = self@.txs;
            assert forall|a: int, b: int|
                #![trigger news[a].txid, news[b].txid]
                0 <= a < news.len() && 0 <= b < news.len() && news[a].txid == news[b].txid
                    implies a == b by {
                if a < olds.len() && b < olds.len() {
                    assert(olds[a].txid == olds[b].txid);
                } else if a < olds.len() {
                    assert(olds[a].txid == txid);
                } else if b < olds.len() {
                    assert(olds[b].txid == txid);
                }
            }
        }
        let mut k: usize = 0;
        while k < peers.len()
            invariant
                0 <= k <= peers@.len(),
                self@.wf(),
                self@.txs == olds.push(tv),
                self@.outputs =~= out0 + announce_to(peers@, txid).take(k as int),
            decreases peers@.len() - k,
        {
            self.outbox.push(InvOutput::Announce { addr: peers[k], txid });
            k += 1;
            assert(self@.outputs =~= out0 + announce_to(peers@, txid).take(k as int));
        }
        assert(announce_to(peers@, txid).take(k as int) =~= announce_to(peers@, txid));
        true
    }

    /// A peer was negotiated: every unconfirmed transaction is announced to it.
    pub fn peer_negotiated(&mut self, addr: PeerId)
        requires
            old(self)@.wf(),
        ensures
            final(self)@.wf(),
            final(self)@.txs == old(self)@.txs,
            final(self)@.outputs == old(self)@.outputs + announce_pending(old(self)@.txs, addr),
    {
        let ghost txs = self@.txs;
        let ghost out0 = self@.outputs;
        let mut i: usize = 0;
        while i < self.txs.len()
            invariant
                0 <= i <= txs.len(),
                self@.wf(),
                self@.txs == txs,
                self.txs@.len() == txs.len(),
                self@.outputs == out0 + announce_pending(txs.take(i as int), addr),
            decreases txs.len() - i,
        {
            assert(txs.take(i + 1).drop_last() =~= txs.take(i as int));
            assert(txs.take(i + 1).last() == txs[i as int]);
            if self.txs[i].confirmed.is_none() {
                self.outbox.push(InvOutput::Announce { addr, txid: self.txs[i].txid });
            }
            i += 1;
            assert(self@.outputs =~= out0 + announce_pending(txs.take(i as int), addr));
        }
        assert(txs.take(i as int) =~= txs);
    }

    /// A peer asked for transaction `txid` with `getdata`: its bytes, while it
    /// is unconfirmed.
    pub fn received_getdata(&self, txid: Txid) -> (r: Option<&Vec<u8>>)
        requires
            self@.wf(),
        ensures
            r is Some <==> holds(self@.txs, txid) && self@.txs[slot(self@.txs, txid)].confirmed is None,
            r is Some ==> r->0@ == self@.txs[slot(self@.txs, txid)].tx,
    {
        match self.find(txid) {
            Some(i) => if self.txs[i].confirmed.is_none() {
                Some(&self.txs[i].tx)
            } else {
                None
            },
            None => None,
        }
    }

    /// Transaction `txid` is in the matched block `block` at `height` of the
    /// active chain. An unconfirmed transaction of ours is confirmed there,
    /// its status change is reported, and `true` is returned; anything else
    /// changes nothing.
    pub fn tx_confirmed(&mut self, txid: Txid, height: Height, block: Hash256) -> (r: bool)
        requires
            old(self)@.wf(),
        ensures
            final(self)@.wf(),
            r == (holds(old(self)@.txs, txid) && old(self)@.txs[slot(
                old(self)@.txs,
                txid,
            )].confirmed is None),
            r ==> final(self)@.txs == old(self)@.txs.update(
                slot(old(self)@.txs, txid),
                TxView {
                    confirmed: Some(Confirmation { height, block }),
                    ..old(self)@.txs[slot(old(self)@.txs, txid)]
                },
            ),
            r ==> final(self)@.outputs == old(self)@.outputs.push(
                InvOutput::StatusChanged { txid, status: TxStatus::Confirmed { height, block } },
            ),
            !r ==> final(self)@ == old(self)@,
    {
        match self.find(txid) {
            Some(i) => {
                if self.txs[i].confirmed.is_some() {
                    return false;
                }
                self.set_confirmed(i, Some(Confirmation { height, block }));
                self.outbox.push(
                    InvOutput::StatusChanged { txid, status: TxStatus::Confirmed { height, block } },
                );
                true
            },
            None => false,
        }
    }

    /// The block at `height` left the active chain: each transaction confirmed
    /// there is reverted, reported, and announced again to peers negotiated
    /// from now on.
    pub fn block_disconnected(&mut self, height: Height)
        requires
            old(self)@.wf(),
        ensures
            final(self)@.wf(),
            final(self)@.txs.len() == old(self)@.txs.len(),
            forall|k: int|
                0 <= k < old(self)@.txs.len() ==> #[trigger] final(self)@.txs[k] == reverted(
                    old(self)@.txs[k],
                    height,
                ),
            final(self)@.outputs == old(self)@.outputs + revert_outputs(old(self)@.txs, height),
    {
        let ghost txs = self@.txs;
        let ghost out0 = self@.outputs;
        let n = self.txs.len();
        let mut i: usize = 0;
        while i < n
            invariant
                0 <= i <= n,
                n == txs.len(),
                self@.wf(),
                self@.txs.len() == n,
                self.txs@.len() == n,
                forall|k: int| 0 <= k < i ==> #[trigger] self@.txs[k] == reverted(txs[k], height),
                forall|k: int| i <= k < n ==> #[trigger] self@.txs[k] == txs[k],
                self@.outputs == out0 + revert_outputs(txs.take(i as int), height),
            decreases n - i,
        {
            assert(txs.take(i + 1).drop_last() =~= txs.take(i as int));
            assert(txs.take(i + 1).last() == txs[i as int]);
            let ghost prev_out = self@.outputs;
            assert(self@.txs[i as int] == txs[i as int]);
            assert(self.txs@[i as int]@ == self@.txs[i as int]);
            let at_height = match self.txs[i].confirmed {
                Some(c) => c.height == height,
                None => false,
            };
            assert(at_height == confirmed_at(txs[i as int], height));
            if at_height {
                let txid = self.txs[i].txid;
                self.set_confirmed(i, None);
                self.outbox.push(InvOutput::StatusChanged { txid, status: TxStatus::Reverted });
                assert(self@.txs[i as int] =~= reverted(txs[i as int], height));
                assert(self@.outputs == prev_out.push(
                    InvOutput::StatusChanged { txid: txs[i as int].txid, status: TxStatus::Reverted },
                ));
            } else {
                assert(self@.outputs == prev_out);
            }
            assert(self.txs@.len() == self@.txs.len());
            i += 1;
            assert(self@.outputs =~= out0 + revert_outputs(txs.take(i as int), height));
        }
        assert(txs.take(i as int) =~= txs);
    }

    /// Position of the record of `txid`, if any.
    fn find(&self, txid: Txid) -> (r: Option<usize>)
        requires
            self@.wf(),
        ensures
            r is Some <==> holds(self@.txs, txid),
            r is Some ==> r->0 == slot(self@.txs, txid),
    {
        let mut i: usize = 0;
        while i < self.txs.len()
            invariant
                0 <= i <= self.txs.len(),
                self@.wf(),
                self@.txs.len() == self.txs.len(),
                forall|k: int| 0 <= k < i ==> #[trigger] self@.txs[k].txid != txid,
            decreases self.txs.len() - i,
        {
            if self.txs[i].txid == txid {
                proof {
                    let j = slot(self@.txs, txid);
                    assert(self@.txs[i as int].txid == txid);
                    assert(holds(self@.txs, txid));
                    assert(self@.txs[j].txid == self@.txs[i as int].txid);
                }
                return Some(i);
            }
            i += 1;
        }
        None
    }
}

} // verus!
