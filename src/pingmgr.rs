//! Ping manager.
//!
//! Detects dead peer connections and responds to peer `ping` messages,
//! after BIP 0031.
use crate::fsm::{random_nonce, DisconnectReason, Output, PeerId, Timeout};
use crate::time::{elapsed, elapsed_spec, LocalDuration, LocalTime, MINUTE, SECOND};
use vstd::prelude::*;

verus! {

/// Time interval to wait between sent pings.
pub const PING_INTERVAL: LocalDuration = 2 * MINUTE;

/// Time to wait to receive a pong when sending a ping.
pub const PING_TIMEOUT: LocalDuration = 30 * SECOND;

/// Maximum number of latencies recorded per peer.
pub const MAX_RECORDED_LATENCIES: usize = 64;

/// Ping state of one peer.
#[derive(Clone, Copy, Debug, PartialEq, Eq, Structural)]
pub enum State {
    /// A `ping` with this nonce was sent at `since`, and no matching `pong` came yet.
    AwaitingPong { nonce: u64, since: LocalTime },
    /// The last matching `pong` came at `since`.
    Idle { since: LocalTime },
}

/// Ping record of one peer.
#[derive(Debug)]
pub struct Peer {
    /// The peer.
    pub address: PeerId,
    /// Where the peer stands in the ping exchange.
    pub state: State,
    /// Observed round-trip latencies for this peer, the newest first.
    pub latencies: Vec<LocalDuration>,
}

/// A peer record as a mathematical value.
pub struct PeerView {
    pub address: PeerId,
    pub state: State,
    pub latencies: Seq<LocalDuration>,
}

impl View for Peer {
    type V = PeerView;

    open spec fn view(&self) -> PeerView {
        PeerView { address: self.address, state: self.state, latencies: self.latencies@ }
    }
}

impl Peer {
    /// Record a round-trip latency sample, dropping the oldest beyond
    /// `MAX_RECORDED_LATENCIES`.
    fn record_latency(&mut self, sample: LocalDuration)
        ensures
            final(self)@ == (PeerView {
                address: old(self)@.address,
                state: old(self)@.state,
                latencies: recorded(old(self)@.latencies, sample),
            }),
    {
        let ghost before = self.latencies@;
        self.latencies.insert(0, sample);
        assert(self.latencies@ =~= seq![sample] + before);
        let ghost all = self.latencies@;
        self.latencies.truncate(MAX_RECORDED_LATENCIES);
        assert(self.latencies@ =~= recorded(before, sample)) by {
            if all.len() <= MAX_RECORDED_LATENCIES {
                assert(all.subrange(0, all.len() as int) =~= all);
            }
        }
    }
}

/// The ping manager as a mathematical value: its peers in the order they were
/// added, the outputs not yet drained, and the time it waits for a `pong`.
pub struct PingView {
    pub peers: Seq<PeerView>,
    pub outputs: Seq<Output>,
    pub ping_timeout: LocalDuration,
}

/// Time at which a ping state began.
pub open spec fn since_of(s: State) -> LocalTime {
    match s {
        State::AwaitingPong { since, .. } => since,
        State::Idle { since } => since,
    }
}

/// Nonce of the outstanding `ping`, or zero when none is.
pub open spec fn nonce_of(s: State) -> u64 {
    match s {
        State::AwaitingPong { nonce, .. } => nonce,
        State::Idle { .. } => 0,
    }
}

/// Whether some peer of `peers` has address `addr`.
pub open spec fn has_peer(peers: Seq<PeerView>, addr: PeerId) -> bool {
    exists|i: int| 0 <= i < peers.len() && #[trigger] peers[i].address == addr
}

/// Position of the peer with address `addr` in `peers`.
pub open spec fn index_of(peers: Seq<PeerView>, addr: PeerId) -> int {
    choose|i: int| 0 <= i < peers.len() && #[trigger] peers[i].address == addr
}

/// No two peers share an address.
pub open spec fn unique(peers: Seq<PeerView>) -> bool {
    forall|i: int, j: int|
        #![trigger peers[i].address, peers[j].address]
        0 <= i < peers.len() && 0 <= j < peers.len() && peers[i].address == peers[j].address
            ==> i == j
}

/// Latency samples after recording `sample`: newest first, at most
/// `MAX_RECORDED_LATENCIES` of them.
pub open spec fn recorded(latencies: Seq<LocalDuration>, sample: LocalDuration) -> Seq<LocalDuration> {
    let all = seq![sample] + latencies;
    if all.len() > MAX_RECORDED_LATENCIES {
        all.take(MAX_RECORDED_LATENCIES as int)
    } else {
        all
    }
}

/// A peer after a matching `pong` at `now`.
pub open spec fn after_pong(p: PeerView, now: LocalTime) -> PeerView {
    PeerView {
        address: p.address,
        state: State::Idle { since: now },
        latencies: recorded(p.latencies, elapsed_spec(now, since_of(p.state))),
    }
}

/// Whether a `pong` from `addr` with `nonce` answers the outstanding `ping`.
pub open spec fn pong_matches(peers: Seq<PeerView>, addr: PeerId, nonce: u64) -> bool {
    has_peer(peers, addr) && peers[index_of(peers, addr)].state is AwaitingPong && nonce_of(
        peers[index_of(peers, addr)].state,
    ) == nonce
}

/// `peers` with `p` in place of the peer of the same address, or `p` added at
/// the end when there is none.
pub open spec fn put_peer(peers: Seq<PeerView>, p: PeerView) -> Seq<PeerView> {
    if has_peer(peers, p.address) {
        peers.update(index_of(peers, p.address), p)
    } else {
        peers.push(p)
    }
}

/// `peers` without the peer of address `addr`, order kept.
pub open spec fn without_peer(peers: Seq<PeerView>, addr: PeerId) -> Seq<PeerView> {
    if has_peer(peers, addr) {
        peers.remove(index_of(peers, addr))
    } else {
        peers
    }
}

/// A peer that waits for a `pong` and has waited `timeout` or longer by `now`.
pub open spec fn ping_expired(p: PeerView, now: LocalTime, timeout: LocalDuration) -> bool {
    p.state is AwaitingPong && elapsed_spec(now, since_of(p.state)) >= timeout
}

/// An idle peer due for a new `ping` at `now`.
pub open spec fn ping_due(p: PeerView, now: LocalTime) -> bool {
    p.state is Idle && elapsed_spec(now, since_of(p.state)) >= PING_INTERVAL
}

/// How a wake at `now` turns peer `o` into `n`: a peer due for a ping waits for
/// a pong since `now`, with a fresh nonce; any other keeps its state.
pub open spec fn wake_step(o: PeerView, n: PeerView, now: LocalTime) -> bool {
    &&& n.address == o.address
    &&& n.latencies == o.latencies
    &&& if ping_due(o, now) {
        n.state is AwaitingPong && since_of(n.state) == now
    } else {
        n.state == o.state
    }
}

/// The output that disconnects `addr` for not answering a `ping` in time.
pub open spec fn ping_timeout_disconnect(addr: PeerId) -> Output {
    Output::Disconnect { addr, reason: DisconnectReason::PeerTimeout(Timeout::Ping) }
}

/// Outputs of a wake at `now` for peer `o`, which became `n`.
pub open spec fn peer_wake_outputs(
    o: PeerView,
    n: PeerView,
    now: LocalTime,
    timeout: LocalDuration,
) -> Seq<Output> {
    if ping_expired(o, now, timeout) {
        seq![ping_timeout_disconnect(o.address)]
    } else if ping_due(o, now) {
        seq![
            Output::Ping { addr: o.address, nonce: nonce_of(n.state) },
            Output::Wakeup(timeout),
            Output::Wakeup(PING_INTERVAL),
        ]
    } else {
        seq![]
    }
}

/// Outputs of a wake at `now` over all peers `olds`, which became `news`, in order.
pub open spec fn wake_outputs(
    olds: Seq<PeerView>,
    news: Seq<PeerView>,
    now: LocalTime,
    timeout: LocalDuration,
) -> Seq<Output>
    decreases olds.len(),
{
    if olds.len() == 0 || news.len() == 0 {
        seq![]
    } else {
        wake_outputs(olds.drop_last(), news.drop_last(), now, timeout) + peer_wake_outputs(
            olds.last(),
            news.last(),
            now,
            timeout,
        )
    }
}

impl PingView {
    /// Peers are unique by address and keep at most `MAX_RECORDED_LATENCIES` samples.
    pub open spec fn wf(self) -> bool {
        &&& unique(self.peers)
        &&& forall|i: int|
            0 <= i < self.peers.len() ==> #[trigger] self.peers[i].latencies.len()
                <= MAX_RECORDED_LATENCIES
    }

    /// `new` is `self` after `peer_negotiated(addr)` at `now` that drew `nonce`.
    pub open spec fn negotiated(self, new: PingView, addr: PeerId, nonce: u64, now: LocalTime) -> bool {
        &&& new.ping_timeout == self.ping_timeout
        &&& new.outputs == self.outputs.push(Output::Ping { addr, nonce })
        &&& new.peers == put_peer(
            self.peers,
            PeerView {
                address: addr,
                state: State::AwaitingPong { nonce, since: now },
                latencies: seq![],
            },
        )
    }

    /// `new` is `self` after `received_wake` at `now`.
    pub open spec fn woken(self, new: PingView, now: LocalTime) -> bool {
        &&& new.ping_timeout == self.ping_timeout
        &&& new.peers.len() == self.peers.len()
        &&& forall|i: int|
            0 <= i < self.peers.len() ==> wake_step(self.peers[i], #[trigger] new.peers[i], now)
        &&& new.outputs == self.outputs + wake_outputs(self.peers, new.peers, now, self.ping_timeout)
    }
}

/// The outputs that `new` holds beyond those of `old`.
pub open spec fn new_outputs(old: PingView, new: PingView) -> Seq<Output> {
    new.outputs.subrange(old.outputs.len() as int, new.outputs.len() as int)
}

/// A wake disconnects `a` for a ping timeout exactly when some peer of address
/// `a` has waited for its `pong` for `timeout` or longer.
proof fn lemma_wake_outputs_disconnect(
    olds: Seq<PeerView>,
    news: Seq<PeerView>,
    now: LocalTime,
    timeout: LocalDuration,
    a: PeerId,
)
    requires
        olds.len() == news.len(),
    ensures
        wake_outputs(olds, news, now, timeout).contains(ping_timeout_disconnect(a)) <==> exists|
            k: int,
        |
            0 <= k < olds.len() && #[trigger] olds[k].address == a && ping_expired(
                olds[k],
                now,
                timeout,
            ),
    decreases olds.len(),
{
    let x = ping_timeout_disconnect(a);
    if olds.len() > 0 {
        let ol = olds.drop_last();
        let nl = news.drop_last();
        lemma_wake_outputs_disconnect(ol, nl, now, timeout, a);
        let w = wake_outputs(ol, nl, now, timeout);
        let p = peer_wake_outputs(olds.last(), news.last(), now, timeout);
        let last = olds.len() - 1;
        assert(wake_outputs(olds, news, now, timeout) == w + p);
        if (w + p).contains(x) {
            let j = choose|j: int| 0 <= j < (w + p).len() && (w + p)[j] == x;
            if j < w.len() {
                assert(w[j] == x);
                assert(w.contains(x));
                let k = choose|k: int|
                    0 <= k < ol.len() && #[trigger] ol[k].address == a && ping_expired(
                        ol[k],
                        now,
                        timeout,
                    );
                assert(olds[k] == ol[k]);
            } else {
                assert(p[j - w.len()] == x);
                assert(olds[last].address == a);
            }
        }
        if exists|k: int|
            0 <= k < olds.len() && #[trigger] olds[k].address == a && ping_expired(
                olds[k],
                now,
                timeout,
            ) {
            let k = choose|k: int|
                0 <= k < olds.len() && #[trigger] olds[k].address == a && ping_expired(
                    olds[k],
                    now,
                    timeout,
                );
            if k < last {
                assert(ol[k] == olds[k]);
                assert(ol[k].address == a);
                assert(w.contains(x));
                let j = choose|j: int| 0 <= j < w.len() && w[j] == x;
                assert((w + p)[j] == x);
            } else {
                assert(p[0] == x);
                assert((w + p)[w.len() as int] == x);
            }
        }
    }
}

/// A wake disconnects a peer for a ping timeout exactly when the peer waits for
/// a `pong` and has waited the ping timeout or longer; while its `pong` is not
/// yet overdue, it is not disconnected.
pub proof fn lemma_wake_disconnects_overdue(m: PingView, m2: PingView, i: int, now: LocalTime)
    requires
        m.wf(),
        m.woken(m2, now),
        0 <= i < m.peers.len(),
    ensures
        new_outputs(m, m2).contains(ping_timeout_disconnect(m.peers[i].address)) <==> ping_expired(
            m.peers[i],
            now,
            m.ping_timeout,
        ),
{
    let a = m.peers[i].address;
    lemma_wake_outputs_disconnect(m.peers, m2.peers, now, m.ping_timeout, a);
    assert(new_outputs(m, m2) =~= wake_outputs(m.peers, m2.peers, now, m.ping_timeout));
    if exists|k: int|
        0 <= k < m.peers.len() && #[trigger] m.peers[k].address == a && ping_expired(
            m.peers[k],
            now,
            m.ping_timeout,
        ) {
        let k = choose|k: int|
            0 <= k < m.peers.len() && #[trigger] m.peers[k].address == a && ping_expired(
                m.peers[k],
                now,
                m.ping_timeout,
            );
        assert(m.peers[k].address == m.peers[i].address);
    }
}

/// After `peer_negotiated` sent a `ping` at `sent`, with no `pong` since, the
/// next wake disconnects the peer for a ping timeout exactly when it comes the
/// ping timeout or longer after `sent`.
pub proof fn lemma_ping_timeout(
    m0: PingView,
    m1: PingView,
    m2: PingView,
    addr: PeerId,
    nonce: u64,
    sent: LocalTime,
    now: LocalTime,
)
    requires
        m0.wf(),
        m1.wf(),
        m0.negotiated(m1, addr, nonce, sent),
        m1.woken(m2, now),
    ensures
        new_outputs(m1, m2).contains(ping_timeout_disconnect(addr)) <==> elapsed_spec(now, sent)
            >= m1.ping_timeout,
{
    let i = if has_peer(m0.peers, addr) {
        index_of(m0.peers, addr)
    } else {
        m0.peers.len() as int
    };
    if has_peer(m0.peers, addr) {
        assert(m0.peers[index_of(m0.peers, addr)].address == addr);
    }
    assert(m1.peers[i].address == addr);
    assert(m1.peers[i].state == State::AwaitingPong { nonce, since: sent });
    lemma_wake_disconnects_overdue(m1, m2, i, now);
}

/// Detects dead peer connections.
pub struct PingManager {
    peers: Vec<Peer>,
    ping_timeout: LocalDuration,
    rng: fastrand::Rng,
    outbox: Vec<Output>,
}

impl View for PingManager {
    type V = PingView;

    closed spec fn view(&self) -> PingView {
        PingView {
            peers: self.peers@.map_values(|p: Peer| p@),
            outputs: self.outbox@,
            ping_timeout: self.ping_timeout,
        }
    }
}

impl PingManager {
    /// Create a new ping manager, with no peers and no outputs.
    pub fn new(ping_timeout: LocalDuration, rng: fastrand::Rng) -> (r: Self)
        ensures
            r@.peers == Seq::<PeerView>::empty(),
            r@.outputs == Seq::<Output>::empty(),
            r@.ping_timeout == ping_timeout,
            r@.wf(),
    {
        let r = PingManager { peers: Vec::new(), ping_timeout, rng, outbox: Vec::new() };
        assert(r@.peers =~= Seq::<PeerView>::empty());
        r
    }

    /// Position of the peer with address `addr`, if any.
    fn position(&self, addr: PeerId) -> (r: Option<usize>)
        requires
            self@.wf(),
        ensures
            r is Some <==> has_peer(self@.peers, addr),
            r is Some ==> r->0 == index_of(self@.peers, addr),
    {
        let mut i: usize = 0;
        while i < self.peers.len()
            invariant
                0 <= i <= self.peers.len(),
                self@.wf(),
                self@.peers.len() == self.peers.len(),
                forall|k: int| 0 <= k < i ==> #[trigger] self@.peers[k].address != addr,
            decreases self.peers.len() - i,
        {
            if self.peers[i].address == addr {
                proof {
                    let j = index_of(self@.peers, addr);
                    assert(self@.peers[i as int].address == addr);
                    assert(has_peer(self@.peers, addr));
                    assert(self@.peers[j].address == self@.peers[i as int].address);
                }
                return Some(i);
            }
            i += 1;
        }
        None
    }

    /// Take the outputs produced so far, oldest first.
    pub fn drain(&mut self) -> (r: Vec<Output>)
        ensures
            r@ == old(self)@.outputs,
            final(self)@.outputs == Seq::<Output>::empty(),
            final(self)@.peers == old(self)@.peers,
            final(self)@.ping_timeout == old(self)@.ping_timeout,
    {
        let mut r = Vec::new();
        std::mem::swap(&mut r, &mut self.outbox);
        r
    }

    /// Called when a peer is negotiated, with `nonce` drawn for its first `ping`:
    /// the `ping` is sent, and the peer waits for a `pong` since `now`, with no
    /// latency samples.
    pub fn peer_negotiated_with(&mut self, address: PeerId, nonce: u64, now: LocalTime)
        requires
            old(self)@.wf(),
        ensures
            final(self)@.wf(),
            old(self)@.negotiated(final(self)@, address, nonce, now),
    {
        self.outbox.push(Output::Ping { addr: address, nonce });
        let peer = Peer {
            address,
            state: State::AwaitingPong { nonce, since: now },
            latencies: Vec::new(),
        };
        let ghost pv = peer@;
        let ghost olds = old(self)@.peers;
        match self.position(address) {
            Some(i) => {
                self.peers.set(i, peer);
                assert(self@.peers =~= olds.update(i as int, pv));
            },
            None => {
                self.peers.push(peer);
                assert(self@.peers =~= olds.push(pv));
            },
        }
        assert(pv.latencies =~= Seq::<LocalDuration>::empty());
        proof {
            let news = self@.peers;
            assert forall|a: int, b: int|
                #![trigger news[a].address, news[b].address]
                0 <= a < news.len() && 0 <= b < news.len() && news[a].address == news[b].address
                    implies a == b by {
                if a < olds.len() && news[a].address != olds[a].address {
                    assert(olds[index_of(olds, address)].address == address);
                }
                if b < olds.len() && news[b].address != olds[b].address {
                    assert(olds[index_of(olds, address)].address == address);
                }
                if a < olds.len() && b < olds.len() && news[a].address == olds[a].address
                    && news[b].address == olds[b].address {
                    assert(olds[a].address == olds[b].address);
                }
            }
            assert forall|k: int| 0 <= k < news.len() implies #[trigger] news[k].latencies.len()
                <= MAX_RECORDED_LATENCIES by {
                if k < olds.len() && news[k] == olds[k] {
                    assert(olds[k].latencies.len() <= MAX_RECORDED_LATENCIES);
                }
            }
        }
    }

    /// Called when a peer is negotiated: a fresh nonce is drawn and the peer
    /// is handled as by `peer_negotiated_with`.
    pub fn peer_negotiated(&mut self, address: PeerId, now: LocalTime)
        requires
            old(self)@.wf(),
        ensures
            final(self)@.wf(),
            exists|nonce: u64| old(self)@.negotiated(final(self)@, address, nonce, now),
    {
        let nonce = random_nonce(&self.rng);
        self.peer_negotiated_with(address, nonce, now);
    }

    /// Called when a peer is disconnected: its record is dropped.
    pub fn peer_disconnected(&mut self, addr: &PeerId)
        requires
            old(self)@.wf(),
        ensures
            final(self)@.wf(),
            final(self)@.peers == without_peer(old(self)@.peers, *addr),
            final(self)@.outputs == old(self)@.outputs,
            final(self)@.ping_timeout == old(self)@.ping_timeout,
    {
        let ghost olds = old(self)@.peers;
        match self.position(*addr) {
            Some(i) => {
                self.peers.remove(i);
                assert(self@.peers =~= olds.remove(i as int));
                proof {
                    let news = self@.peers;
                    assert forall|a: int, b: int|
                        #![trigger news[a].address, news[b].address]
                        0 <= a < news.len() && 0 <= b < news.len() && news[a].address
                            == news[b].address implies a == b by {
                        let oa = if a < i { a } else { a + 1 };
                        let ob = if b < i { b } else { b + 1 };
                        assert(news[a] == olds[oa]);
                        assert(news[b] == olds[ob]);
                        assert(olds[oa].address == olds[ob].address);
                    }
                    assert forall|k: int| 0 <= k < news.len() implies #[trigger] news[k].latencies.len()
                        <= MAX_RECORDED_LATENCIES by {
                        let ok = if k < i { k } else { k + 1 };
                        assert(news[k] == olds[ok]);
                        assert(olds[ok].latencies.len() <= MAX_RECORDED_LATENCIES);
                    }
                }
            },
            None => {},
        }
    }

    /// Called when a `ping` is received: a known peer gets a `pong` with the same
    /// nonce, and `true` is returned; an unknown one is ignored.
    pub fn received_ping(&mut self, addr: PeerId, nonce: u64) -> (r: bool)
        requires
            old(self)@.wf(),
        ensures
            final(self)@.wf(),
            r == has_peer(old(self)@.peers, addr),
            final(self)@.peers == old(self)@.peers,
            final(self)@.ping_timeout == old(self)@.ping_timeout,
            final(self)@.outputs == if r {
                old(self)@.outputs.push(Output::Pong { addr, nonce })
            } else {
                old(self)@.outputs
            },
    {
        if self.position(addr).is_some() {
            self.outbox.push(Output::Pong { addr, nonce });
            return true;
        }
        false
    }

    /// Called when a `pong` is received at `now`. When it answers the outstanding
    /// `ping` of a known peer, the round-trip time is recorded, the peer turns
    /// idle since `now`, and `true` is returned. Any other `pong` changes nothing.
    pub fn received_pong(&mut self, addr: PeerId, nonce: u64, now: LocalTime) -> (r: bool)
        requires
            old(self)@.wf(),
        ensures
            final(self)@.wf(),
            r == pong_matches(old(self)@.peers, addr, nonce),
            r ==> final(self)@.peers == old(self)@.peers.update(
                index_of(old(self)@.peers, addr),
                after_pong(old(self)@.peers[index_of(old(self)@.peers, addr)], now),
            ),
            final(self)@.outputs == old(self)@.outputs,
            final(self)@.ping_timeout == old(self)@.ping_timeout,
            !r ==> final(self)@ == old(self)@,
    {
        let ghost olds = old(self)@.peers;
        match self.position(addr) {
            Some(i) => {
                match self.peers[i].state {
                    State::AwaitingPong { nonce: last_nonce, since } => {
                        if nonce == last_nonce {
                            let sample = elapsed(now, since);
                            let mut peer = self.peers.remove(i);
                            peer.record_latency(sample);
                            peer.state = State::Idle { since: now };
                            let ghost pv = peer@;
                            self.peers.insert(i, peer);
                            assert(pv == after_pong(olds[i as int], now));
                            assert(self@.peers =~= olds.update(i as int, pv));
                            proof {
                                let news = self@.peers;
                                assert forall|a: int, b: int|
                                    #![trigger news[a].address, news[b].address]
                                    0 <= a < news.len() && 0 <= b < news.len() && news[a].address
                                        == news[b].address implies a == b by {
                                    assert(news[a].address == olds[a].address);
                                    assert(news[b].address == olds[b].address);
                                }
                                assert forall|k: int| 0 <= k < news.len() implies
                                    #[trigger] news[k].latencies.len() <= MAX_RECORDED_LATENCIES by {
                                    assert(olds[k].latencies.len() <= MAX_RECORDED_LATENCIES);
                                }
                            }
                            return true;
                        }
                    },
                    State::Idle { .. } => {},
                }
            },
            None => {},
        }
        false
    }

    /// Called on a wake at `now`. A peer that has waited for a `pong` for the
    /// ping timeout or longer is disconnected; an idle peer whose last `pong`
    /// is a ping interval old or older is sent a `ping` with a fresh nonce, and
    /// wakeups are asked for after the ping timeout and the ping interval.
    pub fn received_wake(&mut self, now: LocalTime)
        requires
            old(self)@.wf(),
        ensures
            final(self)@.wf(),
            old(self)@.woken(final(self)@, now),
    {
        let ghost olds = old(self)@.peers;
        let ghost out0 = old(self)@.outputs;
        let timeout = self.ping_timeout;
        let n = self.peers.len();
        let mut i: usize = 0;
        while i < n
            invariant
                0 <= i <= n,
                n == olds.len(),
                olds == old(self)@.peers,
                out0 == old(self)@.outputs,
                old(self)@.wf(),
                timeout == old(self)@.ping_timeout,
                self.ping_timeout == timeout,
                self.peers.len() == n,
                self@.peers.len() == n,
                forall|k: int| 0 <= k < i ==> wake_step(olds[k], #[trigger] self@.peers[k], now),
                forall|k: int| i <= k < n ==> #[trigger] self@.peers[k] == olds[k],
                self@.outputs == out0 + wake_outputs(
                    olds.take(i as int),
                    self@.peers.take(i as int),
                    now,
                    timeout,
                ),
            decreases n - i,
        {
            let ghost prev = self@.peers;
            let ghost prev_out = self@.outputs;
            let address = self.peers[i].address;
            match self.peers[i].state {
                State::AwaitingPong { since, .. } => {
                    if elapsed(now, since) >= timeout {
                        self.outbox.push(
                            Output::Disconnect {
                                addr: address,
                                reason: DisconnectReason::PeerTimeout(Timeout::Ping),
                            },
                        );
                    }
                    assert(olds[i as int] == prev[i as int]);
                    assert(self@.outputs =~= prev_out + peer_wake_outputs(
                        olds[i as int],
                        self@.peers[i as int],
                        now,
                        timeout,
                    ));
                },
                State::Idle { since } => {
                    if elapsed(now, since) >= PING_INTERVAL {
                        let nonce = random_nonce(&self.rng);
                        self.outbox.push(Output::Ping { addr: address, nonce });
                        self.outbox.push(Output::Wakeup(timeout));
                        self.outbox.push(Output::Wakeup(PING_INTERVAL));
                        let mut peer = self.peers.remove(i);
                        peer.state = State::AwaitingPong { nonce, since: now };
                        let ghost pv = peer@;
                        self.peers.insert(i, peer);
                        assert(self@.peers =~= prev.update(i as int, pv));
                    }
                    assert(olds[i as int] == prev[i as int]);
                    assert(self@.outputs =~= prev_out + peer_wake_outputs(
                        olds[i as int],
                        self@.peers[i as int],
                        now,
                        timeout,
                    ));
                },
            }
            proof {
                let news = self@.peers;
                let ii = i as int;
                assert(news.take(ii) =~= prev.take(ii));
                assert(olds.take(ii + 1).drop_last() =~= olds.take(ii));
                assert(news.take(ii + 1).drop_last() =~= news.take(ii));
                assert(olds.take(ii + 1).last() == olds[ii]);
                assert(news.take(ii + 1).last() == news[ii]);
                assert(self@.outputs =~= out0 + wake_outputs(
                    olds.take(ii + 1),
                    news.take(ii + 1),
                    now,
                    timeout,
                ));
            }
            i += 1;
        }
        proof {
            let news = self@.peers;
            assert(olds.take(n as int) =~= olds);
            assert(news.take(n as int) =~= news);
            assert forall|a: int, b: int|
                #![trigger news[a].address, news[b].address]
                0 <= a < news.len() && 0 <= b < news.len() && news[a].address == news[b].address
                    implies a == b by {
                assert(wake_step(olds[a], news[a], now));
                assert(wake_step(olds[b], news[b], now));
                assert(olds[a].address == olds[b].address);
            }
            assert forall|k: int| 0 <= k < news.len() implies #[trigger] news[k].latencies.len()
                <= MAX_RECORDED_LATENCIES by {
                assert(wake_step(olds[k], news[k], now));
                assert(olds[k].latencies.len() <= MAX_RECORDED_LATENCIES);
            }
        }
    }

    /// Ping state of the peer `addr`, if it is known.
    pub fn state_of(&self, addr: PeerId) -> (r: Option<State>)
        requires
            self@.wf(),
        ensures
            r == if has_peer(self@.peers, addr) {
                Some(self@.peers[index_of(self@.peers, addr)].state)
            } else {
                None::<State>
            },
    {
        match self.position(addr) {
            Some(i) => Some(self.peers[i].state),
            None => None,
        }
    }

    /// Latency samples of the peer `addr`, newest first, if it is known.
    pub fn latencies_of(&self, addr: PeerId) -> (r: Option<&Vec<LocalDuration>>)
        requires
            self@.wf(),
        ensures
            r is Some <==> has_peer(self@.peers, addr),
            r is Some ==> r->0@ == self@.peers[index_of(self@.peers, addr)].latencies,
    {
        match self.position(addr) {
            Some(i) => Some(&self.peers[i].latencies),
            None => None,
        }
    }

    /// Outputs not yet drained, oldest first.
    pub fn outputs(&self) -> (r: &Vec<Output>)
        ensures
            r@ == self@.outputs,
    {
        &self.outbox
    }
}

} // verus!
