//! Peer manager: the `version` / `verack` handshake.
//!
//! An outbound connection starts with our `version`. An inbound one waits for
//! the remote `version`, then answers with ours. Each side then sends `verack`,
//! and the peer is negotiated once the remote `verack` arrives.
use crate::fsm::{random_nonce, DisconnectReason, Output, PeerId, Timeout};
use crate::net::Link;
use crate::time::{elapsed, elapsed_spec, LocalDuration, LocalTime, SECOND};
use vstd::prelude::*;

verus! {

/// Oldest protocol version that we accept.
pub const MIN_PROTOCOL_VERSION: u32 = 70012;

/// Time to wait for the next handshake message.
pub const HANDSHAKE_TIMEOUT: LocalDuration = 6 * SECOND;

/// Largest distance, in seconds, between a peer's clock and ours.
pub const MAX_TIME_ADJUSTMENT: u64 = 90 * 60;

/// Service bit: the peer serves full blocks.
pub const NETWORK: u64 = 1;

/// Service bit: the peer serves compact block filters.
pub const COMPACT_FILTERS: u64 = 64;

/// What the remote `version` message tells us.
#[derive(Clone, Copy, Debug, PartialEq, Eq, Structural)]
pub struct VersionMessage {
    /// Protocol version.
    pub version: u32,
    /// Service bits.
    pub services: u64,
    /// Remote time, in seconds.
    pub timestamp: u64,
    /// Nonce, to detect connections to ourselves.
    pub nonce: u64,
    /// Height of the remote chain.
    pub start_height: u64,
}

/// Where a peer stands in the handshake.
#[derive(Clone, Copy, Debug, PartialEq, Eq, Structural)]
pub enum HandshakeState {
    /// Waiting, since `since`, for the remote `version`.
    AwaitingVersion { since: LocalTime },
    /// The remote `version` came and was accepted; waiting, since `since`,
    /// for the remote `verack`.
    AwaitingVerack { since: LocalTime, remote: VersionMessage },
    /// The handshake is complete.
    Negotiated { remote: VersionMessage },
    /// We asked for the peer to be disconnected.
    Disconnecting,
}

/// One connected peer.
#[derive(Clone, Copy, Debug, PartialEq, Eq, Structural)]
pub struct PeerRecord {
    /// The peer.
    pub addr: PeerId,
    /// Who opened the connection.
    pub link: Link,
    /// Handshake state.
    pub state: HandshakeState,
    /// Nonce of the `version` that we sent, once sent.
    pub nonce: Option<u64>,
}

/// Settings of the handshake.
#[derive(Clone, Copy, Debug, PartialEq, Eq, Structural)]
pub struct Config {
    /// Oldest protocol version accepted.
    pub min_version: u32,
    /// Service bits that an outbound peer must offer.
    pub required_services: u64,
    /// Most outbound peers negotiated at once.
    pub max_outbound: usize,
    /// Time to wait for each handshake message.
    pub handshake_timeout: LocalDuration,
}

/// The peer manager as a mathematical value.
pub struct PeerMgrView {
    pub config: Config,
    pub peers: Seq<PeerRecord>,
    pub outputs: Seq<Output>,
}

/// Whether some record of `peers` is for `addr`.
pub open spec fn is_known(peers: Seq<PeerRecord>, addr: PeerId) -> bool {
    exists|i: int| 0 <= i < peers.len() && #[trigger] peers[i].addr == addr
}

/// Position of the record for `addr` in `peers`.
pub open spec fn position_of(peers: Seq<PeerRecord>, addr: PeerId) -> int {
    choose|i: int| 0 <= i < peers.len() && #[trigger] peers[i].addr == addr
}

/// No two records share an address.
pub open spec fn addrs_unique(peers: Seq<PeerRecord>) -> bool {
    forall|i: int, j: int|
        #![trigger peers[i].addr, peers[j].addr]
        0 <= i < peers.len() && 0 <= j < peers.len() && peers[i].addr == peers[j].addr ==> i
            == j
}

/// Whether `nonce` is that of a `version` we sent to a connected peer.
pub open spec fn is_own_nonce(peers: Seq<PeerRecord>, nonce: u64) -> bool {
    exists|i: int| 0 <= i < peers.len() && #[trigger] peers[i].nonce == Some(nonce)
}

/// Number of negotiated outbound peers.
pub open spec fn outbound_negotiated(peers: Seq<PeerRecord>) -> nat
    decreases peers.len(),
{
    if peers.len() == 0 {
        0
    } else {
        outbound_negotiated(peers.drop_last()) + if peers.last().link == Link::Outbound
            && peers.last().state is Negotiated {
            1nat
        } else {
            0nat
        }
    }
}

/// Whether remote time `timestamp` is within `MAX_TIME_ADJUSTMENT` seconds of
/// local time `now`.
pub open spec fn timestamp_ok(timestamp: u64, now: LocalTime) -> bool {
    let local = now / 1000;
    local <= timestamp + MAX_TIME_ADJUSTMENT && timestamp <= local + MAX_TIME_ADJUSTMENT
}

/// Why a remote `version` is refused, if it is: a nonce of our own, an old
/// protocol version, missing services on an outbound link, or a clock too far off.
pub open spec fn version_refusal(
    config: Config,
    peers: Seq<PeerRecord>,
    link: Link,
    v: VersionMessage,
    now: LocalTime,
) -> Option<DisconnectReason> {
    if is_own_nonce(peers, v.nonce) {
        Some(DisconnectReason::SelfConnection)
    } else if v.version < config.min_version {
        Some(DisconnectReason::PeerProtocolVersion(v.version))
    } else if link == Link::Outbound && v.services & config.required_services
        != config.required_services {
        Some(DisconnectReason::PeerServices(v.services))
    } else if !timestamp_ok(v.timestamp, now) {
        Some(DisconnectReason::PeerTimestamp)
    } else {
        None
    }
}

/// Record and outputs after the remote `version` `v` reached record `p` at
/// `now`; `nonce` is the one drawn for our `version`, sent to inbound peers.
pub open spec fn version_step(
    config: Config,
    peers: Seq<PeerRecord>,
    p: PeerRecord,
    v: VersionMessage,
    nonce: u64,
    now: LocalTime,
) -> (PeerRecord, Seq<Output>) {
    match p.state {
        HandshakeState::AwaitingVersion { .. } => match version_refusal(
            config,
            peers,
            p.link,
            v,
            now,
        ) {
            Some(reason) => (
                PeerRecord { state: HandshakeState::Disconnecting, ..p },
                seq![Output::Disconnect { addr: p.addr, reason }],
            ),
            None => if p.link == Link::Inbound {
                (
                    PeerRecord {
                        state: HandshakeState::AwaitingVerack { since: now, remote: v },
                        nonce: Some(nonce),
                        ..p
                    },
                    seq![Output::Version { addr: p.addr, nonce }, Output::Verack { addr: p.addr }],
                )
            } else {
                (
                    PeerRecord {
                        state: HandshakeState::AwaitingVerack { since: now, remote: v },
                        ..p
                    },
                    seq![Output::Verack { addr: p.addr }],
                )
            },
        },
        HandshakeState::Disconnecting => (p, seq![]),
        _ => (
            PeerRecord { state: HandshakeState::Disconnecting, ..p },
            seq![Output::Disconnect { addr: p.addr, reason: DisconnectReason::ProtocolError }],
        ),
    }
}

/// Record and outputs after the remote `verack` reached record `p`.
pub open spec fn verack_step(config: Config, peers: Seq<PeerRecord>, p: PeerRecord) -> (
    PeerRecord,
    Seq<Output>,
) {
    match p.state {
        HandshakeState::AwaitingVerack { remote, .. } => if p.link == Link::Outbound
            && outbound_negotiated(peers) >= config.max_outbound {
            (
                PeerRecord { state: HandshakeState::Disconnecting, ..p },
                seq![
                    Output::Disconnect {
                        addr: p.addr,
                        reason: DisconnectReason::ConnectionLimit,
                    },
                ],
            )
        } else {
            (
                PeerRecord { state: HandshakeState::Negotiated { remote }, ..p },
                seq![
                    Output::Negotiated {
                        addr: p.addr,
                        link: p.link,
                        version: remote.version,
                        services: remote.services,
                        height: remote.start_height,
                    },
                ],
            )
        },
        HandshakeState::AwaitingVersion { .. } => (
            PeerRecord { state: HandshakeState::Disconnecting, ..p },
            seq![Output::Disconnect { addr: p.addr, reason: DisconnectReason::ProtocolError }],
        ),
        _ => (p, seq![]),
    }
}

/// Record and outputs of a wake at `now` for record `p`: a peer still in its
/// handshake after `handshake_timeout` is disconnected.
pub open spec fn timeout_step(config: Config, p: PeerRecord, now: LocalTime) -> (
    PeerRecord,
    Seq<Output>,
) {
    let since = match p.state {
        HandshakeState::AwaitingVersion { since } => since,
        HandshakeState::AwaitingVerack { since, .. } => since,
        _ => 0,
    };
    if (p.state is AwaitingVersion || p.state is AwaitingVerack) && elapsed_spec(now, since)
        >= config.handshake_timeout {
        (
            PeerRecord { state: HandshakeState::Disconnecting, ..p },
            seq![
                Output::Disconnect {
                    addr: p.addr,
                    reason: DisconnectReason::PeerTimeout(Timeout::Handshake),
                },
            ],
        )
    } else {
        (p, seq![])
    }
}

/// Outputs of a wake at `now` over all records of `peers`, in order.
pub open spec fn timeout_outputs(config: Config, peers: Seq<PeerRecord>, now: LocalTime) -> Seq<
    Output,
>
    decreases peers.len(),
{
    if peers.len() == 0 {
        seq![]
    } else {
        timeout_outputs(config, peers.drop_last(), now) + timeout_step(
            config,
            peers.last(),
            now,
        ).1
    }
}

/// Replacing a record by one of the same address keeps addresses unique.
proof fn lemma_update_keeps_unique(peers: Seq<PeerRecord>, i: int, rec: PeerRecord)
    requires
        addrs_unique(peers),
        0 <= i < peers.len(),
        rec.addr == peers[i].addr,
    ensures
        addrs_unique(peers.update(i, rec)),
{
    let news = peers.update(i, rec);
    assert forall|a: int, b: int|
        #![trigger news[a].addr, news[b].addr]
        0 <= a < news.len() && 0 <= b < news.len() && news[a].addr == news[b].addr implies a
            == b by {
        assert(news[a].addr == peers[a].addr);
        assert(news[b].addr == peers[b].addr);
    }
}

impl PeerMgrView {
    /// Records are unique by address.
    pub open spec fn wf(self) -> bool {
        addrs_unique(self.peers)
    }

    /// `new` is `self` after the message step `step` on the record of `addr`:
    /// nothing changes for an unknown peer.
    pub open spec fn stepped(
        self,
        new: PeerMgrView,
        addr: PeerId,
        step: (PeerRecord, Seq<Output>),
    ) -> bool {
        &&& new.config == self.config
        &&& if is_known(self.peers, addr) {
            &&& new.peers == self.peers.update(position_of(self.peers, addr), step.0)
            &&& new.outputs == self.outputs + step.1
        } else {
            &&& new.peers == self.peers
            &&& new.outputs == self.outputs
        }
    }

    /// `new` is `self` after `connected(addr, link)` at `now`, with `nonce`
    /// drawn for our `version`.
    pub open spec fn connected_to(
        self,
        new: PeerMgrView,
        addr: PeerId,
        link: Link,
        nonce: u64,
        now: LocalTime,
    ) -> bool {
        &&& new.config == self.config
        &&& if is_known(self.peers, addr) {
            &&& new.peers == self.peers
            &&& new.outputs == self.outputs.push(
                Output::Disconnect { addr, reason: DisconnectReason::DuplicateConnection },
            )
        } else if link == Link::Outbound {
            &&& new.peers == self.peers.push(
                PeerRecord {
                    addr,
                    link,
                    state: HandshakeState::AwaitingVersion { since: now },
                    nonce: Some(nonce),
                },
            )
            &&& new.outputs == self.outputs.push(Output::Version { addr, nonce })
        } else {
            &&& new.peers == self.peers.push(
                PeerRecord {
                    addr,
                    link,
                    state: HandshakeState::AwaitingVersion { since: now },
                    nonce: None,
                },
            )
            &&& new.outputs == self.outputs
        }
    }
}

/// The outputs that `new` holds beyond those of `old`.
pub open spec fn added_outputs(old: PeerMgrView, new: PeerMgrView) -> Seq<Output> {
    new.outputs.subrange(old.outputs.len() as int, new.outputs.len() as int)
}

/// The output announcing that `addr` negotiated with remote `version` `v`.
pub open spec fn negotiated_output(addr: PeerId, link: Link, v: VersionMessage) -> Output {
    Output::Negotiated {
        addr,
        link,
        version: v.version,
        services: v.services,
        height: v.start_height,
    }
}

/// In a valid peer list, the record at `i` is the one found for its address.
proof fn lemma_position(peers: Seq<PeerRecord>, i: int)
    requires
        addrs_unique(peers),
        0 <= i < peers.len(),
    ensures
        is_known(peers, peers[i].addr),
        position_of(peers, peers[i].addr) == i,
{
    let a = peers[i].addr;
    assert(is_known(peers, a));
    let j = position_of(peers, a);
    assert(peers[j].addr == peers[i].addr);
}

/// A newly connected peer whose `version` is accepted, and whose `verack`
/// then arrives while the outbound limit allows it, is negotiated. Exactly one
/// `Negotiated` output is produced, after our `version` and `verack`.
pub proof fn lemma_handshake_completes(
    m0: PeerMgrView,
    m1: PeerMgrView,
    m2: PeerMgrView,
    m3: PeerMgrView,
    addr: PeerId,
    link: Link,
    nonce1: u64,
    nonce2: u64,
    v: VersionMessage,
    t0: LocalTime,
    t1: LocalTime,
)
    requires
        m0.wf(),
        m1.wf(),
        m2.wf(),
        !is_known(m0.peers, addr),
        m0.connected_to(m1, addr, link, nonce1, t0),
        version_refusal(m1.config, m1.peers, link, v, t1) is None,
        m1.stepped(
            m2,
            addr,
            version_step(m1.config, m1.peers, m1.peers[position_of(m1.peers, addr)], v, nonce2, t1),
        ),
        link == Link::Outbound ==> outbound_negotiated(m2.peers) < m2.config.max_outbound,
        m2.stepped(
            m3,
            addr,
            verack_step(m2.config, m2.peers, m2.peers[position_of(m2.peers, addr)]),
        ),
    ensures
        is_known(m3.peers, addr),
        m3.peers[position_of(m3.peers, addr)].state == (HandshakeState::Negotiated { remote: v }),
        added_outputs(m0, m3) == seq![
            Output::Version { addr, nonce: if link == Link::Outbound { nonce1 } else { nonce2 } },
            Output::Verack { addr },
            negotiated_output(addr, link, v),
        ],
{
    let i = m0.peers.len() as int;
    assert(m1.peers[i].addr == addr);
    lemma_position(m1.peers, i);
    assert(m2.peers[i].addr == addr);
    lemma_position(m2.peers, i);
    assert(m3.peers[i].addr == addr);
    lemma_position(m3.peers, i);
    assert(added_outputs(m0, m3) =~= seq![
        Output::Version { addr, nonce: if link == Link::Outbound { nonce1 } else { nonce2 } },
        Output::Verack { addr },
        negotiated_output(addr, link, v),
    ]);
}

/// Once a peer is negotiated, a further `verack` changes nothing, so no second
/// `Negotiated` output follows.
pub proof fn lemma_negotiated_verack_is_silent(m: PeerMgrView, m2: PeerMgrView, addr: PeerId)
    requires
        is_known(m.peers, addr),
        m.peers[position_of(m.peers, addr)].state is Negotiated,
        m.stepped(m2, addr, verack_step(m.config, m.peers, m.peers[position_of(m.peers, addr)])),
    ensures
        m2.peers == m.peers,
        m2.outputs == m.outputs,
{
    assert(m2.peers =~= m.peers);
    assert(m2.outputs =~= m.outputs);
}

/// A `version` that carries the nonce of one of our own `version` messages
/// disconnects the peer for `SelfConnection` with no other output, and a
/// `verack` after it produces no output at all, so no `Negotiated` one.
pub proof fn lemma_self_connection(
    m1: PeerMgrView,
    m2: PeerMgrView,
    m3: PeerMgrView,
    addr: PeerId,
    v: VersionMessage,
    nonce: u64,
    now: LocalTime,
)
    requires
        m1.wf(),
        m2.wf(),
        is_known(m1.peers, addr),
        m1.peers[position_of(m1.peers, addr)].state is AwaitingVersion,
        is_own_nonce(m1.peers, v.nonce),
        m1.stepped(
            m2,
            addr,
            version_step(m1.config, m1.peers, m1.peers[position_of(m1.peers, addr)], v, nonce, now),
        ),
        m2.stepped(
            m3,
            addr,
            verack_step(m2.config, m2.peers, m2.peers[position_of(m2.peers, addr)]),
        ),
    ensures
        added_outputs(m1, m2) == seq![
            Output::Disconnect { addr, reason: DisconnectReason::SelfConnection },
        ],
        m3.peers[position_of(m3.peers, addr)].state == HandshakeState::Disconnecting,
        m3.outputs == m2.outputs,
{
    let i = position_of(m1.peers, addr);
    assert(m1.peers[i].addr == addr);
    assert(m2.peers[i].addr == addr);
    lemma_position(m2.peers, i);
    assert(m3.peers[i].addr == addr);
    assert(m3.outputs =~= m2.outputs);
    assert(added_outputs(m1, m2) =~= seq![
        Output::Disconnect { addr, reason: DisconnectReason::SelfConnection },
    ]);
    assert(m3.peers =~= m2.peers);
}

/// Drives the handshake of each connected peer.
pub struct PeerManager {
    config: Config,
    peers: Vec<PeerRecord>,
    rng: fastrand::Rng,
    outbox: Vec<Output>,
}

impl View for PeerManager {
    type V = PeerMgrView;

    closed spec fn view(&self) -> PeerMgrView {
        PeerMgrView { config: self.config, peers: self.peers@, outputs: self.outbox@ }
    }
}

impl PeerManager {
    /// Create a peer manager with no peers and no outputs.
    pub fn new(config: Config, rng: fastrand::Rng) -> (r: Self)
        ensures
            r@.config == config,
            r@.peers == Seq::<PeerRecord>::empty(),
            r@.outputs == Seq::<Output>::empty(),
            r@.wf(),
    {
        PeerManager { config, peers: Vec::new(), rng, outbox: Vec::new() }
    }

    /// Position of the record for `addr`, if any.
    fn position(&self, addr: PeerId) -> (r: Option<usize>)
        requires
            self@.wf(),
        ensures
            r is Some <==> is_known(self@.peers, addr),
            r is Some ==> r->0 == position_of(self@.peers, addr),
    {
        let mut i: usize = 0;
        while i < self.peers.len()
            invariant
                0 <= i <= self.peers.len(),
                self@.wf(),
                self@.peers == self.peers@,
                forall|k: int| 0 <= k < i ==> #[trigger] self@.peers[k].addr != addr,
            decreases self.peers.len() - i,
        {
            if self.peers[i].addr == addr {
                proof {
                    let j = position_of(self@.peers, addr);
                    assert(self@.peers[i as int].addr == addr);
                    assert(is_known(self@.peers, addr));
                    assert(self@.peers[j].addr == self@.peers[i as int].addr);
                }
                return Some(i);
            }
            i += 1;
        }
        None
    }

    /// Take the outputs produced so far, oldest first.
    pub fn drain(&mut self) -> (r: Vec<Output>)
        ensures
            r@ == old(self)@.outputs,
            final(self)@.outputs == Seq::<Output>::empty(),
            final(self)@.peers == old(self)@.peers,
            final(self)@.config == old(self)@.config,
    {
        let mut r = Vec::new();
        std::mem::swap(&mut r, &mut self.outbox);
        r
    }

    /// Store `rec` at position `i` and append `outs` to the outputs.
    fn commit(&mut self, i: usize, rec: PeerRecord, outs: Vec<Output>)
        requires
            old(self)@.wf(),
            i < old(self)@.peers.len(),
            rec.addr == old(self)@.peers[i as int].addr,
        ensures
            final(self)@.wf(),
            final(self)@.config == old(self)@.config,
            final(self)@.peers == old(self)@.peers.update(i as int, rec),
            final(self)@.outputs == old(self)@.outputs + outs@,
    {
        proof {
            lemma_update_keeps_unique(self@.peers, i as int, rec);
        }
        let mut outs = outs;
        self.peers.set(i, rec);
        self.outbox.append(&mut outs);
    }

    /// Whether `nonce` is that of a `version` we sent to a connected peer.
    fn own_nonce(&self, nonce: u64) -> (r: bool)
        ensures
            r == is_own_nonce(self@.peers, nonce),
    {
        let mut i: usize = 0;
        while i < self.peers.len()
            invariant
                0 <= i <= self.peers.len(),
                self@.peers == self.peers@,
                forall|k: int| 0 <= k < i ==> #[trigger] self@.peers[k].nonce != Some(nonce),
            decreases self.peers.len() - i,
        {
            if self.peers[i].nonce == Some(nonce) {
                assert(self@.peers[i as int].nonce == Some(nonce));
                return true;
            }
            i += 1;
        }
        false
    }

    /// Number of negotiated outbound peers.
    fn count_outbound(&self) -> (r: usize)
        ensures
            r == outbound_negotiated(self@.peers),
    {
        let mut count: usize = 0;
        let mut i: usize = 0;
        while i < self.peers.len()
            invariant
                0 <= i <= self.peers.len(),
                self@.peers == self.peers@,
                count <= i,
                count == outbound_negotiated(self@.peers.take(i as int)),
            decreases self.peers.len() - i,
        {
            let p = self.peers[i];
            let is_negotiated = match p.state {
                HandshakeState::Negotiated { .. } => true,
                _ => false,
            };
            assert(self@.peers.take(i + 1).drop_last() =~= self@.peers.take(i as int));
            if p.link == Link::Outbound && is_negotiated {
                count += 1;
            }
            i += 1;
        }
        assert(self@.peers.take(i as int) =~= self@.peers);
        count
    }

    /// Why the remote `version` `v` on a `link` connection is refused at `now`, if it is.
    fn refusal(&self, link: Link, v: VersionMessage, now: LocalTime) -> (r: Option<
        DisconnectReason,
    >)
        ensures
            r == version_refusal(self@.config, self@.peers, link, v, now),
    {
        let local = now / 1000;
        let clock_ok = if v.timestamp >= local {
            v.timestamp - local <= MAX_TIME_ADJUSTMENT
        } else {
            local - v.timestamp <= MAX_TIME_ADJUSTMENT
        };
        if self.own_nonce(v.nonce) {
            Some(DisconnectReason::SelfConnection)
        } else if v.version < self.config.min_version {
            Some(DisconnectReason::PeerProtocolVersion(v.version))
        } else if link == Link::Outbound && v.services & self.config.required_services
            != self.config.required_services {
            Some(DisconnectReason::PeerServices(v.services))
        } else if !clock_ok {
            Some(DisconnectReason::PeerTimestamp)
        } else {
            None
        }
    }

    /// A new connection with `addr`, with `nonce` drawn for our `version`. An
    /// outbound peer is sent our `version`; an inbound one waits for theirs. A
    /// second connection with a connected peer is refused.
    pub fn connected_with(&mut self, addr: PeerId, link: Link, nonce: u64, now: LocalTime)
        requires
            old(self)@.wf(),
        ensures
            final(self)@.wf(),
            old(self)@.connected_to(final(self)@, addr, link, nonce, now),
    {
        if self.position(addr).is_some() {
            self.outbox.push(
                Output::Disconnect { addr, reason: DisconnectReason::DuplicateConnection },
            );
            return ;
        }
        let ghost olds = self@.peers;
        let state = HandshakeState::AwaitingVersion { since: now };
        if link == Link::Outbound {
            self.peers.push(PeerRecord { addr, link, state, nonce: Some(nonce) });
            self.outbox.push(Output::Version { addr, nonce });
        } else {
            self.peers.push(PeerRecord { addr, link, state, nonce: None });
        }
        proof {
            let news = self@.peers;
            assert forall|a: int, b: int|
                #![trigger news[a].addr, news[b].addr]
                0 <= a < news.len() && 0 <= b < news.len() && news[a].addr == news[b].addr
                    implies a == b by {
                if a < olds.len() && b < olds.len() {
                    assert(olds[a].addr == olds[b].addr);
                } else if a < olds.len() {
                    assert(olds[a].addr == addr);
                } else if b < olds.len() {
                    assert(olds[b].addr == addr);
                }
            }
        }
    }

    /// A new connection with `addr`: a fresh nonce is drawn and the connection
    /// is handled as by `connected_with`.
    pub fn connected(&mut self, addr: PeerId, link: Link, now: LocalTime)
        requires
            old(self)@.wf(),
        ensures
            final(self)@.wf(),
            exists|nonce: u64| old(self)@.connected_to(final(self)@, addr, link, nonce, now),
    {
        let nonce = random_nonce(&self.rng);
        self.connected_with(addr, link, nonce, now);
    }

    /// The remote `version` `v` from `addr` at `now`, with `nonce` drawn for our
    /// own `version`. It is accepted only while we wait for it, and only when
    /// `version_refusal` finds nothing against it; then we answer with `verack`,
    /// preceded by our `version` on an inbound link. A refused or untimely
    /// `version` disconnects the peer.
    pub fn received_version_with(
        &mut self,
        addr: PeerId,
        v: VersionMessage,
        nonce: u64,
        now: LocalTime,
    )
        requires
            old(self)@.wf(),
        ensures
            final(self)@.wf(),
            old(self)@.stepped(
                final(self)@,
                addr,
                version_step(
                    old(self)@.config,
                    old(self)@.peers,
                    old(self)@.peers[position_of(old(self)@.peers, addr)],
                    v,
                    nonce,
                    now,
                ),
            ),
    {
        let i = match self.position(addr) {
            Some(i) => i,
            None => {
                return ;
            },
        };
        let p = self.peers[i];
        let mut outs: Vec<Output> = Vec::new();
        match p.state {
            HandshakeState::AwaitingVersion { .. } => {
                match self.refusal(p.link, v, now) {
                    Some(reason) => {
                        outs.push(Output::Disconnect { addr: p.addr, reason });
                        let rec = PeerRecord {
                            addr: p.addr,
                            link: p.link,
                            state: HandshakeState::Disconnecting,
                            nonce: p.nonce,
                        };
                        self.commit(i, rec, outs);
                    },
                    None => {
                        let state = HandshakeState::AwaitingVerack { since: now, remote: v };
                        if p.link == Link::Inbound {
                            outs.push(Output::Version { addr: p.addr, nonce });
                            outs.push(Output::Verack { addr: p.addr });
                            assert(outs@ =~= seq![
                                Output::Version { addr: p.addr, nonce },
                                Output::Verack { addr: p.addr },
                            ]);
                            let rec = PeerRecord {
                                addr: p.addr,
                                link: p.link,
                                state,
                                nonce: Some(nonce),
                            };
                            self.commit(i, rec, outs);
                        } else {
                            outs.push(Output::Verack { addr: p.addr });
                            let rec = PeerRecord {
                                addr: p.addr,
                                link: p.link,
                                state,
                                nonce: p.nonce,
                            };
                            self.commit(i, rec, outs);
                        }
                    },
                }
            },
            HandshakeState::Disconnecting => {
                assert(self@.peers =~= self@.peers.update(i as int, p));
                assert(self@.outputs =~= self@.outputs + Seq::<Output>::empty());
            },
            _ => {
                outs.push(Output::Disconnect { addr: p.addr, reason: DisconnectReason::ProtocolError });
                let rec = PeerRecord {
                    addr: p.addr,
                    link: p.link,
                    state: HandshakeState::Disconnecting,
                    nonce: p.nonce,
                };
                self.commit(i, rec, outs);
            },
        }
    }

    /// The remote `version` `v` from `addr` at `now`: a fresh nonce is drawn and
    /// the message is handled as by `received_version_with`.
    pub fn received_version(&mut self, addr: PeerId, v: VersionMessage, now: LocalTime)
        requires
            old(self)@.wf(),
        ensures
            final(self)@.wf(),
            exists|nonce: u64|
                old(self)@.stepped(
                    final(self)@,
                    addr,
                    version_step(
                        old(self)@.config,
                        old(self)@.peers,
                        old(self)@.peers[position_of(old(self)@.peers, addr)],
                        v,
                        nonce,
                        now,
                    ),
                ),
    {
        let nonce = random_nonce(&self.rng);
        self.received_version_with(addr, v, nonce, now);
    }

    /// The remote `verack` from `addr`. After an accepted `version` the peer is
    /// negotiated, unless it is outbound and `max_outbound` outbound peers are
    /// negotiated already. Before the remote `version` it disconnects the peer;
    /// later ones are ignored.
    pub fn received_verack(&mut self, addr: PeerId)
        requires
            old(self)@.wf(),
        ensures
            final(self)@.wf(),
            old(self)@.stepped(
                final(self)@,
                addr,
                verack_step(
                    old(self)@.config,
                    old(self)@.peers,
                    old(self)@.peers[position_of(old(self)@.peers, addr)],
                ),
            ),
    {
        let i = match self.position(addr) {
            Some(i) => i,
            None => {
                return ;
            },
        };
        let p = self.peers[i];
        let mut outs: Vec<Output> = Vec::new();
        match p.state {
            HandshakeState::AwaitingVerack { remote, .. } => {
                if p.link == Link::Outbound && self.count_outbound() >= self.config.max_outbound {
                    outs.push(
                        Output::Disconnect { addr: p.addr, reason: DisconnectReason::ConnectionLimit },
                    );
                    let rec = PeerRecord {
                        addr: p.addr,
                        link: p.link,
                        state: HandshakeState::Disconnecting,
                        nonce: p.nonce,
                    };
                    self.commit(i, rec, outs);
                } else {
                    outs.push(
                        Output::Negotiated {
                            addr: p.addr,
                            link: p.link,
                            version: remote.version,
                            services: remote.services,
                            height: remote.start_height,
                        },
                    );
                    let rec = PeerRecord {
                        addr: p.addr,
                        link: p.link,
                        state: HandshakeState::Negotiated { remote },
                        nonce: p.nonce,
                    };
                    self.commit(i, rec, outs);
                }
            },
            HandshakeState::AwaitingVersion { .. } => {
                outs.push(Output::Disconnect { addr: p.addr, reason: DisconnectReason::ProtocolError });
                let rec = PeerRecord {
                    addr: p.addr,
                    link: p.link,
                    state: HandshakeState::Disconnecting,
                    nonce: p.nonce,
                };
                self.commit(i, rec, outs);
            },
            _ => {
                assert(self@.peers =~= self@.peers.update(i as int, p));
                assert(self@.outputs =~= self@.outputs + Seq::<Output>::empty());
            },
        }
    }

    /// The connection with `addr` is closed: its record is dropped.
    pub fn disconnected(&mut self, addr: PeerId)
        requires
            old(self)@.wf(),
        ensures
            final(self)@.wf(),
            final(self)@.config == old(self)@.config,
            final(self)@.outputs == old(self)@.outputs,
            final(self)@.peers == if is_known(old(self)@.peers, addr) {
                old(self)@.peers.remove(position_of(old(self)@.peers, addr))
            } else {
                old(self)@.peers
            },
    {
        let ghost olds = self@.peers;
        if let Some(i) = self.position(addr) {
            self.peers.remove(i);
            proof {
                let news = self@.peers;
                assert forall|a: int, b: int|
                    #![trigger news[a].addr, news[b].addr]
                    0 <= a < news.len() && 0 <= b < news.len() && news[a].addr == news[b].addr
                        implies a == b by {
                    let oa = if a < i { a } else { a + 1 };
                    let ob = if b < i { b } else { b + 1 };
                    assert(news[a] == olds[oa]);
                    assert(news[b] == olds[ob]);
                    assert(olds[oa].addr == olds[ob].addr);
                }
            }
        }
    }

    /// A wake at `now`: every peer still in its handshake after
    /// `handshake_timeout` is disconnected.
    pub fn received_wake(&mut self, now: LocalTime)
        requires
            old(self)@.wf(),
        ensures
            final(self)@.wf(),
            final(self)@.config == old(self)@.config,
            final(self)@.peers.len() == old(self)@.peers.len(),
            forall|k: int|
                0 <= k < old(self)@.peers.len() ==> #[trigger] final(self)@.peers[k]
                    == timeout_step(old(self)@.config, old(self)@.peers[k], now).0,
            final(self)@.outputs == old(self)@.outputs + timeout_outputs(
                old(self)@.config,
                old(self)@.peers,
                now,
            ),
    {
        let ghost olds = self@.peers;
        let ghost out0 = self@.outputs;
        let ghost config = self@.config;
        let n = self.peers.len();
        let mut i: usize = 0;
        while i < n
            invariant
                0 <= i <= n,
                n == olds.len(),
                self@.wf(),
                self@.config == config,
                self@.peers.len() == n,
                forall|k: int|
                    0 <= k < i ==> #[trigger] self@.peers[k] == timeout_step(config, olds[k], now).0,
                forall|k: int| i <= k < n ==> #[trigger] self@.peers[k] == olds[k],
                self@.outputs == out0 + timeout_outputs(config, olds.take(i as int), now),
            decreases n - i,
        {
            let ghost prev_out = self@.outputs;
            let p = self.peers[i];
            let since = match p.state {
                HandshakeState::AwaitingVersion { since } => since,
                HandshakeState::AwaitingVerack { since, .. } => since,
                _ => 0,
            };
            let pending = match p.state {
                HandshakeState::AwaitingVersion { .. } => true,
                HandshakeState::AwaitingVerack { .. } => true,
                _ => false,
            };
            assert(olds.take(i + 1).drop_last() =~= olds.take(i as int));
            assert(olds.take(i + 1).last() == olds[i as int]);
            if pending && elapsed(now, since) >= self.config.handshake_timeout {
                let mut outs: Vec<Output> = Vec::new();
                outs.push(
                    Output::Disconnect {
                        addr: p.addr,
                        reason: DisconnectReason::PeerTimeout(Timeout::Handshake),
                    },
                );
                let rec = PeerRecord {
                    addr: p.addr,
                    link: p.link,
                    state: HandshakeState::Disconnecting,
                    nonce: p.nonce,
                };
                self.commit(i, rec, outs);
                assert(self@.outputs =~= prev_out + timeout_step(config, olds[i as int], now).1);
            } else {
                assert(self@.outputs =~= prev_out + timeout_step(config, olds[i as int], now).1);
            }
            i += 1;
        }
        assert(olds.take(n as int) =~= olds);
    }

    /// Handshake record of `addr`, if it is connected.
    pub fn peer(&self, addr: PeerId) -> (r: Option<PeerRecord>)
        requires
            self@.wf(),
        ensures
            r == if is_known(self@.peers, addr) {
                Some(self@.peers[position_of(self@.peers, addr)])
            } else {
                None::<PeerRecord>
            },
    {
        match self.position(addr) {
            Some(i) => Some(self.peers[i]),
            None => None,
        }
    }
}

} // verus!
