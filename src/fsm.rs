//! Protocol-level disconnect reasons and the outputs of the state machine.
use crate::net::Link;
use crate::time::LocalDuration;
use vstd::prelude::*;

verus! {

/// The random number generator is held and handed to `fastrand`, never inspected.
#[verifier::external_type_specification]
#[verifier::external_body]
pub struct ExRng(fastrand::Rng);

/// Relies on `fastrand::Rng::u64` over the full range: any `u64` may come back,
/// so nothing is promised of it.
#[verifier::external_body]
pub(crate) fn random_nonce(rng: &fastrand::Rng) -> (r: u64) {
    rng.u64(..)
}

/// Handle of a remote peer; the reactor maps it to a network endpoint.
pub type PeerId = u64;

/// What a peer timed out on.
#[derive(Clone, Copy, Debug, PartialEq, Eq, Structural)]
pub enum Timeout {
    /// The `version` / `verack` exchange.
    Handshake,
    /// A `pong` reply to our `ping`.
    Ping,
}

/// Reason for disconnecting a peer, as decided by the protocol.
#[derive(Clone, Copy, Debug, PartialEq, Eq, Structural)]
pub enum DisconnectReason {
    /// The peer did not answer in time.
    PeerTimeout(Timeout),
    /// The peer misbehaved, with the given score.
    PeerMisbehaving(u32),
    /// The peer speaks a protocol version older than we accept.
    PeerProtocolVersion(u32),
    /// The peer lacks services that we require.
    PeerServices(u64),
    /// The peer's clock is too far from ours.
    PeerTimestamp,
    /// The peer sent a message that its handshake state does not allow.
    ProtocolError,
    /// We are connected to as many outbound peers as we allow.
    ConnectionLimit,
    /// The peer sent bytes that do not decode.
    DecodeError,
    /// The peer uses the magic of another network.
    PeerMagicMismatch,
    /// We connected to ourselves.
    SelfConnection,
    /// We were already connected to this peer.
    DuplicateConnection,
    /// The client is shutting down.
    Shutdown,
}

/// An action requested by the state machine, for the reactor to perform.
#[derive(Clone, Copy, Debug, PartialEq, Eq, Structural)]
pub enum Output {
    /// Send a `ping` with the given nonce to a peer.
    Ping { addr: PeerId, nonce: u64 },
    /// Send a `pong` with the given nonce to a peer.
    Pong { addr: PeerId, nonce: u64 },
    /// Disconnect from a peer.
    Disconnect { addr: PeerId, reason: DisconnectReason },
    /// Send our `version` with the given nonce to a peer.
    Version { addr: PeerId, nonce: u64 },
    /// Send a `verack` to a peer.
    Verack { addr: PeerId },
    /// A peer completed its handshake; it is an event for the client.
    Negotiated { addr: PeerId, link: Link, version: u32, services: u64, height: u64 },
    /// Ask for a wakeup after the given duration.
    Wakeup(LocalDuration),
}

} // verus!
