//! Peer-to-peer networking core types.
use std::sync::Arc;

use crate::time::LocalDuration;
use vstd::prelude::*;

verus! {

/// `std::io::Error` is carried through disconnect reasons without being inspected.
#[verifier::external_type_specification]
#[verifier::external_body]
pub struct ExIoError(std::io::Error);

/// Link direction of the peer connection.
#[derive(Clone, Copy, Debug, PartialEq, Eq, Structural)]
pub enum Link {
    /// Inbound connection.
    Inbound,
    /// Outbound connection.
    Outbound,
}

impl Link {
    /// Check whether the link is outbound.
    pub fn is_outbound(&self) -> (r: bool)
        ensures
            r == (*self == Link::Outbound),
    {
        *self == Link::Outbound
    }

    /// Check whether the link is inbound.
    pub fn is_inbound(&self) -> (r: bool)
        ensures
            r == (*self == Link::Inbound),
    {
        *self == Link::Inbound
    }
}

/// Output of a state transition of the protocol state machine.
#[derive(Debug)]
pub enum Io<E, D, Id> {
    /// There are some bytes ready to be sent to a peer.
    Write(Id, Vec<u8>),
    /// Connect to a peer.
    Connect(Id),
    /// Disconnect from a peer.
    Disconnect(Id, D),
    /// Ask for a wakeup in a specified amount of time.
    Wakeup(LocalDuration),
    /// Emit an event.
    Event(E),
}

/// Disconnect reason.
#[derive(Debug, Clone)]
pub enum DisconnectReason<T> {
    /// Error while dialing the remote. This error occures before a connection is
    /// even established. Errors of this kind are usually not transient.
    DialError(Arc<std::io::Error>),
    /// Error with an underlying established connection. Sometimes, reconnecting
    /// after such an error is possible.
    ConnectionError(Arc<std::io::Error>),
    /// Peer was disconnected for another reason.
    Protocol(T),
}

impl<T> DisconnectReason<T> {
    /// Whether the connection failed while dialing.
    pub fn is_dial_err(&self) -> (r: bool)
        ensures
            r == (self is DialError),
    {
        match self {
            DisconnectReason::DialError(_) => true,
            _ => false,
        }
    }

    /// Whether an established connection failed.
    pub fn is_connection_err(&self) -> (r: bool)
        ensures
            r == (self is ConnectionError),
    {
        match self {
            DisconnectReason::ConnectionError(_) => true,
            _ => false,
        }
    }
}

/// Used by certain types of reactors to wake the event loop.
pub trait Waker: Send + Sync + Clone {
    /// Wake up! Call this after sending a command to make sure the command is processed
    /// in a timely fashion.
    fn wake(&self) -> std::io::Result<()>;
}

} // verus!
