//! Peer-to-peer core of a Bitcoin light client.
//!
//! - `net`: connection direction, disconnect reasons and reactor outputs.
//! - `fsm`: protocol-level disconnect reasons and the actions of the state machine.
//! - `wire`: the 24-byte message envelope.
//! - `addrmgr`: known peer addresses and which one to try next.
//! - `peermgr`: the `version` / `verack` handshake.
//! - `pingmgr`: liveness checks with `ping` / `pong`.
//! - `cfheaders`: cross-checking filter headers from independent peers.
//! - `chain`: the block-header tree and its active chain, with re-org events.
//! - `syncmgr`: the header sync peer and block locators.
//! - `invmgr`: broadcast of submitted transactions and their status.
//! - `fees`: fee-rate percentiles of a matched block.
//! - `event`: the events handed to the client.
//! - `time`: local time in milliseconds.
//! - `watch`: the watchlist of output scripts and the scan of a block against it.
pub mod addrmgr;
pub mod cfheaders;
pub mod chain;
pub mod event;
pub mod fees;
pub mod fsm;
pub mod invmgr;
pub mod net;
pub mod peermgr;
pub mod pingmgr;
pub mod syncmgr;
pub mod time;
pub mod wire;
pub mod watch;
