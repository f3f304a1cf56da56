//! Move-synchronization core for a two-peer, turn-based chess session.
//!
//! Two peers play over a byte-stream link, each running its own rules
//! engine. This crate holds the protocol core: the fixed 128-byte wire
//! frame and its codec, the turn-ownership state machine, and the
//! reconciliation that replays a remote move locally and compares the
//! recomputed frame byte-for-byte against what was received. The rules
//! engine, the transport, and the front end are external collaborators;
//! the session speaks to them through plain values.

pub mod board;
pub mod codec;
pub mod session;
