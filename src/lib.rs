//! Mirrors a text clipboard between two hosts over an authenticated SSH
//! channel: the decisions of the client's connection attempt, the server's
//! key check and session gating, the reading of an authorized-keys text, and
//! the change detection of the clipboard sync loop.
use vstd::prelude::*;

pub mod error;
pub mod client;
pub mod channel;
pub mod keys;
pub mod server;
pub mod sync;

pub use error::SBError;

verus! {

/// The fixed port on which the server listens, apart from the usual
/// remote-shell port.
pub const PORT: u16 = 25113;

/// The pause between two reads of the local clipboard, in milliseconds.
pub const SYNC_INTERVAL_MS: u64 = 50;

} // verus!
