//! Networking core for a real-time multiplayer action game: a compact binary
//! wire protocol over fixed-size datagrams, per-message reliability with
//! resend-until-acknowledged, a jitter buffer that smooths bursty arrival, a
//! bidirectional identity map between network identities and local simulation
//! handles, distance-scaled interest scheduling, and client-side reconciliation
//! of predicted state against authoritative snapshots.
//!
//! Positions, rotations and similar numeric fields travel on the wire as raw
//! 32-bit words (the bit patterns of the simulation's single-precision
//! values); this library moves and frames them without interpreting them,
//! except where a component works on explicitly fixed-point quantities.

use vstd::prelude::*;

pub mod batch;
pub mod client;
pub mod codec;
pub mod decode;
pub mod identity;
pub mod interest;
pub mod jitter;
pub mod messages;
pub mod reconcile;
pub mod reliability;
pub mod server;
pub mod wire;

verus! {

/// Stable cross-process name for a replicated simulation object; assigned
/// monotonically by the server and never reused.
pub type NetIDType = u128;

/// Every datagram carries exactly this many bytes, zero-padded.
pub const FRAME_LEN: usize = 1000;

} // verus!
