//! Core of a real-time mono voice transport: fixed-size frame extraction
//! from a captured sample stream, coalescing of compressed frames into
//! bounded payload packets, the inverse split, and a bounded playback ring
//! that a real-time mixer drains at its own pace.
//!
//! The audio codec itself and all device I/O live outside this crate; the
//! library works on plain sample and byte sequences and states exactly how
//! packets are formed, split, buffered and mixed.

use vstd::prelude::*;

pub mod capture;
pub mod errors;
pub mod packets;
pub mod pipeline;
pub mod ring;

pub use errors::VoiceError;

verus! {

/// Sample rate of the voice stream, in hertz.
pub const VOIP_MIX_RATE: usize = 48000;

/// Samples in one 10 ms mono frame at the voice sample rate.
pub const VOIP_FRAME_SIZE: usize = 480;

/// Ceiling on the byte length of a single compressed frame,
/// the codec-defined maximum size of a one-frame packet.
pub const MAX_FRAME_BYTES: usize = 1276;

/// Ceiling on the byte length of a coalesced payload packet.
pub const MAX_PACKET_BYTES: usize = 4000;

/// Most compressed frames a single payload packet may coalesce,
/// the codec-defined 120 ms limit at 10 ms per frame.
pub const MAX_FRAMES_PER_PACKET: usize = 12;

/// Most whole frames one capture drain may return, bounding the
/// latency any single production cycle can add.
pub const MAX_FRAMES_PER_CYCLE: usize = 10;

} // verus!
