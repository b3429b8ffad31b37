//! Error taxonomy of the voice pipeline.

use vstd::prelude::*;

verus! {

/// Everything that can go wrong in the pipeline.
///
/// Construction-time codec failure is fatal for the stream; encode and
/// decode failures abort one production or consumption cycle; the two
/// repacketization errors are recoverable by design: an overflow emits
/// the partially coalesced packet, a malformed packet is dropped whole.
#[derive(Clone, Copy, Debug, PartialEq, Eq, Structural)]
pub enum VoiceError {
    /// The codec could not be constructed; no stream is produced.
    CodecInitFailure,
    /// The codec rejected a frame while encoding; the cycle is aborted.
    EncodeFailure,
    /// The codec rejected a frame while decoding; the cycle is aborted.
    DecodeFailure,
    /// Appending one more frame would exceed a packet limit; the
    /// frames already coalesced are still emitted.
    RepacketizeOverflow,
    /// A received packet has no valid frame boundaries; it is dropped
    /// as if it had been lost in transit.
    MalformedPacket,
}

} // verus!
