//! The two pipeline halves.
//!
//! The capture side owns the buffered sample stream and turns one
//! production cycle's compressed frames into a single payload packet,
//! coalescing as many as fit and dropping the rest of the cycle on
//! overflow — partial output is preferred over none. The playback side
//! owns the bounded ring that the receive path fills and the real-time
//! mixer drains on its own schedule.
//!
//! The codec itself is an external collaborator: the capture side hands
//! out whole PCM frames to be encoded, and the playback side takes the
//! decoded samples back. Both halves are specified and verified over
//! the plain values that cross that boundary.

use vstd::prelude::*;

use crate::capture::CaptureBuffer;
use crate::capture::PcmFrame;
use crate::capture::mono_mix_seq;
use crate::packets::Repacketizer;
use crate::packets::feed;
use crate::packets::frames_seq;
use crate::packets::packet_of;
use crate::ring::PlaybackRing;
use crate::ring::keep_newest;
use crate::MAX_FRAMES_PER_CYCLE;
use crate::MAX_PACKET_BYTES;
use crate::VOIP_FRAME_SIZE;

verus! {

/// The capture half: buffers raw microphone samples and coalesces each
/// cycle's compressed frames into one payload packet.
pub struct VoipEncoder {
    capture: CaptureBuffer,
}

impl View for VoipEncoder {
    type V = Seq<i16>;

    /// The captured samples buffered and not yet drained.
    closed spec fn view(&self) -> Seq<i16> {
        self.capture@
    }
}

impl VoipEncoder {
    /// A capture half with nothing buffered.
    pub fn new() -> (r: VoipEncoder)
        ensures
            r@ == Seq::<i16>::empty(),
    {
        VoipEncoder { capture: CaptureBuffer::new() }
    }

    /// Appends newly captured mono samples from the input device.
    pub fn push_samples(&mut self, samples: &Vec<i16>)
        requires
            old(self)@.len() + samples@.len() <= usize::MAX,
        ensures
            final(self)@ == old(self)@ + samples@,
    {
        self.capture.push_samples(samples);
    }

    /// Appends newly captured interleaved stereo samples, downmixed to
    /// mono pair by pair.
    pub fn push_stereo_samples(&mut self, samples: &Vec<i16>)
        requires
            old(self)@.len() + samples@.len() <= usize::MAX,
        ensures
            final(self)@ == old(self)@ + mono_mix_seq(samples@),
    {
        self.capture.push_stereo_samples(samples);
    }

    /// Drains the whole frames this cycle may encode: as many as are
    /// buffered, capped per call, in capture order; a trailing partial
    /// frame stays buffered.
    pub fn drain_available(&mut self) -> (r: Vec<PcmFrame>)
        ensures
            r@.len() == (if old(self)@.len() as int / VOIP_FRAME_SIZE as int
                <= MAX_FRAMES_PER_CYCLE {
                old(self)@.len() as int / VOIP_FRAME_SIZE as int
            } else {
                MAX_FRAMES_PER_CYCLE as int
            }),
            r@.len() <= MAX_FRAMES_PER_CYCLE,
            forall|k: int|
                0 <= k < r@.len() ==> r@[k]@ == old(self)@.subrange(
                    k * VOIP_FRAME_SIZE,
                    (k + 1) * VOIP_FRAME_SIZE,
                ),
            forall|k: int| 0 <= k < r@.len() ==> (#[trigger] r@[k]).wf(),
            final(self)@ == old(self)@.skip(r@.len() * VOIP_FRAME_SIZE),
    {
        self.capture.drain_available()
    }

    /// Coalesces one cycle's compressed frames, in order, into a single
    /// payload packet: a fresh session takes each frame that fits, the
    /// first frame that does not fit ends the cycle, and whatever was
    /// accepted is emitted — an empty packet when nothing was, the
    /// frame verbatim when exactly one was.
    #[verifier::loop_isolation(false)]
    pub fn pack_frames(frames: &Vec<Vec<u8>>) -> (r: Vec<u8>)
        ensures
            r@ == packet_of(feed(Seq::empty(), frames_seq(frames@))),
            r@.len() <= MAX_PACKET_BYTES,
    {
        let ghost full = frames_seq(frames@);
        let mut session = Repacketizer::new();
        let mut i: usize = 0;
        let mut open = true;
        proof {
            assert(full.skip(0) =~= full);
        }
        while open && i < frames.len()
            invariant
                i <= frames.len(),
                session.wf(),
                open ==> feed(Seq::empty(), full) == feed(session@, full.skip(i as int)),
                !open ==> feed(Seq::empty(), full) == session@,
            decreases frames.len() - i + (if open {
                1int
            } else {
                0int
            }),
        {
            let ghost state = session@;
            let ghost rest = full.skip(i as int);
            proof {
                assert(rest[0] == frames@[i as int]@);
                assert(rest.skip(1) =~= full.skip(i + 1));
            }
            match session.append(&frames[i]) {
                Ok(_) => {
                    proof {
                        if frames@[i as int]@.len() == 0 {
                            assert(feed(state, rest) == feed(state, rest.skip(1)));
                        } else {
                            assert(feed(state, rest) == feed(
                                state.push(rest[0]),
                                rest.skip(1),
                            ));
                        }
                    }
                    i = i + 1;
                },
                Err(_) => {
                    proof {
                        assert(feed(state, rest) == state);
                    }
                    open = false;
                },
            }
        }
        proof {
            if open {
                assert(full.skip(i as int).len() == 0);
            }
        }
        session.finalize()
    }
}

/// The playback half: owns the bounded ring between the receive path's
/// decode loop and the host's real-time mix callback.
pub struct VoipDecoder {
    ring: PlaybackRing,
}

impl View for VoipDecoder {
    type V = Seq<i16>;

    /// The decoded samples buffered for the mixer, oldest first.
    closed spec fn view(&self) -> Seq<i16> {
        self.ring@
    }
}

impl VoipDecoder {
    /// The ring's fixed capacity, in samples.
    pub closed spec fn cap_of(&self) -> nat {
        self.ring.cap_of()
    }

    /// The playback half never buffers beyond its fixed capacity.
    pub closed spec fn wf(&self) -> bool {
        self.ring.wf()
    }

    /// A playback half with an empty ring of the given capacity.
    pub fn new(capacity: usize) -> (r: VoipDecoder)
        ensures
            r.wf(),
            r.cap_of() == capacity,
            r@ == Seq::<i16>::empty(),
    {
        VoipDecoder { ring: PlaybackRing::new(capacity) }
    }

    /// Appends one decoded frame's samples for the mixer. When they do
    /// not all fit, the oldest unread samples are dropped first: live
    /// voice favours the newest audio over stale audio.
    pub fn push_decoded(&mut self, samples: &Vec<i16>)
        requires
            old(self).wf(),
            old(self)@.len() + samples@.len() <= usize::MAX,
        ensures
            final(self).wf(),
            final(self).cap_of() == old(self).cap_of(),
            final(self)@ == keep_newest(old(self)@ + samples@, old(self).cap_of()),
    {
        self.ring.push(samples);
    }

    /// The real-time mix pull: always exactly `count` samples, the
    /// oldest buffered audio first and silence for any shortfall,
    /// whatever state the ring is in. Never blocks.
    pub fn mix(&mut self, count: usize) -> (out: Vec<i16>)
        requires
            old(self).wf(),
        ensures
            final(self).wf(),
            final(self).cap_of() == old(self).cap_of(),
            out@.len() == count,
            forall|i: int|
                0 <= i < count && i < old(self)@.len() ==> out@[i] == old(self)@[i],
            forall|i: int| old(self)@.len() <= i < count ==> out@[i] == 0i16,
            final(self)@ == (if count <= old(self)@.len() {
                old(self)@.skip(count as int)
            } else {
                Seq::<i16>::empty()
            }),
    {
        self.ring.pull(count)
    }

    /// How many decoded samples are buffered for the mixer.
    pub fn stream_size(&self) -> (n: usize)
        ensures
            n == self@.len(),
    {
        self.ring.len()
    }

    /// The ring's fixed capacity, in samples.
    pub fn capacity(&self) -> (n: usize)
        ensures
            n == self.cap_of(),
    {
        self.ring.capacity()
    }

    /// Discards all buffered samples, for stream resets when the gap
    /// between capture and playback has grown too large.
    pub fn clear_stream(&mut self)
        requires
            old(self).wf(),
        ensures
            final(self).wf(),
            final(self).cap_of() == old(self).cap_of(),
            final(self)@ == Seq::<i16>::empty(),
    {
        self.ring.clear();
    }
}

} // verus!
