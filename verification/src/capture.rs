//! Pull source that turns a captured raw sample stream into whole,
//! fixed-size codec frames.
//!
//! The input device appends whatever mono (or downmixed stereo) samples
//! it has; a drain hands back as many whole frames as are buffered, up
//! to a hard per-call cap that bounds the latency one production cycle
//! can add. A trailing partial frame always stays buffered for the next
//! call, and a drain never blocks.

use vstd::prelude::*;

use crate::MAX_FRAMES_PER_CYCLE;
use crate::VOIP_FRAME_SIZE;

verus! {

/// One fixed-duration chunk of mono samples, the codec's atomic unit
/// of work: always exactly `VOIP_FRAME_SIZE` samples, never partial.
pub struct PcmFrame {
    samples: Vec<i16>,
}

impl View for PcmFrame {
    type V = Seq<i16>;

    /// The frame's samples, in order.
    closed spec fn view(&self) -> Seq<i16> {
        self.samples@
    }
}

impl PcmFrame {
    /// A frame holds exactly one frame's worth of samples.
    pub open spec fn wf(&self) -> bool {
        self@.len() == VOIP_FRAME_SIZE
    }

    /// Wraps exactly one frame's worth of samples.
    pub fn new(samples: Vec<i16>) -> (r: PcmFrame)
        requires
            samples@.len() == VOIP_FRAME_SIZE,
        ensures
            r@ == samples@,
            r.wf(),
    {
        PcmFrame { samples }
    }

    /// The frame's samples, for handing to the codec.
    pub fn samples(&self) -> (r: &Vec<i16>)
        ensures
            r@ == self@,
    {
        &self.samples
    }
}

/// The mono downmix of one stereo sample pair: the floor of the
/// arithmetic mean of the two channels.
pub open spec fn mono_mix(l: i16, r: i16) -> i16 {
    (((l as int) + (r as int)) / 2) as i16
}

/// The mono downmix of an interleaved stereo stream, pair by pair;
/// a trailing unpaired sample is ignored.
pub open spec fn mono_mix_seq(s: Seq<i16>) -> Seq<i16> {
    Seq::new((s.len() / 2) as nat, |i: int| mono_mix(s[2 * i], s[2 * i + 1]))
}

/// Buffered raw samples awaiting frame extraction.
pub struct CaptureBuffer {
    pending: Vec<i16>,
}

impl View for CaptureBuffer {
    type V = Seq<i16>;

    /// The samples buffered and not yet drained, oldest first.
    closed spec fn view(&self) -> Seq<i16> {
        self.pending@
    }
}

impl CaptureBuffer {
    /// An empty capture buffer.
    pub fn new() -> (r: CaptureBuffer)
        ensures
            r@ == Seq::<i16>::empty(),
    {
        let r = CaptureBuffer { pending: Vec::new() };
        proof {
            assert(r@ =~= Seq::<i16>::empty());
        }
        r
    }

    /// How many whole frames a drain could return right now, before
    /// the per-call cap is applied.
    pub fn available_frames(&self) -> (n: usize)
        ensures
            n == self@.len() as int / VOIP_FRAME_SIZE as int,
    {
        self.pending.len() / VOIP_FRAME_SIZE
    }

    /// Appends newly captured mono samples.
    #[verifier::loop_isolation(false)]
    pub fn push_samples(&mut self, samples: &Vec<i16>)
        requires
            old(self)@.len() + samples@.len() <= usize::MAX,
        ensures
            final(self)@ == old(self)@ + samples@,
    {
        let mut i: usize = 0;
        while i < samples.len()
            invariant
                i <= samples.len(),
                self.pending@ == old(self)@ + samples@.subrange(0, i as int),
            decreases samples.len() - i,
        {
            self.pending.push(samples[i]);
            proof {
                assert(self.pending@ =~= old(self)@ + samples@.subrange(0, i + 1));
            }
            i = i + 1;
        }
        proof {
            assert(self.pending@ =~= old(self)@ + samples@);
        }
    }

    /// Appends newly captured interleaved stereo samples, downmixed to
    /// mono pair by pair; a trailing unpaired sample is ignored.
    #[verifier::loop_isolation(false)]
    pub fn push_stereo_samples(&mut self, samples: &Vec<i16>)
        requires
            old(self)@.len() + samples@.len() <= usize::MAX,
        ensures
            final(self)@ == old(self)@ + mono_mix_seq(samples@),
    {
        let pairs = samples.len() / 2;
        let mut i: usize = 0;
        while i < pairs
            invariant
                i <= pairs,
                pairs == samples@.len() as int / 2,
                self.pending@ == old(self)@ + mono_mix_seq(samples@).subrange(0, i as int),
            decreases pairs - i,
        {
            let l = samples[2 * i];
            let r = samples[2 * i + 1];
            let shifted: u32 = ((l as i32) + (r as i32) + 65536) as u32;
            let m: i16 = ((shifted / 2) as i32 - 32768) as i16;
            proof {
                let t: int = l as int + r as int;
                vstd::arithmetic::div_mod::lemma_fundamental_div_mod(t, 2);
                vstd::arithmetic::div_mod::lemma_fundamental_div_mod(t + 65536, 2);
                assert(m == mono_mix(l, r));
            }
            self.pending.push(m);
            proof {
                assert(self.pending@ =~= old(self)@ + mono_mix_seq(samples@).subrange(
                    0,
                    i + 1,
                ));
            }
            i = i + 1;
        }
        proof {
            assert(self.pending@ =~= old(self)@ + mono_mix_seq(samples@));
        }
    }

    /// Drains as many whole frames as are buffered, up to the per-call
    /// cap; any trailing partial frame stays buffered. Returns an empty
    /// sequence when less than one whole frame is available, and never
    /// blocks.
    #[verifier::loop_isolation(false)]
    pub fn drain_available(&mut self) -> (r: Vec<PcmFrame>)
        ensures
            r@.len() == (if old(self)@.len() as int / VOIP_FRAME_SIZE as int
                <= MAX_FRAMES_PER_CYCLE {
                old(self)@.len() as int / VOIP_FRAME_SIZE as int
            } else {
                MAX_FRAMES_PER_CYCLE as int
            }),
            r@.len() <= MAX_FRAMES_PER_CYCLE,
            forall|k: int|
                0 <= k < r@.len() ==> r@[k]@ == old(self)@.subrange(
                    k * VOIP_FRAME_SIZE,
                    (k + 1) * VOIP_FRAME_SIZE,
                ),
            forall|k: int| 0 <= k < r@.len() ==> (#[trigger] r@[k]).wf(),
            final(self)@ == old(self)@.skip(r@.len() * VOIP_FRAME_SIZE),
    {
        let avail = self.pending.len() / VOIP_FRAME_SIZE;
        let n = if avail <= MAX_FRAMES_PER_CYCLE {
            avail
        } else {
            MAX_FRAMES_PER_CYCLE
        };
        proof {
            vstd::arithmetic::div_mod::lemma_fundamental_div_mod(
                self.pending@.len() as int,
                VOIP_FRAME_SIZE as int,
            );
            assert(n * VOIP_FRAME_SIZE <= self.pending@.len());
        }
        let mut out: Vec<PcmFrame> = Vec::new();
        let mut i: usize = 0;
        while i < n
            invariant
                i <= n,
                n * VOIP_FRAME_SIZE <= self.pending@.len(),
                out@.len() == i,
                forall|k: int|
                    0 <= k < i ==> out@[k]@ == self.pending@.subrange(
                        k * VOIP_FRAME_SIZE,
                        (k + 1) * VOIP_FRAME_SIZE,
                    ),
            decreases n - i,
        {
            let base = i * VOIP_FRAME_SIZE;
            let mut fr: Vec<i16> = Vec::new();
            let mut j: usize = 0;
            while j < VOIP_FRAME_SIZE
                invariant
                    j <= VOIP_FRAME_SIZE,
                    i < n,
                    base == i * VOIP_FRAME_SIZE,
                    n * VOIP_FRAME_SIZE <= self.pending@.len(),
                    fr@ == self.pending@.subrange(base as int, base + j),
                decreases VOIP_FRAME_SIZE - j,
            {
                fr.push(self.pending[base + j]);
                proof {
                    assert(fr@ =~= self.pending@.subrange(base as int, base + j + 1));
                }
                j = j + 1;
            }
            out.push(PcmFrame::new(fr));
            i = i + 1;
        }
        let cut = n * VOIP_FRAME_SIZE;
        let mut rest: Vec<i16> = Vec::new();
        let mut j = cut;
        while j < self.pending.len()
            invariant
                cut <= j <= self.pending.len(),
                rest@ == self.pending@.subrange(cut as int, j as int),
            decreases self.pending.len() - j,
        {
            rest.push(self.pending[j]);
            proof {
                assert(rest@ =~= self.pending@.subrange(cut as int, j + 1));
            }
            j = j + 1;
        }
        proof {
            assert(rest@ =~= self.pending@.skip(cut as int));
        }
        self.pending = rest;
        out
    }
}

} // verus!
