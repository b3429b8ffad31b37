//! Coalescing of compressed frames into payload packets, and the
//! inverse split.
//!
//! A packet is self-describing: an empty packet carries no frames; a
//! packet of exactly one frame is that frame's bytes verbatim (the fast
//! path, no container overhead); two or more frames travel in a framed
//! container — a mark byte, a frame count, then each frame behind a
//! two-byte little-endian length prefix. The container's mark byte
//! distinguishes it from a verbatim single frame whose first byte
//! differs from the mark.

use vstd::prelude::*;

use crate::errors::VoiceError;
use crate::MAX_FRAMES_PER_PACKET;
use crate::MAX_FRAME_BYTES;
use crate::MAX_PACKET_BYTES;

verus! {

/// First byte of a framed multi-frame container.
pub const FRAME_MARK: u8 = 255;

/// A compressed frame the packet layer accepts: non-empty and within
/// the codec's single-frame ceiling.
pub open spec fn frame_wf(f: Seq<u8>) -> bool {
    1 <= f.len() <= MAX_FRAME_BYTES
}

/// Every frame of the sequence is acceptable.
pub open spec fn frames_wf(fs: Seq<Seq<u8>>) -> bool {
    forall|i: int| 0 <= i < fs.len() ==> frame_wf(#[trigger] fs[i])
}

/// The two-byte little-endian length prefix written before a frame.
pub open spec fn len_prefix(f: Seq<u8>) -> Seq<u8> {
    seq![(f.len() % 256) as u8, ((f.len() / 256) % 256) as u8]
}

/// The body of a framed container: each frame in order, behind its
/// length prefix.
pub open spec fn ser_frames(fs: Seq<Seq<u8>>) -> Seq<u8>
    decreases fs.len(),
{
    if fs.len() == 0 {
        Seq::empty()
    } else {
        len_prefix(fs[0]) + fs[0] + ser_frames(fs.skip(1))
    }
}

/// The packet that carries the given frames: nothing for no frames,
/// the single frame verbatim, or a framed container.
pub open spec fn packet_of(fs: Seq<Seq<u8>>) -> Seq<u8> {
    if fs.len() == 0 {
        Seq::empty()
    } else if fs.len() == 1 {
        fs[0]
    } else {
        seq![FRAME_MARK, fs.len() as u8] + ser_frames(fs)
    }
}

/// Reads exactly `n` length-prefixed frames that must consume all of
/// `p`, or nothing if the bytes do not parse that way.
pub open spec fn parse_frames(p: Seq<u8>, n: nat) -> Option<Seq<Seq<u8>>>
    decreases n,
{
    if n == 0 {
        if p.len() == 0 {
            Some(Seq::empty())
        } else {
            None
        }
    } else if p.len() < 2 {
        None
    } else {
        let l = p[0] as int + 256 * (p[1] as int);
        if l < 1 || p.len() < 2 + l {
            None
        } else {
            match parse_frames(p.skip(2 + l), (n - 1) as nat) {
                Some(rest) => Some(seq![p.subrange(2, 2 + l)] + rest),
                None => None,
            }
        }
    }
}

/// The frames a packet carries: none for an empty packet, the packet
/// itself when it is a verbatim single frame, or the container's
/// frames; nothing when a container's boundaries do not parse.
pub open spec fn parse_packet(p: Seq<u8>) -> Option<Seq<Seq<u8>>> {
    if p.len() == 0 {
        Some(Seq::empty())
    } else if p[0] != FRAME_MARK {
        Some(seq![p])
    } else if p.len() < 2 {
        None
    } else {
        let n = p[1] as int;
        if n < 2 {
            None
        } else {
            parse_frames(p.skip(2), n as nat)
        }
    }
}

/// Whether one more frame still fits into a packet already carrying
/// `fs`: the frame count and the serialized container size must both
/// stay within their ceilings, and the frame itself within the codec's
/// single-frame ceiling.
pub open spec fn can_append(fs: Seq<Seq<u8>>, f: Seq<u8>) -> bool {
    &&& fs.len() < MAX_FRAMES_PER_PACKET
    &&& f.len() <= MAX_FRAME_BYTES
    &&& 2 + ser_frames(fs).len() + 2 + f.len() <= MAX_PACKET_BYTES
}

/// The frames a coalescing session holds after being offered `fs` in
/// order, starting from `state`: empty frames are skipped, a frame
/// that fits is taken, and the first frame that does not fit stops the
/// session — the frames taken so far are kept, the rest are dropped.
pub open spec fn feed(state: Seq<Seq<u8>>, fs: Seq<Seq<u8>>) -> Seq<Seq<u8>>
    decreases fs.len(),
{
    if fs.len() == 0 {
        state
    } else if fs[0].len() == 0 {
        feed(state, fs.skip(1))
    } else if can_append(state, fs[0]) {
        feed(state.push(fs[0]), fs.skip(1))
    } else {
        state
    }
}

/// The mathematical contents of a vector of byte frames.
pub open spec fn frames_seq(v: Seq<Vec<u8>>) -> Seq<Seq<u8>> {
    Seq::new(v.len(), |i: int| v[i]@)
}

/// Appending one frame to a serialized container appends its length
/// prefix and bytes at the end.
pub proof fn lemma_ser_snoc(fs: Seq<Seq<u8>>, f: Seq<u8>)
    ensures
        ser_frames(fs.push(f)) == ser_frames(fs) + len_prefix(f) + f,
    decreases fs.len(),
{
    let s = fs.push(f);
    if fs.len() == 0 {
        assert(s.skip(1) =~= Seq::<Seq<u8>>::empty());
        assert(ser_frames(s.skip(1)) == Seq::<u8>::empty());
        assert(ser_frames(s) == len_prefix(s[0]) + s[0] + ser_frames(s.skip(1)));
        assert(ser_frames(s) =~= ser_frames(fs) + len_prefix(f) + f);
    } else {
        assert(s.skip(1) =~= fs.skip(1).push(f));
        lemma_ser_snoc(fs.skip(1), f);
        assert(ser_frames(s.skip(1)) == ser_frames(fs.skip(1)) + len_prefix(f) + f);
        assert(ser_frames(s) == len_prefix(s[0]) + s[0] + ser_frames(s.skip(1)));
        assert(ser_frames(fs) == len_prefix(fs[0]) + fs[0] + ser_frames(fs.skip(1)));
        assert(s[0] == fs[0]);
        assert(ser_frames(s) =~= ser_frames(fs) + len_prefix(f) + f);
    }
}

/// Reading back a serialized container recovers exactly the frames
/// that were written, in order.
pub proof fn lemma_parse_ser(fs: Seq<Seq<u8>>)
    requires
        frames_wf(fs),
    ensures
        parse_frames(ser_frames(fs), fs.len()) == Some(fs),
    decreases fs.len(),
{
    if fs.len() == 0 {
        assert(parse_frames(ser_frames(fs), 0) == Some(Seq::<Seq<u8>>::empty()));
        assert(Seq::<Seq<u8>>::empty() =~= fs);
    } else {
        let f0 = fs[0];
        let rest = fs.skip(1);
        let p = ser_frames(fs);
        let lf = f0.len() as int;
        vstd::arithmetic::div_mod::lemma_fundamental_div_mod(lf, 256);
        assert((lf / 256) % 256 == lf / 256) by {
            vstd::arithmetic::div_mod::lemma_small_mod((lf / 256) as nat, 256);
        }
        assert(p[0] as int + 256 * (p[1] as int) == lf);
        assert(p.subrange(2, 2 + lf) =~= f0);
        assert(p.skip(2 + lf) =~= ser_frames(rest));
        assert(frames_wf(rest)) by {
            assert(forall|i: int|
                0 <= i < rest.len() ==> #[trigger] rest[i] == fs[i + 1]);
        }
        lemma_parse_ser(rest);
        assert(parse_frames(ser_frames(rest), rest.len()) == Some(rest));
        assert(seq![p.subrange(2, 2 + lf)] + rest =~= fs);
    }
}

/// Round trip of the packet layer: splitting a finalized packet gives
/// back exactly the coalesced frames — same count, same bytes, same
/// order. The one excluded shape is a lone frame whose first byte
/// equals the container mark, which the verbatim fast path could not
/// tell apart from a container.
pub proof fn lemma_packet_round_trip(fs: Seq<Seq<u8>>)
    requires
        frames_wf(fs),
        fs.len() <= MAX_FRAMES_PER_PACKET,
        fs.len() == 1 ==> fs[0][0] != FRAME_MARK,
    ensures
        parse_packet(packet_of(fs)) == Some(fs),
{
    if fs.len() == 0 {
        assert(Seq::<Seq<u8>>::empty() =~= fs);
    } else if fs.len() == 1 {
        let p = packet_of(fs);
        assert(p == fs[0]);
        assert(p.len() >= 1);
        assert(seq![p] =~= fs);
    } else {
        let p = packet_of(fs);
        let body = ser_frames(fs);
        assert(p.len() >= 2);
        assert(p[0] == FRAME_MARK);
        assert(p[1] as int == fs.len());
        assert(p.skip(2) =~= body);
        lemma_parse_ser(fs);
        assert(parse_packet(p) == parse_frames(body, fs.len()));
    }
}

/// Round trip of a whole production cycle: when a cycle's coalescing
/// session accepts every frame offered to it, the packet the cycle
/// emits splits back into exactly those frames, in order.
pub proof fn lemma_cycle_round_trip(fs: Seq<Seq<u8>>)
    requires
        frames_wf(fs),
        fs.len() <= MAX_FRAMES_PER_PACKET,
        feed(Seq::empty(), fs) == fs,
        fs.len() == 1 ==> fs[0][0] != FRAME_MARK,
    ensures
        parse_packet(packet_of(feed(Seq::empty(), fs))) == Some(fs),
{
    lemma_packet_round_trip(fs);
}

/// A partially coalesced session is still a valid, non-empty packet:
/// when an overflow stops a cycle early, finalizing what was accepted
/// yields a packet that splits back into exactly those frames.
pub proof fn lemma_partial_packet_still_valid(fs: Seq<Seq<u8>>)
    requires
        frames_wf(fs),
        1 <= fs.len() <= MAX_FRAMES_PER_PACKET,
        fs.len() == 1 ==> fs[0][0] != FRAME_MARK,
    ensures
        packet_of(fs).len() >= 1,
        parse_packet(packet_of(fs)) == Some(fs),
{
    lemma_packet_round_trip(fs);
}

/// An empty cycle is a no-op end to end: no frames make an empty
/// packet, and an empty packet carries no frames.
pub proof fn lemma_empty_cycle_no_op()
    ensures
        packet_of(Seq::<Seq<u8>>::empty()) == Seq::<u8>::empty(),
        parse_packet(Seq::<u8>::empty()) == Some(Seq::<Seq<u8>>::empty()),
{
}

/// The single-frame fast path: a cycle that captured exactly one
/// acceptable frame emits that frame's bytes verbatim as the packet,
/// with no container overhead.
pub proof fn lemma_single_frame_fast_path(f: Seq<u8>)
    requires
        frame_wf(f),
    ensures
        feed(Seq::empty(), seq![f]) == seq![f],
        packet_of(feed(Seq::empty(), seq![f])) == f,
{
    assert(can_append(Seq::empty(), f));
    let s1 = Seq::<Seq<u8>>::empty().push(f);
    assert(feed(Seq::empty(), seq![f]) == feed(s1, seq![f].skip(1)));
    assert(seq![f].skip(1).len() == 0);
    assert(feed(s1, seq![f].skip(1)) == s1);
    assert(s1 =~= seq![f]);
}

/// The parse of a whole packet, given the frames already read off its
/// front and the parse of what remains.
spec fn prepend_parsed(pre: Seq<Seq<u8>>, rest: Option<Seq<Seq<u8>>>) -> Option<
    Seq<Seq<u8>>,
> {
    match rest {
        Some(r) => Some(pre + r),
        None => None,
    }
}

/// A byte-for-byte copy of a frame.
#[verifier::loop_isolation(false)]
fn copy_bytes(src: &Vec<u8>) -> (r: Vec<u8>)
    ensures
        r@ == src@,
{
    let mut r: Vec<u8> = Vec::new();
    let mut i: usize = 0;
    while i < src.len()
        invariant
            i <= src.len(),
            r@ == src@.subrange(0, i as int),
        decreases src.len() - i,
    {
        r.push(src[i]);
        proof {
            assert(r@ =~= src@.subrange(0, i + 1));
        }
        i = i + 1;
    }
    proof {
        assert(r@ =~= src@);
    }
    r
}

/// An in-progress coalescing session: the compressed frames accepted
/// so far, and the byte size the framed container would have.
pub struct Repacketizer {
    frames: Vec<Vec<u8>>,
    total: usize,
}

impl View for Repacketizer {
    type V = Seq<Seq<u8>>;

    /// The frames accepted so far, in order.
    closed spec fn view(&self) -> Seq<Seq<u8>> {
        frames_seq(self.frames@)
    }
}

impl Repacketizer {
    /// The session never exceeds the packet ceilings, and its running
    /// size total matches the container serialization of its frames.
    pub closed spec fn wf(&self) -> bool {
        &&& self@.len() <= MAX_FRAMES_PER_PACKET
        &&& frames_wf(self@)
        &&& self.total == 2 + ser_frames(self@).len()
        &&& self.total <= MAX_PACKET_BYTES
    }

    /// A fresh session holding no frames.
    pub fn new() -> (r: Repacketizer)
        ensures
            r.wf(),
            r@ == Seq::<Seq<u8>>::empty(),
    {
        let r = Repacketizer { frames: Vec::new(), total: 2 };
        proof {
            assert(r@ =~= Seq::<Seq<u8>>::empty());
        }
        r
    }

    /// Starts a new coalescing session, independent of prior sessions.
    pub fn begin(&mut self)
        ensures
            final(self).wf(),
            final(self)@ == Seq::<Seq<u8>>::empty(),
    {
        self.frames.clear();
        self.total = 2;
        proof {
            assert(self@ =~= Seq::<Seq<u8>>::empty());
        }
    }

    /// How many frames the session has accepted so far.
    pub fn frame_count(&self) -> (n: usize)
        ensures
            n == self@.len(),
    {
        self.frames.len()
    }

    /// Offers one compressed frame to the in-progress packet. An empty
    /// frame is a no-op; a frame that would push the session past a
    /// packet limit is refused with `RepacketizeOverflow` and the
    /// session is left unchanged, still ready to be finalized.
    pub fn append(&mut self, frame: &Vec<u8>) -> (r: Result<(), VoiceError>)
        requires
            old(self).wf(),
        ensures
            final(self).wf(),
            frame@.len() == 0 ==> r is Ok && final(self)@ == old(self)@,
            frame@.len() > 0 && can_append(old(self)@, frame@) ==> r is Ok && final(self)@
                == old(self)@.push(frame@),
            frame@.len() > 0 && !can_append(old(self)@, frame@) ==> r == Err::<
                (),
                VoiceError,
            >(VoiceError::RepacketizeOverflow) && final(self)@ == old(self)@,
    {
        if frame.len() == 0 {
            return Ok(());
        }
        if frame.len() > MAX_FRAME_BYTES || self.frames.len() >= MAX_FRAMES_PER_PACKET {
            return Err(VoiceError::RepacketizeOverflow);
        }
        let need = self.total + 2 + frame.len();
        if need > MAX_PACKET_BYTES {
            return Err(VoiceError::RepacketizeOverflow);
        }
        let owned = copy_bytes(frame);
        proof {
            lemma_ser_snoc(self@, frame@);
        }
        self.frames.push(owned);
        self.total = need;
        proof {
            assert(self@ =~= old(self)@.push(frame@));
        }
        Ok(())
    }

    /// Serializes the session into one payload packet: nothing for an
    /// empty session, the single frame verbatim, or a framed container
    /// never larger than the packet ceiling.
    #[verifier::loop_isolation(false)]
    pub fn finalize(&self) -> (r: Vec<u8>)
        requires
            self.wf(),
        ensures
            r@ == packet_of(self@),
            r@.len() <= MAX_PACKET_BYTES,
    {
        let n = self.frames.len();
        if n == 0 {
            let r: Vec<u8> = Vec::new();
            proof {
                assert(r@ =~= packet_of(self@));
            }
            return r;
        }
        if n == 1 {
            let r = copy_bytes(&self.frames[0]);
            proof {
                assert(r@ =~= packet_of(self@));
            }
            return r;
        }
        let mut out: Vec<u8> = Vec::new();
        out.push(FRAME_MARK);
        out.push(n as u8);
        proof {
            assert(self@.take(0) =~= Seq::<Seq<u8>>::empty());
            assert(out@ =~= seq![FRAME_MARK, n as u8] + ser_frames(self@.take(0)));
        }
        let mut i: usize = 0;
        while i < n
            invariant
                i <= n,
                out@ == seq![FRAME_MARK, n as u8] + ser_frames(self@.take(i as int)),
            decreases n - i,
        {
            let flen = self.frames[i].len();
            assert(frame_wf(self@[i as int]));
            out.push((flen % 256) as u8);
            out.push((flen / 256) as u8);
            let mut j: usize = 0;
            while j < flen
                invariant
                    j <= flen,
                    i < n,
                    flen == self@[i as int].len(),
                    out@ == seq![FRAME_MARK, n as u8] + ser_frames(self@.take(i as int))
                        + len_prefix(self@[i as int]) + self@[i as int].subrange(0, j as int),
                decreases flen - j,
            {
                out.push(self.frames[i][j]);
                proof {
                    assert(out@ =~= seq![FRAME_MARK, n as u8] + ser_frames(
                        self@.take(i as int),
                    ) + len_prefix(self@[i as int]) + self@[i as int].subrange(0, j + 1));
                }
                j = j + 1;
            }
            proof {
                lemma_ser_snoc(self@.take(i as int), self@[i as int]);
                assert(self@.take(i as int).push(self@[i as int]) =~= self@.take(i + 1));
                assert(self@[i as int].subrange(0, flen as int) =~= self@[i as int]);
                assert(out@ =~= seq![FRAME_MARK, n as u8] + ser_frames(self@.take(i + 1)));
            }
            i = i + 1;
        }
        proof {
            assert(self@.take(n as int) =~= self@);
            assert(out@ =~= packet_of(self@));
        }
        out
    }

    /// Splits a received packet back into its constituent compressed
    /// frames, in their original order; each is non-empty. An empty
    /// packet yields no frames; a container whose frame boundaries do
    /// not parse is refused whole with `MalformedPacket`, as if the
    /// packet had been lost in transit.
    #[verifier::loop_isolation(false)]
    pub fn split(packet: &Vec<u8>) -> (r: Result<Vec<Vec<u8>>, VoiceError>)
        ensures
            (match r {
                Ok(fs) => parse_packet(packet@) == Some(frames_seq(fs@)) && forall|i: int|
                    0 <= i < fs@.len() ==> (#[trigger] fs@[i])@.len() >= 1,
                Err(e) => e == VoiceError::MalformedPacket && parse_packet(packet@) is None,
            }),
    {
        if packet.len() == 0 {
            let fs: Vec<Vec<u8>> = Vec::new();
            proof {
                assert(frames_seq(fs@) =~= Seq::<Seq<u8>>::empty());
            }
            return Ok(fs);
        }
        if packet[0] != FRAME_MARK {
            let mut fs: Vec<Vec<u8>> = Vec::new();
            fs.push(copy_bytes(packet));
            proof {
                assert(frames_seq(fs@) =~= seq![packet@]);
            }
            return Ok(fs);
        }
        if packet.len() < 2 {
            return Err(VoiceError::MalformedPacket);
        }
        let n = packet[1] as usize;
        if n < 2 {
            return Err(VoiceError::MalformedPacket);
        }
        let mut fs: Vec<Vec<u8>> = Vec::new();
        let mut pos: usize = 2;
        let mut k: usize = 0;
        proof {
            let rest0 = parse_frames(packet@.skip(2), n as nat);
            assert(frames_seq(fs@) =~= Seq::<Seq<u8>>::empty());
            assert(rest0 matches Some(r0) ==> frames_seq(fs@) + r0 =~= r0);
            assert(parse_packet(packet@) == prepend_parsed(frames_seq(fs@), rest0));
        }
        while k < n
            invariant
                k <= n,
                2 <= pos <= packet.len(),
                fs@.len() == k,
                forall|i: int| 0 <= i < fs@.len() ==> (#[trigger] fs@[i])@.len() >= 1,
                parse_packet(packet@) == prepend_parsed(
                    frames_seq(fs@),
                    parse_frames(packet@.skip(pos as int), (n - k) as nat),
                ),
            decreases n - k,
        {
            let ghost s = packet@.skip(pos as int);
            let ghost m = (n - k) as nat;
            if packet.len() - pos < 2 {
                proof {
                    assert(s.len() < 2);
                    assert(parse_frames(s, m) is None);
                }
                return Err(VoiceError::MalformedPacket);
            }
            let l = packet[pos] as usize + 256 * (packet[pos + 1] as usize);
            proof {
                assert(s[0] == packet@[pos as int]);
                assert(s[1] == packet@[pos as int + 1]);
                assert(l as int == s[0] as int + 256 * (s[1] as int));
            }
            if l < 1 || packet.len() - (pos + 2) < l {
                proof {
                    assert(parse_frames(s, m) is None);
                }
                return Err(VoiceError::MalformedPacket);
            }
            let mut fr: Vec<u8> = Vec::new();
            let mut j: usize = 0;
            while j < l
                invariant
                    j <= l,
                    pos + 2 + l <= packet.len(),
                    fr@ == packet@.subrange(pos as int + 2, pos as int + 2 + j),
                decreases l - j,
            {
                fr.push(packet[pos + 2 + j]);
                proof {
                    assert(fr@ =~= packet@.subrange(pos as int + 2, pos as int + 2 + j + 1));
                }
                j = j + 1;
            }
            proof {
                assert(s.subrange(2, 2 + l as int) =~= packet@.subrange(
                    pos as int + 2,
                    pos as int + 2 + l,
                ));
                assert(s.skip(2 + l as int) =~= packet@.skip(pos as int + 2 + l));
                let rest_new = parse_frames(packet@.skip(pos as int + 2 + l), (m - 1) as nat);
                assert(rest_new matches Some(rr) ==> parse_frames(s, m) == Some(
                    seq![fr@] + rr,
                ));
                assert(rest_new is None ==> parse_frames(s, m) is None);
                assert(frames_seq(fs@.push(fr)) =~= frames_seq(fs@).push(fr@));
                assert(rest_new matches Some(rr) ==> frames_seq(fs@) + (seq![fr@] + rr)
                    =~= frames_seq(fs@).push(fr@) + rr);
            }
            fs.push(fr);
            pos = pos + 2 + l;
            k = k + 1;
        }
        if pos != packet.len() {
            proof {
                assert(packet@.skip(pos as int).len() > 0);
                assert(parse_frames(packet@.skip(pos as int), 0) is None);
            }
            return Err(VoiceError::MalformedPacket);
        }
        proof {
            assert(packet@.skip(pos as int).len() == 0);
            assert(parse_frames(packet@.skip(pos as int), 0) == Some(Seq::<Seq<u8>>::empty()));
            assert(frames_seq(fs@) + Seq::<Seq<u8>>::empty() =~= frames_seq(fs@));
        }
        Ok(fs)
    }
}

} // verus!
