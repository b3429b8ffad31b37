//! Bounded ring of decoded samples between the decode path and the mixer.
//!
//! The decode path appends; the real-time mix callback drains. The ring
//! favours the newest audio: when an append does not fit, the oldest
//! unread samples are dropped to make room. A drain never blocks and
//! never under-delivers; any shortfall is filled with silence.

use vstd::prelude::*;

verus! {

/// The samples a ring holds after `s` is appended to it, once the
/// oldest samples beyond the capacity `cap` are dropped.
pub open spec fn keep_newest(s: Seq<i16>, cap: nat) -> Seq<i16> {
    if s.len() <= cap {
        s
    } else {
        s.skip(s.len() - cap)
    }
}

/// A fixed-capacity queue of mono samples, oldest first.
pub struct PlaybackRing {
    data: Vec<i16>,
    cap: usize,
}

impl View for PlaybackRing {
    type V = Seq<i16>;

    /// The buffered samples, oldest first.
    closed spec fn view(&self) -> Seq<i16> {
        self.data@
    }
}

impl PlaybackRing {
    /// The fixed capacity the ring was created with.
    pub closed spec fn cap_of(&self) -> nat {
        self.cap as nat
    }

    /// The ring never holds more than its capacity.
    pub closed spec fn wf(&self) -> bool {
        self.data@.len() <= self.cap
    }

    /// An empty ring of the given fixed capacity.
    pub fn new(capacity: usize) -> (r: PlaybackRing)
        ensures
            r.wf(),
            r.cap_of() == capacity,
            r@ == Seq::<i16>::empty(),
    {
        let r = PlaybackRing { data: Vec::new(), cap: capacity };
        proof {
            assert(r@ =~= Seq::<i16>::empty());
        }
        r
    }

    /// How many samples are currently buffered.
    pub fn len(&self) -> (n: usize)
        ensures
            n == self@.len(),
    {
        self.data.len()
    }

    /// The fixed capacity, in samples.
    pub fn capacity(&self) -> (n: usize)
        ensures
            n == self.cap_of(),
    {
        self.cap
    }

    /// Appends decoded samples. When they do not all fit, the oldest
    /// buffered samples are dropped first, so the ring always ends up
    /// holding the newest audio.
    #[verifier::loop_isolation(false)]
    pub fn push(&mut self, samples: &Vec<i16>)
        requires
            old(self).wf(),
            old(self)@.len() + samples@.len() <= usize::MAX,
        ensures
            final(self).wf(),
            final(self).cap_of() == old(self).cap_of(),
            final(self)@ == keep_newest(old(self)@ + samples@, old(self).cap_of()),
    {
        let ghost whole: Seq<i16> = self.data@ + samples@;
        let dlen = self.data.len();
        let total = dlen + samples.len();
        let start: usize = if total > self.cap {
            total - self.cap
        } else {
            0
        };
        let mut nd: Vec<i16> = Vec::new();
        let mut k = start;
        while k < total
            invariant
                start <= k <= total,
                nd@ == whole.subrange(start as int, k as int),
            decreases total - k,
        {
            if k < dlen {
                nd.push(self.data[k]);
            } else {
                nd.push(samples[k - dlen]);
            }
            proof {
                assert(nd@ =~= whole.subrange(start as int, k + 1));
            }
            k = k + 1;
        }
        proof {
            assert(nd@ =~= keep_newest(whole, self.cap as nat));
        }
        self.data = nd;
    }

    /// Hands the mixer exactly `count` samples: the oldest buffered
    /// samples first, and silence for any shortfall. Never blocks and
    /// never under-delivers, whatever the ring held before.
    #[verifier::loop_isolation(false)]
    pub fn pull(&mut self, count: usize) -> (out: Vec<i16>)
        requires
            old(self).wf(),
        ensures
            final(self).wf(),
            final(self).cap_of() == old(self).cap_of(),
            out@.len() == count,
            forall|i: int|
                0 <= i < count && i < old(self)@.len() ==> out@[i] == old(self)@[i],
            forall|i: int| old(self)@.len() <= i < count ==> out@[i] == 0i16,
            final(self)@ == (if count <= old(self)@.len() {
                old(self)@.skip(count as int)
            } else {
                Seq::<i16>::empty()
            }),
    {
        let m = if count <= self.data.len() {
            count
        } else {
            self.data.len()
        };
        let mut out: Vec<i16> = Vec::new();
        let mut i: usize = 0;
        while i < m
            invariant
                i <= m,
                out@.len() == i,
                forall|j: int| 0 <= j < i ==> out@[j] == self.data@[j],
            decreases m - i,
        {
            out.push(self.data[i]);
            i = i + 1;
        }
        while i < count
            invariant
                m <= i <= count,
                out@.len() == i,
                forall|j: int| 0 <= j < m ==> out@[j] == self.data@[j],
                forall|j: int| m <= j < i ==> out@[j] == 0i16,
            decreases count - i,
        {
            out.push(0i16);
            i = i + 1;
        }
        let mut rest: Vec<i16> = Vec::new();
        let mut j = m;
        while j < self.data.len()
            invariant
                m <= j <= self.data.len(),
                rest@ == self.data@.subrange(m as int, j as int),
            decreases self.data.len() - j,
        {
            rest.push(self.data[j]);
            proof {
                assert(rest@ =~= self.data@.subrange(m as int, j + 1));
            }
            j = j + 1;
        }
        proof {
            if count <= self.data@.len() {
                assert(rest@ =~= self.data@.skip(count as int));
            } else {
                assert(rest@ =~= Seq::<i16>::empty());
            }
        }
        self.data = rest;
        out
    }

    /// Discards everything buffered, for stream resets after a large
    /// latency build-up.
    pub fn clear(&mut self)
        requires
            old(self).wf(),
        ensures
            final(self).wf(),
            final(self).cap_of() == old(self).cap_of(),
            final(self)@ == Seq::<i16>::empty(),
    {
        self.data.clear();
        proof {
            assert(self.data@ =~= Seq::<i16>::empty());
        }
    }
}

} // verus!
