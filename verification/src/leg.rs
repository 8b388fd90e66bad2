//! One capture leg: its history ring and the packet times of its generation.

use crate::config::MAX_FRAMES;
use crate::ieee::{Frame, Single};
use crate::packet::Stamp;
use crate::ring::{acceptable, interleaved, lemma_sounding_zero, packet_frames, sounding, FrameRing};
use crate::state::LegView;
use vstd::prelude::*;

verus! {

pub struct LegState {
    ring: FrameRing,
    /// First packet of the current generation.
    anchor: Option<Stamp>,
    /// Previous packet, of any generation.
    last: Option<Stamp>,
    gen_start: u64,
    log: Ghost<Seq<Frame>>,
}

proof fn lemma_sounding_bound(s: Seq<Frame>)
    ensures
        sounding(s) <= s.len(),
    decreases s.len(),
{
    if s.len() > 0 {
        lemma_sounding_bound(s.drop_last());
    }
}

impl LegState {
    pub closed spec fn view(self) -> LegView {
        LegView {
            log: self.log@,
            start: self.ring@.start,
            anchor: self.anchor,
            last: self.last,
            gen_start: self.gen_start as int,
        }
    }

    pub closed spec fn capacity(self) -> nat {
        self.ring.capacity()
    }

    pub closed spec fn wf(self) -> bool {
        &&& self.ring.wf()
        &&& 0 <= self.ring@.start
        &&& self.ring@.end() == self.log@.len()
        &&& self.ring@.frames == self.log@.subrange(self.ring@.start, self.log@.len() as int)
        &&& self.ring.sounded() <= self.log@.len()
    }

    pub proof fn lemma_wf(self)
        requires
            self.wf(),
        ensures
            0 <= self@.start <= self@.end() <= u64::MAX,
            self@.end() - self@.start <= self.capacity(),
            0 <= self@.gen_start <= u64::MAX,
    {
        self.ring.lemma_wf();
    }

    pub fn new(cap: usize) -> (r: LegState)
        requires
            cap > 0,
            8 * cap <= isize::MAX,
        ensures
            r.wf(),
            r.capacity() == cap,
            r@ == LegView::fresh(),
    {
        let r = LegState {
            ring: FrameRing::new(cap),
            anchor: None,
            last: None,
            gen_start: 0,
            log: Ghost(Seq::empty()),
        };
        assert(r.ring@.frames =~= r.log@.subrange(0, 0));
        r
    }

    pub fn start(&self) -> (r: u64)
        requires
            self.wf(),
        ensures
            r == self@.start,
    {
        self.ring.start()
    }

    pub fn end(&self) -> (r: u64)
        requires
            self.wf(),
        ensures
            r == self@.end(),
    {
        self.ring.end()
    }

    pub fn anchor(&self) -> (r: Option<Stamp>)
        ensures
            r == self@.anchor,
    {
        self.anchor
    }

    pub fn last(&self) -> (r: Option<Stamp>)
        ensures
            r == self@.last,
    {
        self.last
    }

    pub fn gen_start(&self) -> (r: u64)
        ensures
            r == self@.gen_start,
    {
        self.gen_start
    }

    /// A new generation begins with the next frame.
    pub fn cut(&mut self)
        requires
            old(self).wf(),
        ensures
            final(self).wf(),
            final(self).capacity() == old(self).capacity(),
            final(self)@ == old(self)@.cut(),
    {
        let end: u64 = self.ring.end();
        self.ring.reset(end);
        self.anchor = None;
        self.gen_start = end;
        assert(self.ring@.frames =~= self.log@.subrange(end as int, end as int));
    }

    /// Takes in a packet stamped `now`. Samples that are not finite are refused, with only the time
    /// of the packet kept.
    pub fn take_in(&mut self, now: Stamp, data: Option<&[Single]>, frames: usize) -> (r: Result<(), ()>)
        requires
            old(self).wf(),
            old(self)@.end() + frames <= MAX_FRAMES,
        ensures
            final(self).wf(),
            final(self).capacity() == old(self).capacity(),
            ({
                let d = match data {
                    Some(d) => Some(d@),
                    None => None,
                };
                let stamped = LegView { last: Some(now), ..old(self)@ };
                let l = stamped.deliver(
                    old(self).capacity() as int,
                    packet_frames(d, frames as nat),
                );
                &&& r is Ok <==> acceptable(d, frames as nat)
                &&& r is Err ==> final(self)@ == stamped
                &&& r is Ok ==> final(self)@ == (LegView {
                    anchor: match l.anchor {
                        Some(a) => Some(a),
                        None => Some(now),
                    },
                    ..l
                })
            }),
    {
        let ghost d = match data {
            Some(d) => Some(d@),
            None => None,
        };
        let ghost new = packet_frames(d, frames as nat);
        self.last = Some(now);
        if self.ring.push(data, frames).is_err() {
            return Err(());
        }
        if self.anchor.is_none() {
            self.anchor = Some(now);
        }
        proof {
            self.ring.lemma_wf();
            lemma_sounding_bound(new);
            let log = self.log@ + new;
            assert(old(self).ring@.frames + new =~= log.subrange(
                old(self).ring@.start,
                log.len() as int,
            ));
            assert(self.ring@.frames =~= log.subrange(self.ring@.start, log.len() as int));
        }
        self.log = Ghost(self.log@ + new);
        Ok(())
    }

    /// Frame `idx`, which the history holds.
    pub fn frame(&self, idx: u64) -> (r: Frame)
        requires
            self.wf(),
            self@.start <= idx < self@.end(),
        ensures
            r == self@.log[idx as int],
    {
        self.ring.frame(idx)
    }

    /// The frames from `a` up to `b`, which the history holds, are all silent.
    pub fn silent(&self, a: u64, b: u64) -> (r: bool)
        requires
            self.wf(),
            self@.holds(a as int, b as int),
        ensures
            r == forall|j: int| a <= j < b ==> (#[trigger] self@.log[j]).silent(),
    {
        let n: u64 = self.ring.nonzero_in(a, b);
        proof {
            let s = self.ring@.range(a as int, b as int);
            lemma_sounding_zero(s);
            assert(s.len() == b - a);
            assert forall|i: int| 0 <= i < s.len() implies s[i] == self@.log[a + i] by {}
            if n == 0 {
                assert forall|j: int| a <= j < b implies (#[trigger] self@.log[j]).silent() by {
                    assert(s[j - a].silent());
                }
            } else {
                let i = choose|i: int| 0 <= i < s.len() && !(#[trigger] s[i]).silent();
                assert(!self@.log[a + i].silent());
            }
        }
        n == 0
    }

    /// The frames from `a` up to `b`, which the history holds.
    pub fn frames(&self, a: u64, b: u64) -> (r: Vec<Frame>)
        requires
            self.wf(),
            self@.holds(a as int, b as int),
        ensures
            r@ == self@.log.subrange(a as int, b as int),
    {
        let r = self.ring.frames(a, b);
        assert(r@ =~= self@.log.subrange(a as int, b as int));
        r
    }

    /// The samples of those frames, left and right in turn.
    pub fn samples(&self, a: u64, b: u64) -> (r: Vec<Single>)
        requires
            self.wf(),
            self@.holds(a as int, b as int),
        ensures
            r@ == interleaved(self@.log.subrange(a as int, b as int)),
    {
        let mut out: Vec<Single> = Vec::new();
        self.ring.copy_interleaved(a, b, &mut out);
        assert(self.ring@.range(a as int, b as int) =~= self@.log.subrange(a as int, b as int));
        assert(out@ =~= interleaved(self@.log.subrange(a as int, b as int)));
        out
    }
}

} // verus!
