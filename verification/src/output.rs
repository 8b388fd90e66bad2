//! The output queue: frames in endpoint order, gathered into chunks for the host.

use crate::packet::{OutFrame, CHUNK_FRAMES};
use crate::state::{larger, muted_in, passed_in, subtracted_in};
use std::collections::VecDeque;
use vstd::prelude::*;

verus! {

/// The numbers of muted, passed and subtracted frames add up to the number of frames.
pub proof fn every_frame_is_counted_once(s: Seq<OutFrame>)
    ensures
        muted_in(s) + passed_in(s) + subtracted_in(s) == s.len(),
    decreases s.len(),
{
    if s.len() > 0 {
        every_frame_is_counted_once(s.drop_last());
    }
}

pub struct Output {
    cap: usize,
    acc: Vec<OutFrame>,
    chunks: VecDeque<Vec<OutFrame>>,
    next: u64,
    muted: u64,
    passed: u64,
    subtracted: u64,
    dropped: u64,
    log: Ghost<Seq<OutFrame>>,
}

impl Output {
    /// Every frame put out so far.
    pub closed spec fn emitted(self) -> Seq<OutFrame> {
        self.log@
    }

    pub open spec fn made(self) -> int {
        self.emitted().len() as int / CHUNK_FRAMES as int
    }

    /// Whole chunks that were fetched or dropped.
    pub closed spec fn taken(self) -> int {
        self.made() - self.chunks@.len()
    }

    pub closed spec fn dropped(self) -> int {
        self.dropped as int
    }

    pub closed spec fn capacity(self) -> nat {
        self.cap as nat
    }

    pub closed spec fn wf(self) -> bool {
        let n = CHUNK_FRAMES as int;
        &&& self.next == self.log@.len()
        &&& self.muted == muted_in(self.log@)
        &&& self.passed == passed_in(self.log@)
        &&& self.subtracted == subtracted_in(self.log@)
        &&& self.chunks@.len() <= self.cap
        &&& self.chunks@.len() <= self.made()
        &&& self.dropped <= self.taken()
        &&& self.acc@ == self.log@.subrange(n * self.made(), self.log@.len() as int)
        &&& forall|k: int|
            0 <= k < self.chunks@.len() ==> (#[trigger] self.chunks@[k])@ == self.log@.subrange(
                n * (self.taken() + k),
                n * (self.taken() + k + 1),
            )
    }

    pub proof fn lemma_wf(self)
        requires
            self.wf(),
        ensures
            0 <= self.dropped() <= self.taken() <= self.made(),
            self.made() - self.taken() <= self.capacity(),
            self.emitted().len() <= u64::MAX,
    {
    }

    pub fn new(cap: usize) -> (r: Output)
        ensures
            r.wf(),
            r.capacity() == cap,
            r.emitted() == Seq::<OutFrame>::empty(),
            r.taken() == 0,
            r.dropped() == 0,
    {
        let r = Output {
            cap,
            acc: Vec::new(),
            chunks: VecDeque::new(),
            next: 0,
            muted: 0,
            passed: 0,
            subtracted: 0,
            dropped: 0,
            log: Ghost(Seq::empty()),
        };
        assert(r.acc@ =~= r.log@.subrange(CHUNK_FRAMES * r.made(), 0));
        r
    }

    /// The number of frames put out, and so the endpoint frame that comes next.
    pub fn next(&self) -> (r: u64)
        requires
            self.wf(),
        ensures
            r == self.emitted().len(),
    {
        self.next
    }

    pub fn muted(&self) -> (r: u64)
        requires
            self.wf(),
        ensures
            r == muted_in(self.emitted()),
    {
        self.muted
    }

    pub fn passed(&self) -> (r: u64)
        requires
            self.wf(),
        ensures
            r == passed_in(self.emitted()),
    {
        self.passed
    }

    pub fn subtracted(&self) -> (r: u64)
        requires
            self.wf(),
        ensures
            r == subtracted_in(self.emitted()),
    {
        self.subtracted
    }

    pub fn dropped_chunks(&self) -> (r: u64)
        requires
            self.wf(),
        ensures
            r == self.dropped(),
    {
        self.dropped
    }

    /// `to` is this queue after `frames` were put out: the oldest chunks beyond the capacity left.
    pub open spec fn grows(self, frames: Seq<OutFrame>, to: Output) -> bool {
        &&& to.wf()
        &&& to.capacity() == self.capacity()
        &&& to.emitted() == self.emitted() + frames
        &&& to.taken() == larger(self.taken(), to.made() - self.capacity())
        &&& to.dropped() - self.dropped() == to.taken() - self.taken()
    }

    pub proof fn lemma_grows_nothing(self)
        requires
            self.wf(),
        ensures
            self.grows(Seq::empty(), self),
    {
        assert(self.emitted() + Seq::<OutFrame>::empty() =~= self.emitted());
    }

    pub proof fn lemma_grows(self, a: Seq<OutFrame>, mid: Output, b: Seq<OutFrame>, to: Output)
        requires
            self.grows(a, mid),
            mid.grows(b, to),
        ensures
            self.grows(a + b, to),
    {
        assert(self.emitted() + a + b =~= self.emitted() + (a + b));
    }

    /// Puts out one frame. Where more chunks wait than may, the oldest is dropped.
    pub fn emit(&mut self, frame: OutFrame)
        requires
            old(self).wf(),
            old(self).emitted().len() < u64::MAX,
        ensures
            old(self).grows(seq![frame], *final(self)),
    {
        let ghost log = self.log@.push(frame);
        proof {
            assert(log.drop_last() =~= self.log@);
            every_frame_is_counted_once(log);
        }
        match frame {
            OutFrame::Muted => {
                self.muted = self.muted + 1;
            },
            OutFrame::Passed { .. } => {
                self.passed = self.passed + 1;
            },
            OutFrame::Difference { .. } => {
                self.subtracted = self.subtracted + 1;
            },
        }
        self.acc.push(frame);
        self.next = self.next + 1;
        self.log = Ghost(log);
        let ghost n = CHUNK_FRAMES as int;
        let ghost was = old(self).log@.len() as int;
        if self.acc.len() == CHUNK_FRAMES {
            assert((was + 1) / n == was / n + 1);
            let mut chunk: Vec<OutFrame> = Vec::new();
            std::mem::swap(&mut chunk, &mut self.acc);
            assert(n * (was / n) + n == n * (was / n + 1)) by (nonlinear_arith);
            assert(chunk@.len() == n);
            assert(log.len() - n * (was / n) == n);
            assert(chunk@ =~= log.subrange(n * (was / n), n * (was / n + 1)));
            self.chunks.push_back(chunk);
            if self.chunks.len() > self.cap {
                let _ = self.chunks.pop_front();
                self.dropped = self.dropped + 1;
            }
            assert(self.acc@ =~= log.subrange(n * self.made(), log.len() as int));
        } else {
            assert((was + 1) / n == was / n);
            assert(self.acc@ =~= log.subrange(n * self.made(), log.len() as int));
        }
        assert forall|k: int| 0 <= k < self.chunks@.len() implies (#[trigger] self.chunks@[k])@
            == log.subrange(n * (self.taken() + k), n * (self.taken() + k + 1)) by {
            let j = self.taken() + k - old(self).taken();
            if j < old(self).chunks@.len() {
                assert(self.chunks@[k] == old(self).chunks@[j]);
                assert(old(self).log@.subrange(
                    n * (old(self).taken() + j),
                    n * (old(self).taken() + j + 1),
                ) =~= log.subrange(n * (self.taken() + k), n * (self.taken() + k + 1)));
            }
        }
        assert(log =~= old(self).log@ + seq![frame]);
    }

    /// Puts out `n` muted frames.
    pub fn mute(&mut self, n: u64)
        requires
            old(self).wf(),
            old(self).emitted().len() + n <= u64::MAX,
        ensures
            old(self).grows(Seq::new(n as nat, |k: int| OutFrame::Muted), *final(self)),
    {
        let mut k: u64 = 0;
        proof {
            self.lemma_grows_nothing();
            assert(Seq::new(0, |i: int| OutFrame::Muted) =~= Seq::empty());
        }
        while k < n
            invariant
                k <= n,
                old(self).emitted().len() + n <= u64::MAX,
                old(self).grows(Seq::new(k as nat, |i: int| OutFrame::Muted), *self),
            decreases n - k,
        {
            let ghost mid = *self;
            self.emit(OutFrame::Muted);
            proof {
                let a = Seq::new(k as nat, |i: int| OutFrame::Muted);
                old(self).lemma_grows(a, mid, seq![OutFrame::Muted], *self);
                assert(a + seq![OutFrame::Muted] =~= Seq::new((k + 1) as nat, |i: int| OutFrame::Muted));
            }
            k = k + 1;
        }
    }

    /// The oldest chunk that waits.
    pub fn pop(&mut self) -> (r: Option<Vec<OutFrame>>)
        requires
            old(self).wf(),
        ensures
            final(self).wf(),
            final(self).capacity() == old(self).capacity(),
            final(self).emitted() == old(self).emitted(),
            final(self).dropped() == old(self).dropped(),
            match r {
                Some(c) => {
                    let at = old(self).taken();
                    &&& at < old(self).made()
                    &&& final(self).taken() == at + 1
                    &&& c@ == old(self).emitted().subrange(CHUNK_FRAMES * at, CHUNK_FRAMES * (at + 1))
                },
                None => old(self).taken() == old(self).made() && final(self).taken() == old(self).taken(),
            },
    {
        let r = self.chunks.pop_front();
        proof {
            let n = CHUNK_FRAMES as int;
            assert forall|k: int| 0 <= k < self.chunks@.len() implies (#[trigger] self.chunks@[k])@
                == self.log@.subrange(n * (self.taken() + k), n * (self.taken() + k + 1)) by {
                assert(self.chunks@[k] == old(self).chunks@[k + 1]);
            }
        }
        r
    }
}

/// A frame more is counted by its kind, and by no other.
pub proof fn a_frame_is_counted_by_its_kind(s: Seq<OutFrame>, f: OutFrame)
    ensures
        muted_in(Seq::<OutFrame>::empty()) == 0,
        passed_in(Seq::<OutFrame>::empty()) == 0,
        subtracted_in(Seq::<OutFrame>::empty()) == 0,
        muted_in(s.push(f)) - muted_in(s) == if f is Muted { 1int } else { 0 },
        passed_in(s.push(f)) - passed_in(s) == if f is Passed { 1int } else { 0 },
        subtracted_in(s.push(f)) - subtracted_in(s) == if f is Difference { 1int } else { 0 },
{
    assert(s.push(f).drop_last() =~= s);
}

} // verus!
