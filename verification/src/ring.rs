//! One leg's recent frames: a bounded, contiguous window of that leg's local frame indices.
//!
//! A gap in the timeline ends the generation and resets the ring, so every frame inside the window
//! is captured data. A silent packet is captured data too and is stored as zeros; nothing is filled
//! in for a frame that was not handed over.

use crate::ieee::{Frame, Single};
use vstd::prelude::*;

verus! {

/// What a ring holds: the frames of the window, and the index of the first of them.
#[verifier::ext_equal]
pub struct RingView {
    pub start: int,
    pub frames: Seq<Frame>,
}

impl RingView {
    pub open spec fn end(self) -> int {
        self.start + self.frames.len()
    }

    /// The frame of index `idx`.
    pub open spec fn at(self, idx: int) -> Frame {
        self.frames[idx - self.start]
    }

    /// The frames of the indices in `[a, b)`.
    pub open spec fn range(self, a: int, b: int) -> Seq<Frame> {
        self.frames.subrange(a - self.start, b - self.start)
    }

    /// Whether `[a, b)` lies inside the window.
    pub open spec fn covers(self, a: int, b: int) -> bool {
        self.start <= a <= b <= self.end()
    }

    /// The window after `new` was appended, cut at the front to the last `cap` frames.
    pub open spec fn slide(self, cap: nat, new: Seq<Frame>) -> RingView {
        let all = self.frames + new;
        let cut = if all.len() > cap { all.len() - cap } else { 0 };
        RingView { start: self.start + cut, frames: all.subrange(cut, all.len() as int) }
    }
}

/// How many frames have a sample other than zero.
pub open spec fn sounding(s: Seq<Frame>) -> nat
    decreases s.len(),
{
    if s.len() == 0 {
        0
    } else {
        sounding(s.drop_last()) + if s.last().silent() { 0nat } else { 1nat }
    }
}

/// The frames of an interleaved stereo buffer.
pub open spec fn deinterleaved(d: Seq<Single>) -> Seq<Frame> {
    Seq::new(d.len() / 2, |i: int| Frame { left: d[2 * i], right: d[2 * i + 1] })
}

/// The samples of `s` as an interleaved stereo buffer.
pub open spec fn interleaved(s: Seq<Frame>) -> Seq<Single> {
    Seq::new(2 * s.len(), |i: int| if i % 2 == 0 { s[i / 2].left } else { s[i / 2].right })
}

/// `n` frames of positive zeros.
pub open spec fn silence(n: nat) -> Seq<Frame> {
    Seq::new(n, |i: int| Frame::spec_silence())
}

/// The frames that a packet stands for: `None` is a silent packet.
pub open spec fn packet_frames(data: Option<Seq<Single>>, frames: nat) -> Seq<Frame> {
    match data {
        Some(d) => deinterleaved(d),
        None => silence(frames),
    }
}

pub open spec fn all_finite(d: Seq<Single>) -> bool {
    forall|i: int| 0 <= i < d.len() ==> (#[trigger] d[i]).finite()
}

/// Whether a packet is taken: two samples per frame, none of them infinite or NaN.
pub open spec fn acceptable(data: Option<Seq<Single>>, frames: nat) -> bool {
    match data {
        Some(d) => d.len() == 2 * frames && all_finite(d),
        None => true,
    }
}

pub proof fn lemma_sounding_concat(a: Seq<Frame>, b: Seq<Frame>)
    ensures
        sounding(a + b) == sounding(a) + sounding(b),
    decreases b.len(),
{
    if b.len() == 0 {
        assert(a + b =~= a);
    } else {
        assert((a + b).drop_last() =~= a + b.drop_last());
        lemma_sounding_concat(a, b.drop_last());
    }
}

pub proof fn lemma_sounding_zero(s: Seq<Frame>)
    ensures
        sounding(s) == 0 <==> forall|i: int| 0 <= i < s.len() ==> (#[trigger] s[i]).silent(),
    decreases s.len(),
{
    if s.len() > 0 {
        lemma_sounding_zero(s.drop_last());
        if sounding(s) == 0 {
            assert forall|i: int| 0 <= i < s.len() implies (#[trigger] s[i]).silent() by {
                if i < s.len() - 1 {
                    assert(s.drop_last()[i] == s[i]);
                }
            }
        } else if forall|i: int| 0 <= i < s.len() ==> (#[trigger] s[i]).silent() {
            assert forall|i: int| 0 <= i < s.drop_last().len() implies (#[trigger] s.drop_last()[i]).silent() by {
                assert(s.drop_last()[i] == s[i]);
            }
            assert(s.last() == s[s.len() - 1]);
        }
    }
}

proof fn lemma_slide_twice(v: RingView, cap: nat, a: Seq<Frame>, b: Seq<Frame>)
    ensures
        v.slide(cap, a).slide(cap, b) == v.slide(cap, a + b),
{
    assert((v.frames + a) + b =~= v.frames + (a + b));
    assert(v.slide(cap, a).slide(cap, b) =~= v.slide(cap, a + b));
}

proof fn lemma_slots_differ(a: int, b: int, cap: int)
    requires
        0 <= a < b,
        b - a < cap,
    ensures
        a % cap != b % cap,
{
    if a % cap == b % cap {
        vstd::arithmetic::div_mod::lemma_fundamental_div_mod(a, cap);
        vstd::arithmetic::div_mod::lemma_fundamental_div_mod(b, cap);
        let q = b / cap - a / cap;
        assert(b - a == cap * q) by (nonlinear_arith)
            requires
                a == cap * (a / cap) + a % cap,
                b == cap * (b / cap) + b % cap,
                a % cap == b % cap,
                q == b / cap - a / cap,
        ;
        assert(q >= 1 ==> cap * q >= cap) by (nonlinear_arith)
            requires
                cap > 0,
        ;
        assert(q <= 0 ==> cap * q <= 0) by (nonlinear_arith)
            requires
                cap > 0,
        ;
    }
}

pub(crate) fn is_all_finite(d: &[Single]) -> (r: bool)
    ensures
        r == all_finite(d@),
{
    let mut k: usize = 0;
    while k < d.len()
        invariant
            k <= d@.len(),
            forall|i: int| 0 <= i < k ==> (#[trigger] d@[i]).finite(),
        decreases d@.len() - k,
    {
        if !d[k].is_finite() {
            return false;
        }
        k = k + 1;
    }
    true
}

/// The history ring of one leg.
pub struct FrameRing {
    cap: usize,
    samples: Vec<Frame>,
    /// Per slot: how many sounding frames had been pushed before that frame. Differences of these
    /// answer "is this range all zeros?" without a scan.
    nonzero_before: Vec<u64>,
    start: u64,
    end: u64,
    nonzero_total: u64,
}

impl FrameRing {
    pub closed spec fn capacity(self) -> nat {
        self.cap as nat
    }

    /// Sounding frames pushed since the ring was made.
    pub closed spec fn sounded(self) -> nat {
        self.nonzero_total as nat
    }

    spec fn slot_of(self, idx: int) -> int {
        idx % (self.cap as int)
    }

    spec fn window(self) -> Seq<Frame> {
        Seq::new(
            (self.end - self.start) as nat,
            |i: int| self.samples@[self.slot_of(self.start + i)],
        )
    }

    pub closed spec fn view(self) -> RingView {
        RingView { start: self.start as int, frames: self.window() }
    }

    /// Well-formed: the window fits the slots, and each slot's count agrees with the frames behind
    /// it.
    pub closed spec fn wf(self) -> bool {
        &&& self.cap > 0
        &&& self.samples@.len() == self.cap
        &&& self.nonzero_before@.len() == self.cap
        &&& self.start <= self.end
        &&& self.end - self.start <= self.cap
        &&& forall|i: int|
            0 <= i < self.end - self.start ==> self.nonzero_total == sounding(
                self.window().subrange(i, self.end - self.start),
            ) + #[trigger] self.nonzero_before@[self.slot_of(self.start + i)]
    }

    pub proof fn lemma_wf(self)
        requires
            self.wf(),
        ensures
            self.capacity() > 0,
            self@.start >= 0,
            self@.frames.len() <= self.capacity(),
            self@.end() <= u64::MAX,
    {
    }

    /// An empty ring of `cap` frames whose first frame will have index 0.
    pub fn new(cap: usize) -> (r: FrameRing)
        requires
            cap > 0,
            8 * cap <= isize::MAX,
        ensures
            r.wf(),
            r.capacity() == cap,
            r.sounded() == 0,
            r@ == (RingView { start: 0, frames: Seq::empty() }),
    {
        let r = FrameRing {
            cap,
            samples: vec![Frame::silence(); cap],
            nonzero_before: vec![0u64; cap],
            start: 0,
            end: 0,
            nonzero_total: 0,
        };
        assert(r@.frames =~= Seq::empty());
        r
    }

    pub fn start(&self) -> (r: u64)
        requires
            self.wf(),
        ensures
            r == self@.start,
    {
        self.start
    }

    pub fn end(&self) -> (r: u64)
        requires
            self.wf(),
        ensures
            r == self@.end(),
    {
        self.end
    }

    /// Forget everything; the next pushed frame has index `at`.
    pub fn reset(&mut self, at: u64)
        requires
            old(self).wf(),
        ensures
            final(self).wf(),
            final(self).capacity() == old(self).capacity(),
            final(self).sounded() == old(self).sounded(),
            final(self)@ == (RingView { start: at as int, frames: Seq::empty() }),
    {
        self.start = at;
        self.end = at;
        assert(self@.frames =~= Seq::empty());
    }

    fn slot(&self, idx: u64) -> (r: usize)
        requires
            self.wf(),
        ensures
            r == self.slot_of(idx as int),
            r < self.cap,
    {
        (idx % self.cap as u64) as usize
    }

    fn push_frame(&mut self, f: Frame)
        requires
            old(self).wf(),
            old(self)@.end() < u64::MAX,
            old(self).sounded() < u64::MAX,
        ensures
            final(self).wf(),
            final(self).capacity() == old(self).capacity(),
            final(self).sounded() == old(self).sounded() + if f.silent() { 0int } else { 1int },
            final(self)@ == old(self)@.slide(old(self).capacity(), seq![f]),
    {
        let ghost cap = self.cap as int;
        let s: usize = self.slot(self.end);
        self.samples.set(s, f);
        self.nonzero_before.set(s, self.nonzero_total);
        if !f.is_silent() {
            self.nonzero_total = self.nonzero_total + 1;
        }
        self.end = self.end + 1;
        if self.end - self.start > self.cap as u64 {
            self.start = self.end - self.cap as u64;
        }
        proof {
            let o = *old(self);
            let n = *self;
            assert forall|idx: int| n.start <= idx < o.end implies n.slot_of(idx) != s as int by {
                lemma_slots_differ(idx, o.end as int, cap);
            }
            assert forall|i: int| 0 <= i < n.end - n.start implies n.window()[i] == (o.window() + seq![f])[i + n.start
                - o.start] by {
                let idx = n.start + i;
                if idx < o.end {
                    assert(o.window()[idx - o.start] == o.samples@[o.slot_of(idx)]);
                }
            }
            assert(n@ =~= o@.slide(cap as nat, seq![f]));
            assert forall|i: int| 0 <= i < n.end - n.start implies n.nonzero_total == sounding(
                n.window().subrange(i, n.end - n.start),
            ) + #[trigger] n.nonzero_before@[n.slot_of(n.start + i)] by {
                let idx = n.start + i;
                let tail = n.window().subrange(i, n.end - n.start);
                if idx == o.end {
                    assert(tail =~= seq![f]);
                    reveal_with_fuel(sounding, 2);
                } else {
                    let k = idx - o.start;
                    assert(o.start + k == idx);
                    let old_tail = o.window().subrange(k, o.end - o.start);
                    assert(tail =~= old_tail + seq![f]);
                    assert(tail.drop_last() =~= old_tail);
                    assert(o.nonzero_total == sounding(old_tail) + o.nonzero_before@[o.slot_of(o.start + k)]);
                }
            }
        }
    }

    /// Appends `frames` frames: those of the interleaved buffer, or silence where there is none.
    /// A buffer of another length or with a sample that is not finite is refused whole. The oldest
    /// frames fall off the front once the capacity is reached.
    pub fn push(&mut self, data: Option<&[Single]>, frames: usize) -> (r: Result<(), ()>)
        requires
            old(self).wf(),
            old(self)@.end() + frames <= u64::MAX,
            old(self).sounded() + frames <= u64::MAX,
        ensures
            final(self).wf(),
            final(self).capacity() == old(self).capacity(),
            ({
                let d = match data {
                    Some(d) => Some(d@),
                    None => None,
                };
                let new = packet_frames(d, frames as nat);
                &&& r is Ok <==> acceptable(d, frames as nat)
                &&& r is Ok ==> final(self)@ == old(self)@.slide(old(self).capacity(), new)
                &&& r is Ok ==> final(self).sounded() == old(self).sounded() + sounding(new)
                &&& r is Err ==> *final(self) == *old(self)
            }),
    {
        if let Some(d) = data {
            if d.len() % 2 != 0 || d.len() / 2 != frames {
                return Err(());
            }
            if !is_all_finite(d) {
                return Err(());
            }
        }
        let ghost dv = match data {
            Some(d) => Some(d@),
            None => None,
        };
        let ghost new = packet_frames(dv, frames as nat);
        let mut f: usize = 0;
        proof {
            assert(new.take(0) =~= Seq::empty());
            assert(self@ =~= old(self)@.slide(old(self).capacity(), new.take(0)));
        }
        while f < frames
            invariant
                f <= frames,
                new.len() == frames,
                dv == (match data {
                    Some(d) => Some(d@),
                    None => None,
                }),
                new == packet_frames(dv, frames as nat),
                data matches Some(d) ==> d@.len() == 2 * frames && 2 * frames <= usize::MAX,
                self.wf(),
                self.capacity() == old(self).capacity(),
                old(self)@.end() + frames <= u64::MAX,
                old(self).sounded() + frames <= u64::MAX,
                self@ == old(self)@.slide(old(self).capacity(), new.take(f as int)),
                self@.end() == old(self)@.end() + f,
                self.sounded() == old(self).sounded() + sounding(new.take(f as int)),
                self.sounded() <= old(self).sounded() + f,
            decreases frames - f,
        {
            let frame = match data {
                Some(d) => Frame { left: d[2 * f], right: d[2 * f + 1] },
                None => Frame::silence(),
            };
            self.push_frame(frame);
            proof {
                assert(new[f as int] == frame);
                lemma_slide_twice(old(self)@, old(self).capacity(), new.take(f as int), seq![frame]);
                assert(new.take(f as int) + seq![frame] =~= new.take(f + 1));
                assert(new.take(f + 1).drop_last() =~= new.take(f as int));
            }
            f = f + 1;
        }
        proof {
            assert(new.take(frames as int) =~= new);
        }
        Ok(())
    }

    /// Whether `[a, b)` lies inside the window. The bounds are signed, so that an index mapped by
    /// an offset can be asked for.
    pub fn contains(&self, a: i64, b: i64) -> (r: bool)
        requires
            self.wf(),
        ensures
            r == self@.covers(a as int, b as int),
    {
        a <= b && a as i128 >= self.start as i128 && b as i128 <= self.end as i128
    }

    /// The frame of index `idx`.
    pub fn frame(&self, idx: u64) -> (r: Frame)
        requires
            self.wf(),
            self@.start <= idx < self@.end(),
        ensures
            r == self@.at(idx as int),
    {
        let s: usize = self.slot(idx);
        self.samples[s]
    }

    fn count_before(&self, idx: u64) -> (r: u64)
        requires
            self.wf(),
            self@.start <= idx <= self@.end(),
        ensures
            self.sounded() == sounding(self@.range(idx as int, self@.end())) + r,
    {
        if idx == self.end {
            assert(self@.range(idx as int, self@.end()) =~= Seq::empty());
            self.nonzero_total
        } else {
            let s: usize = self.slot(idx);
            assert(self.start + (idx - self.start) == idx);
            self.nonzero_before[s]
        }
    }

    /// How many frames of `[a, b)` have a sample other than zero.
    pub fn nonzero_in(&self, a: u64, b: u64) -> (r: u64)
        requires
            self.wf(),
            self@.covers(a as int, b as int),
        ensures
            r == sounding(self@.range(a as int, b as int)),
    {
        proof {
            let whole = self@.range(a as int, self@.end());
            let head = self@.range(a as int, b as int);
            let tail = self@.range(b as int, self@.end());
            assert(whole =~= head + tail);
            lemma_sounding_concat(head, tail);
        }
        let to_b: u64 = self.count_before(b);
        let to_a: u64 = self.count_before(a);
        to_b - to_a
    }

    /// The frames of `[a, b)`.
    pub fn frames(&self, a: u64, b: u64) -> (r: Vec<Frame>)
        requires
            self.wf(),
            self@.covers(a as int, b as int),
        ensures
            r@ == self@.range(a as int, b as int),
    {
        let mut out: Vec<Frame> = Vec::new();
        let mut idx: u64 = a;
        while idx < b
            invariant
                self.wf(),
                self@.covers(a as int, b as int),
                a <= idx <= b,
                out@ == self@.range(a as int, idx as int),
            decreases b - idx,
        {
            out.push(self.frame(idx));
            idx = idx + 1;
            assert(out@ =~= self@.range(a as int, idx as int));
        }
        out
    }

    /// Appends the samples of `[a, b)` to `out`, interleaved.
    pub fn copy_interleaved(&self, a: u64, b: u64, out: &mut Vec<Single>)
        requires
            self.wf(),
            self@.covers(a as int, b as int),
        ensures
            final(out)@ == old(out)@ + interleaved(self@.range(a as int, b as int)),
    {
        let mut idx: u64 = a;
        assert(out@ =~= old(out)@ + interleaved(self@.range(a as int, a as int)));
        while idx < b
            invariant
                self.wf(),
                self@.covers(a as int, b as int),
                a <= idx <= b,
                out@ == old(out)@ + interleaved(self@.range(a as int, idx as int)),
            decreases b - idx,
        {
            let f = self.frame(idx);
            out.push(f.left);
            out.push(f.right);
            proof {
                let before = self@.range(a as int, idx as int);
                let after = self@.range(a as int, idx + 1);
                assert(interleaved(after) =~= interleaved(before).push(f.left).push(f.right)) by {
                    assert forall|i: int| 0 <= i < 2 * before.len() implies interleaved(after)[i] == interleaved(before)[i] by {
                        assert(after[i / 2] == before[i / 2]);
                    }
                }
                assert(out@ =~= old(out)@ + interleaved(after));
            }
            idx = idx + 1;
        }
    }
}

/// Frame `i` of interleaved samples has its left sample at place `2 i` and its right one behind it; a
/// silent packet stands for as many frames of zeros as it has frames.
pub proof fn samples_alternate_between_the_channels(d: Seq<Single>, f: Seq<Frame>, frames: nat, i: int)
    ensures
        packet_frames(Some(d), frames).len() == d.len() / 2,
        0 <= i < d.len() / 2 ==> packet_frames(Some(d), frames)[i].left == d[2 * i],
        0 <= i < d.len() / 2 ==> packet_frames(Some(d), frames)[i].right == d[2 * i + 1],
        packet_frames(None, frames).len() == frames,
        0 <= i < frames ==> packet_frames(None, frames)[i].left.bits == 0,
        0 <= i < frames ==> packet_frames(None, frames)[i].right.bits == 0,
        interleaved(f).len() == 2 * f.len(),
        0 <= i < f.len() ==> interleaved(f)[2 * i] == f[i].left,
        0 <= i < f.len() ==> interleaved(f)[2 * i + 1] == f[i].right,
{
}

/// A packet with samples is taken exactly where it has two for each frame, and none of them has a full
/// exponent field; a silent packet always is.
pub proof fn a_packet_is_taken_where_every_sample_is_finite(d: Seq<Single>, frames: nat)
    ensures
        acceptable(None, frames),
        acceptable(Some(d), frames) <==> d.len() == 2 * frames && forall|i: int|
            0 <= i < d.len() ==> (#[trigger] d[i]).bits / 0x80_0000 % 0x100 != 0xff,
{
    assert forall|i: int| 0 <= i < d.len() implies (#[trigger] d[i]).finite() == (d[i].bits / 0x80_0000 % 0x100
        != 0xff) by {
        crate::ieee::values_are_told_by_their_fields(d[i], crate::ieee::Double { bits: 0 });
    }
}

/// Frames that are appended follow the ones before, at the next indices; the window then ends behind
/// them, and begins where it did or at the last `cap` frames.
pub proof fn appended_frames_follow(v: RingView, cap: nat, new: Seq<Frame>, idx: int)
    requires
        v.frames.len() <= cap,
    ensures
        ({
            let w = v.slide(cap, new);
            let end = v.start + v.frames.len() + new.len();
            &&& w.start + w.frames.len() == end
            &&& w.start == if end - cap > v.start { end - cap } else { v.start }
            &&& w.end() == end
            &&& w.start <= idx < v.start + v.frames.len() ==> w.at(idx) == v.frames[idx - v.start]
            &&& w.start <= idx && v.start + v.frames.len() <= idx < end ==> w.at(idx) == new[idx - v.start
                - v.frames.len()]
            &&& w.frames.len() > 0 && w.start <= idx < end ==> w.at(idx) == w.frames[idx - w.start]
        }),
{
}

/// The frames of a stretch inside the window are those of its indices; a stretch is inside where it
/// begins no earlier than the window, ends no later, and is no backward one.
pub proof fn a_stretch_holds_its_indices(v: RingView, a: int, b: int, i: int)
    ensures
        v.covers(a, b) <==> v.start <= a && a <= b && b <= v.start + v.frames.len(),
        v.covers(a, b) ==> v.range(a, b).len() == b - a,
        v.covers(a, b) && 0 <= i < b - a ==> v.range(a, b)[i] == v.frames[a + i - v.start],
{
}

/// The sounding frames of a stretch are counted one by one: a frame more counts where either of its
/// samples is other than zero.
pub proof fn sounding_frames_are_counted(s: Seq<Frame>, f: Frame)
    ensures
        sounding(Seq::<Frame>::empty()) == 0,
        sounding(s.push(f)) == sounding(s) + if (f.left.bits == 0 || f.left.bits == 0x8000_0000) && (f.right.bits
            == 0 || f.right.bits == 0x8000_0000) { 0nat } else { 1nat },
{
    crate::ieee::a_silent_frame_has_two_zeros(f);
    assert(s.push(f).drop_last() =~= s);
}

} // verus!
