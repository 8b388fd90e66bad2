//! Equivalence-style decisions over per-sub-block estimates.
//!
//! Each sub-block yields one estimate: a unity-gain ratio, or a fractional-delay projection. The
//! other apps in the endpoint mix are independent of the reference, so they only add noise to these
//! estimates, and the dispersion over sub-blocks measures that noise. A verdict is
//!
//! * `Accept` where the whole interval around the mean lies inside the tolerance;
//! * `Reject` where it lies wholly outside;
//! * `Inconclusive` otherwise: the engine then waits for more data.
//!
//! The means and intervals are computed by the host, on the values that the windows here hold.

use crate::ieee::Double;
use std::collections::VecDeque;
use vstd::prelude::*;
use vstd::string::*;

verus! {

#[derive(Clone, Copy, Debug, PartialEq, Eq, Structural)]
pub enum Verdict {
    Accept,
    Reject,
    Inconclusive,
}

/// What the host computed over one window: its mean, and the distance of the mean from the target
/// plus and minus the half-width of the interval.
#[derive(Clone, Copy, Debug, PartialEq, Eq, Structural)]
pub struct Spread {
    pub mean: Double,
    pub upper: Double,
    pub lower: Double,
}

/// The window after `v` was offered: a value that is not finite is ignored, and the oldest value
/// leaves a full window.
pub open spec fn admitted(window: Seq<Double>, cap: nat, v: Double) -> Seq<Double> {
    if !v.finite() {
        window
    } else if window.len() == cap {
        window.drop_first().push(v)
    } else {
        window.push(v)
    }
}

/// The verdict on a window of `n` values.
pub open spec fn judged(n: nat, spread: Spread, tolerance: Double, min_n: nat) -> Verdict {
    if n < 2 || n < min_n {
        Verdict::Inconclusive
    } else if spread.upper.at_most(tolerance) {
        Verdict::Accept
    } else if spread.lower.above(tolerance) {
        Verdict::Reject
    } else {
        Verdict::Inconclusive
    }
}

/// A bounded window of estimates.
pub struct Evidence {
    vals: VecDeque<Double>,
    cap: usize,
}

impl Evidence {
    pub closed spec fn view(self) -> Seq<Double> {
        self.vals@
    }

    pub closed spec fn capacity(self) -> nat {
        self.cap as nat
    }

    pub open spec fn wf(self) -> bool {
        self.capacity() > 0 && self@.len() <= self.capacity()
    }

    /// An empty window of `cap` values, of one value where `cap` is zero.
    pub fn new(cap: usize) -> (r: Evidence)
        ensures
            r.wf(),
            r.capacity() == if cap == 0 { 1 } else { cap as nat },
            r@ == Seq::<Double>::empty(),
    {
        Evidence { vals: VecDeque::new(), cap: if cap == 0 { 1 } else { cap } }
    }

    pub fn push(&mut self, v: Double)
        requires
            old(self).wf(),
        ensures
            final(self).wf(),
            final(self).capacity() == old(self).capacity(),
            final(self)@ == admitted(old(self)@, old(self).capacity(), v),
    {
        if !v.is_finite() {
            return;
        }
        if self.vals.len() == self.cap {
            let _ = self.vals.pop_front();
        }
        self.vals.push_back(v);
        assert(self@ =~= admitted(old(self)@, old(self).capacity(), v));
    }

    pub fn clear(&mut self)
        requires
            old(self).wf(),
        ensures
            final(self).wf(),
            final(self).capacity() == old(self).capacity(),
            final(self)@ == Seq::<Double>::empty(),
    {
        self.vals.clear();
    }

    pub fn len(&self) -> (n: usize)
        ensures
            n == self@.len(),
    {
        self.vals.len()
    }

    /// The values of the window, oldest first.
    pub fn values(&self) -> (r: Vec<Double>)
        ensures
            r@ == self@,
    {
        let mut out: Vec<Double> = Vec::new();
        let mut i: usize = 0;
        while i < self.vals.len()
            invariant
                i <= self.vals@.len(),
                out@ == self.vals@.take(i as int),
            decreases self.vals@.len() - i,
        {
            out.push(self.vals[i]);
            assert(out@ =~= self.vals@.take(i + 1));
            i = i + 1;
        }
        assert(self.vals@.take(i as int) =~= self.vals@);
        out
    }

    /// The mean that the host computed, where the window holds a value.
    pub fn mean(&self, spread: &Spread) -> (r: Option<Double>)
        ensures
            r == shown_mean(self@, *spread),
    {
        if self.vals.len() == 0 {
            None
        } else {
            Some(spread.mean)
        }
    }

    pub fn verdict(&self, spread: &Spread, tolerance: Double, min_n: usize) -> (r: Verdict)
        ensures
            r == judged(self@.len(), *spread, tolerance, min_n as nat),
    {
        let n: usize = self.vals.len();
        if n < 2 || n < min_n {
            Verdict::Inconclusive
        } else if spread.upper.le(tolerance) {
            Verdict::Accept
        } else if spread.lower.gt(tolerance) {
            Verdict::Reject
        } else {
            Verdict::Inconclusive
        }
    }
}

/// The mean of a window, where it holds a value.
pub open spec fn shown_mean(window: Seq<Double>, spread: Spread) -> Option<Double> {
    if window.len() == 0 { None } else { Some(spread.mean) }
}

/// The sums of one sub-block and one channel, over the endpoint `C`, the reference `R` and its
/// central difference `R'`, with the quotients taken from them.
#[derive(Clone, Copy, Debug, PartialEq, Eq, Structural)]
pub struct Projection {
    /// Sum of `R` squared.
    pub energy: Double,
    /// The energy below which the channel contributes no evidence.
    pub min_energy: Double,
    /// Sum of `C` times `R`, over `energy`.
    pub gain: Double,
    /// Sum of `R'` squared.
    pub slope: Double,
    /// The slope up to which no delay can be told: a billionth of `energy`.
    pub min_slope: Double,
    /// Sum of `C - R` times `R'`, over `slope`.
    pub delay: Double,
}

/// The estimates that one sub-block yields for one channel.
#[derive(Clone, Copy, Debug, PartialEq, Eq, Structural)]
pub struct ChannelFit {
    pub gain: Option<Double>,
    pub delay: Option<Double>,
}

impl Projection {
    /// A quiet reference yields nothing, a flat one no delay.
    pub open spec fn estimates(self) -> ChannelFit {
        if self.min_energy.at_most(self.energy) {
            ChannelFit {
                gain: Some(self.gain),
                delay: if self.slope.above(self.min_slope) { Some(self.delay) } else { None },
            }
        } else {
            ChannelFit { gain: None, delay: None }
        }
    }

    pub fn fit(&self) -> (r: ChannelFit)
        ensures
            r == self.estimates(),
    {
        if self.min_energy.le(self.energy) {
            let delay = if self.slope.gt(self.min_slope) {
                Some(self.delay)
            } else {
                None
            };
            ChannelFit { gain: Some(self.gain), delay }
        } else {
            ChannelFit { gain: None, delay: None }
        }
    }
}

/// The windows of both channels.
#[verifier::ext_equal]
pub struct StereoView {
    pub cap: nat,
    pub gain_left: Seq<Double>,
    pub gain_right: Seq<Double>,
    pub delay_left: Seq<Double>,
    pub delay_right: Seq<Double>,
}

/// What the host computed over the four windows, and the means as text.
pub struct Summary {
    pub gain_left: Spread,
    pub gain_right: Spread,
    pub delay_left: Spread,
    pub delay_right: Spread,
    pub text: String,
}

/// A [`Summary`] with its text as characters.
#[verifier::ext_equal]
pub struct SummaryView {
    pub gain_left: Spread,
    pub gain_right: Spread,
    pub delay_left: Spread,
    pub delay_right: Spread,
    pub text: Seq<char>,
}

impl View for Summary {
    type V = SummaryView;

    open spec fn view(&self) -> SummaryView {
        SummaryView {
            gain_left: self.gain_left,
            gain_right: self.gain_right,
            delay_left: self.delay_left,
            delay_right: self.delay_right,
            text: self.text@,
        }
    }
}

/// The tolerances of a stereo verdict.
#[derive(Clone, Copy, Debug, PartialEq, Eq, Structural)]
pub struct Limits {
    pub gain_tolerance: Double,
    pub delay_tolerance: Double,
    pub min_sub_blocks: usize,
}

pub open spec fn offered(window: Seq<Double>, cap: nat, v: Option<Double>) -> Seq<Double> {
    match v {
        Some(v) => admitted(window, cap, v),
        None => window,
    }
}

impl StereoView {
    pub open spec fn empty(cap: nat) -> StereoView {
        StereoView {
            cap,
            gain_left: Seq::empty(),
            gain_right: Seq::empty(),
            delay_left: Seq::empty(),
            delay_right: Seq::empty(),
        }
    }

    pub open spec fn with(self, left: ChannelFit, right: ChannelFit) -> StereoView {
        StereoView {
            cap: self.cap,
            gain_left: offered(self.gain_left, self.cap, left.gain),
            gain_right: offered(self.gain_right, self.cap, right.gain),
            delay_left: offered(self.delay_left, self.cap, left.delay),
            delay_right: offered(self.delay_right, self.cap, right.delay),
        }
    }

    pub open spec fn bounded(self) -> bool {
        &&& self.cap > 0
        &&& self.gain_left.len() <= self.cap
        &&& self.gain_right.len() <= self.cap
        &&& self.delay_left.len() <= self.cap
        &&& self.delay_right.len() <= self.cap
    }

    /// Reject where any test of any channel rejects; accept where some channel has enough evidence
    /// and every such channel accepts both tests.
    pub open spec fn verdict(self, s: SummaryView, l: Limits) -> Verdict {
        let min = l.min_sub_blocks as nat;
        let gl = judged(self.gain_left.len(), s.gain_left, l.gain_tolerance, min);
        let gr = judged(self.gain_right.len(), s.gain_right, l.gain_tolerance, min);
        let dl = judged(self.delay_left.len(), s.delay_left, l.delay_tolerance, min);
        let dr = judged(self.delay_right.len(), s.delay_right, l.delay_tolerance, min);
        let left_counts = self.gain_left.len() >= min;
        let right_counts = self.gain_right.len() >= min;
        if gl is Reject || gr is Reject || dl is Reject || dr is Reject {
            Verdict::Reject
        } else if (left_counts || right_counts) && (left_counts ==> gl is Accept && dl is Accept) && (
        right_counts ==> gr is Accept && dr is Accept) {
            Verdict::Accept
        } else {
            Verdict::Inconclusive
        }
    }
}

pub open spec fn shown_or_none(mean: Option<Seq<char>>) -> Seq<char> {
    match mean {
        Some(m) => m,
        None => "n/a"@,
    }
}

/// The four means in one line.
pub open spec fn described(
    gain_left: Option<Seq<char>>,
    gain_right: Option<Seq<char>>,
    delay_left: Option<Seq<char>>,
    delay_right: Option<Seq<char>>,
) -> Seq<char> {
    "gain L "@ + shown_or_none(gain_left) + " R "@ + shown_or_none(gain_right) + ", delay L "@
        + shown_or_none(delay_left) + " R "@ + shown_or_none(delay_right)
}

fn append_mean(s: &mut String, mean: Option<&str>)
    ensures
        final(s)@ == old(s)@ + shown_or_none(
            match mean {
                Some(m) => Some(m@),
                None => None,
            },
        ),
{
    match mean {
        Some(m) => s.append(m),
        None => s.append("n/a"),
    }
}

/// Writes the four means, as the host rendered them, in one line. An empty window has none.
pub fn describe(
    gain_left: Option<&str>,
    gain_right: Option<&str>,
    delay_left: Option<&str>,
    delay_right: Option<&str>,
) -> (r: String)
    ensures
        r@ == described(
            (match gain_left {
                Some(m) => Some(m@),
                None => None,
            }),
            (match gain_right {
                Some(m) => Some(m@),
                None => None,
            }),
            (match delay_left {
                Some(m) => Some(m@),
                None => None,
            }),
            (match delay_right {
                Some(m) => Some(m@),
                None => None,
            }),
        ),
{
    let mut s: String = "gain L ".to_owned();
    append_mean(&mut s, gain_left);
    s.append(" R ");
    append_mean(&mut s, gain_right);
    s.append(", delay L ");
    append_mean(&mut s, delay_left);
    s.append(" R ");
    append_mean(&mut s, delay_right);
    s
}

/// Gain and delay windows of both channels.
pub struct StereoEvidence {
    gain_left: Evidence,
    gain_right: Evidence,
    delay_left: Evidence,
    delay_right: Evidence,
}

impl StereoEvidence {
    pub closed spec fn view(self) -> StereoView {
        StereoView {
            cap: self.gain_left.capacity(),
            gain_left: self.gain_left@,
            gain_right: self.gain_right@,
            delay_left: self.delay_left@,
            delay_right: self.delay_right@,
        }
    }

    pub closed spec fn wf(self) -> bool {
        &&& self.gain_left.wf()
        &&& self.gain_right.wf()
        &&& self.delay_left.wf()
        &&& self.delay_right.wf()
        &&& self.gain_right.capacity() == self.gain_left.capacity()
        &&& self.delay_left.capacity() == self.gain_left.capacity()
        &&& self.delay_right.capacity() == self.gain_left.capacity()
    }

    pub fn new(cap: usize) -> (r: StereoEvidence)
        ensures
            r.wf(),
            r@ == StereoView::empty(if cap == 0 { 1 } else { cap as nat }),
    {
        StereoEvidence {
            gain_left: Evidence::new(cap),
            gain_right: Evidence::new(cap),
            delay_left: Evidence::new(cap),
            delay_right: Evidence::new(cap),
        }
    }

    pub fn clear(&mut self)
        requires
            old(self).wf(),
        ensures
            final(self).wf(),
            final(self)@ == StereoView::empty(old(self)@.cap),
    {
        self.gain_left.clear();
        self.gain_right.clear();
        self.delay_left.clear();
        self.delay_right.clear();
    }

    /// Offers the estimates of one sub-block; whether either channel had a gain estimate.
    pub fn push(&mut self, left: &ChannelFit, right: &ChannelFit) -> (any: bool)
        requires
            old(self).wf(),
        ensures
            final(self).wf(),
            final(self)@ == old(self)@.with(*left, *right),
            any == (left.gain is Some || right.gain is Some),
    {
        let mut any = false;
        if let Some(g) = left.gain {
            self.gain_left.push(g);
            any = true;
        }
        if let Some(d) = left.delay {
            self.delay_left.push(d);
        }
        if let Some(g) = right.gain {
            self.gain_right.push(g);
            any = true;
        }
        if let Some(d) = right.delay {
            self.delay_right.push(d);
        }
        any
    }

    /// The values of the four windows: gains left and right, delays left and right.
    pub fn values(&self) -> (r: (Vec<Double>, Vec<Double>, Vec<Double>, Vec<Double>))
        ensures
            r.0@ == self@.gain_left,
            r.1@ == self@.gain_right,
            r.2@ == self@.delay_left,
            r.3@ == self@.delay_right,
    {
        (self.gain_left.values(), self.gain_right.values(), self.delay_left.values(), self.delay_right.values())
    }

    /// The mean gains, left and right.
    pub fn gains(&self, s: &Summary) -> (r: (Option<Double>, Option<Double>))
        ensures
            r.0 == shown_mean(self@.gain_left, s.gain_left),
            r.1 == shown_mean(self@.gain_right, s.gain_right),
    {
        (self.gain_left.mean(&s.gain_left), self.gain_right.mean(&s.gain_right))
    }

    /// The mean delays, left and right.
    pub fn delays(&self, s: &Summary) -> (r: (Option<Double>, Option<Double>))
        ensures
            r.0 == shown_mean(self@.delay_left, s.delay_left),
            r.1 == shown_mean(self@.delay_right, s.delay_right),
    {
        (self.delay_left.mean(&s.delay_left), self.delay_right.mean(&s.delay_right))
    }

    pub fn verdict(&self, s: &Summary, l: &Limits) -> (r: Verdict)
        ensures
            r == self@.verdict(s@, *l),
    {
        let gl = self.gain_left.verdict(&s.gain_left, l.gain_tolerance, l.min_sub_blocks);
        let dl = self.delay_left.verdict(&s.delay_left, l.delay_tolerance, l.min_sub_blocks);
        let gr = self.gain_right.verdict(&s.gain_right, l.gain_tolerance, l.min_sub_blocks);
        let dr = self.delay_right.verdict(&s.delay_right, l.delay_tolerance, l.min_sub_blocks);
        if gl == Verdict::Reject || dl == Verdict::Reject || gr == Verdict::Reject || dr
            == Verdict::Reject {
            return Verdict::Reject;
        }
        let mut decided = false;
        let mut pending = false;
        if self.gain_left.len() >= l.min_sub_blocks {
            if gl == Verdict::Accept && dl == Verdict::Accept {
                decided = true;
            } else {
                pending = true;
            }
        }
        if self.gain_right.len() >= l.min_sub_blocks {
            if gr == Verdict::Accept && dr == Verdict::Accept {
                decided = true;
            } else {
                pending = true;
            }
        }
        if decided && !pending {
            Verdict::Accept
        } else {
            Verdict::Inconclusive
        }
    }
}

/// The left gains alone reject the pair of channels, and so do the right gains, the left delays and
/// the right delays; nothing else does.
pub proof fn any_window_of_any_channel_rejects(w: StereoView, s: SummaryView, l: Limits)
    ensures
        w.gain_left.len() >= 2 && w.gain_left.len() >= l.min_sub_blocks && !s.gain_left.upper.at_most(
            l.gain_tolerance,
        ) && s.gain_left.lower.above(l.gain_tolerance) ==> w.verdict(s, l) is Reject,
        w.gain_right.len() >= 2 && w.gain_right.len() >= l.min_sub_blocks && !s.gain_right.upper.at_most(
            l.gain_tolerance,
        ) && s.gain_right.lower.above(l.gain_tolerance) ==> w.verdict(s, l) is Reject,
        w.delay_left.len() >= 2 && w.delay_left.len() >= l.min_sub_blocks && !s.delay_left.upper.at_most(
            l.delay_tolerance,
        ) && s.delay_left.lower.above(l.delay_tolerance) ==> w.verdict(s, l) is Reject,
        w.delay_right.len() >= 2 && w.delay_right.len() >= l.min_sub_blocks && !s.delay_right.upper.at_most(
            l.delay_tolerance,
        ) && s.delay_right.lower.above(l.delay_tolerance) ==> w.verdict(s, l) is Reject,
        w.verdict(s, l) is Reject ==> {
            ||| w.gain_left.len() >= 2 && w.gain_left.len() >= l.min_sub_blocks && s.gain_left.lower.above(
                l.gain_tolerance,
            ) && !s.gain_left.upper.at_most(l.gain_tolerance)
            ||| w.gain_right.len() >= 2 && w.gain_right.len() >= l.min_sub_blocks
                && s.gain_right.lower.above(l.gain_tolerance) && !s.gain_right.upper.at_most(l.gain_tolerance)
            ||| w.delay_left.len() >= 2 && w.delay_left.len() >= l.min_sub_blocks
                && s.delay_left.lower.above(l.delay_tolerance) && !s.delay_left.upper.at_most(
                l.delay_tolerance,
            )
            ||| w.delay_right.len() >= 2 && w.delay_right.len() >= l.min_sub_blocks
                && s.delay_right.lower.above(l.delay_tolerance) && !s.delay_right.upper.at_most(
                l.delay_tolerance,
            )
        },
{
}

/// Where nothing rejects: a channel whose gains are too few has no say, one that has enough is
/// accepted where both of its intervals lie within their tolerances and neither window is too short,
/// and the pair is accepted where some channel has a say and every one that has is accepted.
pub proof fn a_pair_is_accepted_where_every_channel_with_a_say_is(w: StereoView, s: SummaryView, l: Limits)
    requires
        !(w.verdict(s, l) is Reject),
    ensures
        w.verdict(s, l) is Accept <==> {
            &&& w.gain_left.len() >= l.min_sub_blocks || w.gain_right.len() >= l.min_sub_blocks
            &&& w.gain_left.len() >= l.min_sub_blocks ==> {
                &&& w.gain_left.len() >= 2 && s.gain_left.upper.at_most(l.gain_tolerance)
                &&& w.delay_left.len() >= 2 && w.delay_left.len() >= l.min_sub_blocks
                &&& s.delay_left.upper.at_most(l.delay_tolerance)
            }
            &&& w.gain_right.len() >= l.min_sub_blocks ==> {
                &&& w.gain_right.len() >= 2 && s.gain_right.upper.at_most(l.gain_tolerance)
                &&& w.delay_right.len() >= 2 && w.delay_right.len() >= l.min_sub_blocks
                &&& s.delay_right.upper.at_most(l.delay_tolerance)
            }
        },
{
}

/// The same statistics with the channels exchanged come to the same verdict.
pub proof fn a_verdict_knows_no_left_or_right(w: StereoView, s: SummaryView, l: Limits)
    ensures
        w.verdict(s, l) == (StereoView {
            cap: w.cap,
            gain_left: w.gain_right,
            gain_right: w.gain_left,
            delay_left: w.delay_right,
            delay_right: w.delay_left,
        }).verdict(
            (SummaryView {
                gain_left: s.gain_right,
                gain_right: s.gain_left,
                delay_left: s.delay_right,
                delay_right: s.delay_left,
                text: s.text,
            }),
            l,
        ),
{
}

/// One window by itself: too few values decide nothing; else it accepts where the far end of the
/// interval is within the tolerance, and rejects where it is not and the near end is beyond it.
pub proof fn one_window_decides_by_its_interval(n: nat, spread: Spread, tolerance: Double, min_n: nat)
    ensures
        n < 2 || n < min_n ==> judged(n, spread, tolerance, min_n) is Inconclusive,
        n >= 2 && n >= min_n && spread.upper.at_most(tolerance) ==> judged(n, spread, tolerance, min_n) is Accept,
        n >= 2 && n >= min_n && !spread.upper.at_most(tolerance) && spread.lower.above(tolerance) ==> judged(
            n,
            spread,
            tolerance,
            min_n,
        ) is Reject,
        !spread.upper.at_most(tolerance) && !spread.lower.above(tolerance) ==> judged(
            n,
            spread,
            tolerance,
            min_n,
        ) is Inconclusive,
{
}

/// A finite estimate becomes the newest of its window, and the ones before it stay in order; a full
/// window gives up its oldest and no other. An estimate that is not finite changes nothing.
pub proof fn a_window_keeps_the_newest_estimates(window: Seq<Double>, cap: nat, v: Double)
    requires
        0 < cap,
        window.len() <= cap,
    ensures
        v.bits / 0x10_0000_0000_0000 % 0x800 == 0x7ff ==> admitted(window, cap, v) == window,
        v.bits / 0x10_0000_0000_0000 % 0x800 != 0x7ff ==> {
            let after = admitted(window, cap, v);
            &&& after.len() == if window.len() == cap { cap } else { window.len() + 1 }
            &&& after[after.len() - 1] == v
            &&& forall|k: int|
                0 <= k < after.len() - 1 ==> after[k] == #[trigger] window[k + window.len() + 1 - after.len()]
        },
{
}

/// Each estimate of a sub-block goes to the window of its own kind and channel, and to no other.
pub proof fn estimates_go_to_their_own_windows(w: StereoView, left: ChannelFit, right: ChannelFit)
    ensures
        w.with(left, right).cap == w.cap,
        left.gain is None ==> w.with(left, right).gain_left == w.gain_left,
        right.gain is None ==> w.with(left, right).gain_right == w.gain_right,
        left.delay is None ==> w.with(left, right).delay_left == w.delay_left,
        right.delay is None ==> w.with(left, right).delay_right == w.delay_right,
        left.gain matches Some(v) ==> w.with(left, right).gain_left == admitted(w.gain_left, w.cap, v),
        right.gain matches Some(v) ==> w.with(left, right).gain_right == admitted(w.gain_right, w.cap, v),
        left.delay matches Some(v) ==> w.with(left, right).delay_left == admitted(w.delay_left, w.cap, v),
        right.delay matches Some(v) ==> w.with(left, right).delay_right == admitted(w.delay_right, w.cap, v),
        StereoView::empty(w.cap).gain_left.len() == 0 && StereoView::empty(w.cap).gain_right.len() == 0,
        StereoView::empty(w.cap).delay_left.len() == 0 && StereoView::empty(w.cap).delay_right.len() == 0,
        StereoView::empty(w.cap).cap == w.cap,
{
}

/// A reference with enough energy yields its gain; it yields its delay too where its slope is above
/// the least one; with too little energy it yields neither.
pub proof fn a_quiet_reference_is_no_evidence(p: Projection)
    ensures
        !p.min_energy.at_most(p.energy) ==> p.estimates().gain is None && p.estimates().delay is None,
        p.min_energy.at_most(p.energy) ==> p.estimates().gain == Some(p.gain),
        p.min_energy.at_most(p.energy) && p.slope.above(p.min_slope) ==> p.estimates().delay == Some(
            p.delay,
        ),
        !p.slope.above(p.min_slope) ==> p.estimates().delay is None,
{
}

/// A window shows its mean exactly where it holds a value.
pub proof fn an_empty_window_shows_no_mean(window: Seq<Double>, spread: Spread)
    ensures
        window.len() == 0 ==> shown_mean(window, spread) is None,
        window.len() > 0 ==> shown_mean(window, spread) == Some(spread.mean),
{
}

/// The four means stand in one line, by kind and channel, and an empty window shows as missing.
pub proof fn the_means_stand_in_one_line(
    gl: Option<Seq<char>>,
    gr: Option<Seq<char>>,
    dl: Option<Seq<char>>,
    dr: Option<Seq<char>>,
)
    ensures
        ({
            let shown = |m: Option<Seq<char>>| match m {
                Some(t) => t,
                None => "n/a"@,
            };
            described(gl, gr, dl, dr) == "gain L "@ + shown(gl) + " R "@ + shown(gr) + ", delay L "@ + shown(dl)
                + " R "@ + shown(dr)
        }),
{
}

/// A summary is what its fields say.
pub proof fn a_summary_is_its_fields(s: Summary)
    ensures
        s@.gain_left == s.gain_left && s@.gain_right == s.gain_right,
        s@.delay_left == s.delay_left && s@.delay_right == s.delay_right,
        s@.text == s.text@,
{
}

} // verus!
