//! The session as a mathematical state: what each event makes of it.
//!
//! Two legs deliver packets: the endpoint loopback, which is what the user hears, and the process
//! loopback of the own playback, the reference. Each leg counts the frames that it delivered, and
//! frames are named by that count. A *generation* is a stretch in which neither leg lost a frame,
//! so that one integer offset maps endpoint frames to reference frames throughout. A discontinuity,
//! or a packet whose time disagrees with the previous packet of its leg, ends the generation:
//! missing packets are never taken for silence.
//!
//! Within a generation, packet times give a coarse offset; a correlation search around it names a
//! candidate; the candidate is checked on later, disjoint audio at unity gain; and only then do the
//! endpoint frames come out as endpoint minus reference, while a monitor keeps checking. Until then
//! frames are muted. The one exception: once a lock has proven how far content lies from packet
//! timing, a later generation passes the endpoint through while the reference is exactly zero over
//! the whole uncertainty around the mapped frame.
//!
//! Sums over samples and statistics are the host's work. Where one is needed the state says so in
//! `asking`, and the answer comes back as an event of its own.

use crate::align::{AlignParams, JobView, OutcomeView};
use crate::config::{Config, MAX_FRAMES};
use crate::ieee::{Double, Frame, Single};
use crate::packet::{Kinds, Leg, OutFrame, PacketInfo, Phase, Stamp, TimeKind, CHUNK_FRAMES};
use crate::reasons;
use crate::ring::{acceptable, interleaved, packet_frames};
use crate::stats::{shown_mean, Projection, StereoView, SummaryView, Verdict};
use crate::text::rounded_625ths;
use vstd::prelude::*;

verus! {

/// One leg: every frame that it delivered, the first one that its history still holds, the first
/// packet of the generation, the previous packet, and where the generation began.
#[verifier::ext_equal]
pub struct LegView {
    pub log: Seq<Frame>,
    pub start: int,
    pub anchor: Option<Stamp>,
    pub last: Option<Stamp>,
    pub gen_start: int,
}

impl LegView {
    /// The number of frames delivered, and so the index of the next one.
    pub open spec fn end(self) -> int {
        self.log.len() as int
    }

    pub open spec fn fresh() -> LegView {
        LegView { log: Seq::empty(), start: 0, anchor: None, last: None, gen_start: 0 }
    }

    /// The history holds the frames from `a` up to `b`.
    pub open spec fn holds(self, a: int, b: int) -> bool {
        self.start <= a <= b <= self.end()
    }

    /// Delivery of `new` frames into a history of `cap`.
    pub open spec fn deliver(self, cap: int, new: Seq<Frame>) -> LegView {
        let log = self.log + new;
        LegView {
            log,
            start: if log.len() - cap > self.start { log.len() - cap } else { self.start },
            ..self
        }
    }

    /// A new generation begins with the next frame.
    pub open spec fn cut(self) -> LegView {
        LegView { start: self.end(), anchor: None, gen_start: self.end(), ..self }
    }

    pub open spec fn valid(self, cap: int) -> bool {
        &&& 0 <= self.start <= self.end() <= MAX_FRAMES
        &&& self.end() - self.start <= cap
        &&& 0 <= self.gen_start <= self.end()
        &&& self.anchor matches Some(s) ==> s.index <= self.end()
        &&& self.last matches Some(s) ==> s.index <= self.end()
    }
}

/// The latest estimates of the two channels.
#[derive(Clone, Copy, Debug, PartialEq, Eq)]
pub struct Estimates {
    pub left: Option<Double>,
    pub right: Option<Double>,
}

/// How far content lay from packet timing in the last lock (625ths of a frame), and by which clocks.
pub struct Bias {
    pub bias: int,
    pub kinds: Kinds,
}

/// A candidate offset under verification.
#[verifier::ext_equal]
pub struct CandidateView {
    pub offset: int,
    /// The endpoint frame at which the next sub-block begins.
    pub next: int,
    /// Sub-blocks that contributed evidence.
    pub valid: int,
    pub ev: StereoView,
}

/// What the host is asked for.
pub enum AskView {
    Nothing,
    /// The energy of the reference around the block at `start`.
    Energy { start: int, center: int },
    /// The projections of the next sub-block of the candidate.
    VerifyFit,
    /// The statistics of the evidence for the candidate.
    VerifySummary,
    /// The projections of the next monitored sub-block.
    MonitorFit,
    /// The statistics of the monitor.
    MonitorSummary,
}

#[verifier::ext_equal]
pub struct State {
    pub cfg: Config,
    pub ep: LegView,
    pub rf: LegView,
    pub phase: Phase,
    pub reason: Seq<char>,
    pub generation: int,
    pub gain: Estimates,
    pub delay: Estimates,
    pub locks: int,
    pub rejected: int,
    pub discontinuities: int,
    pub timeline_gaps: int,
    /// Every frame that was put out: frame `k` of it stands for endpoint frame `k`.
    pub emitted: Seq<OutFrame>,
    /// Whole chunks of the output that were fetched or dropped.
    pub taken: int,
    pub dropped: int,
    /// The offset that packet timing gives, in 625ths of a frame.
    pub coarse: Option<int>,
    pub proven: Option<Bias>,
    pub offset: Option<int>,
    pub candidate: Option<CandidateView>,
    pub outbox: Option<JobView>,
    pub in_flight: Option<int>,
    pub next_job_id: int,
    /// The endpoint frame from which the next search block may begin.
    pub next_calib: int,
    /// Own audio spent in this generation without a lock.
    pub active_unlocked: int,
    /// Evidence in this generation that the endpoint does not carry the reference.
    pub mismatches: int,
    pub last_reject: Option<Seq<char>>,
    pub monitor_next: int,
    pub monitor: StereoView,
    pub monitor_fresh: int,
    pub monitor_rejects: int,
    pub asking: AskView,
}

pub open spec fn larger(a: int, b: int) -> int {
    if a >= b { a } else { b }
}

pub open spec fn smaller(a: int, b: int) -> int {
    if a <= b { a } else { b }
}

/// The number of muted frames.
pub open spec fn muted_in(s: Seq<OutFrame>) -> nat
    decreases s.len(),
{
    if s.len() == 0 {
        0
    } else {
        muted_in(s.drop_last()) + if s.last() is Muted { 1nat } else { 0nat }
    }
}

/// The number of frames passed through.
pub open spec fn passed_in(s: Seq<OutFrame>) -> nat
    decreases s.len(),
{
    if s.len() == 0 {
        0
    } else {
        passed_in(s.drop_last()) + if s.last() is Passed { 1nat } else { 0nat }
    }
}

/// The number of subtracted frames.
pub open spec fn subtracted_in(s: Seq<OutFrame>) -> nat
    decreases s.len(),
{
    if s.len() == 0 {
        0
    } else {
        subtracted_in(s.drop_last()) + if s.last() is Difference { 1nat } else { 0nat }
    }
}

/// The time of a packet and the clock that gave it.
pub open spec fn stamped(info: PacketInfo, index: int) -> Stamp {
    match info.engine_qpc_100ns {
        Some(t) => Stamp { index: index as u64, t, kind: TimeKind::Engine },
        None => Stamp { index: index as u64, t: info.read_qpc_100ns, kind: TimeKind::Read },
    }
}

/// How much later than expected a packet is, in thirds of 100 ns: a frame lasts 625 of those.
pub open spec fn lateness(last: Stamp, now: Stamp) -> int {
    3 * (now.t - last.t) - 625 * (now.index - last.index)
}

/// The offset that the first packets of a generation give, in 625ths of a frame.
pub open spec fn timing_offset(endpoint: Stamp, reference: Stamp) -> int {
    625 * (reference.index - endpoint.index) + 3 * (endpoint.t - reference.t)
}

impl State {
    pub open spec fn initial(cfg: Config) -> State {
        State {
            cfg,
            ep: LegView::fresh(),
            rf: LegView::fresh(),
            phase: Phase::Aligning,
            reason: reasons::waiting_for_legs(),
            generation: 0,
            gain: Estimates { left: None, right: None },
            delay: Estimates { left: None, right: None },
            locks: 0,
            rejected: 0,
            discontinuities: 0,
            timeline_gaps: 0,
            emitted: Seq::empty(),
            taken: 0,
            dropped: 0,
            coarse: None,
            proven: None,
            offset: None,
            candidate: None,
            outbox: None,
            in_flight: None,
            next_job_id: 1,
            next_calib: 0,
            active_unlocked: 0,
            mismatches: 0,
            last_reject: None,
            monitor_next: 0,
            monitor: StereoView::empty(larger(1, cfg.monitor_window as int) as nat),
            monitor_fresh: 0,
            monitor_rejects: 0,
            asking: AskView::Nothing,
        }
    }

    /// Endpoint frames captured but not yet put out.
    pub open spec fn buffered(self) -> int {
        self.ep.end() - self.emitted.len()
    }

    /// Whole chunks of output so far.
    pub open spec fn chunks_made(self) -> int {
        self.emitted.len() as int / CHUNK_FRAMES as int
    }

    /// Whole chunks that wait to be fetched.
    pub open spec fn queued(self) -> int {
        self.chunks_made() - self.taken
    }

    /// Chunk `k` of the output.
    pub open spec fn chunk(self, k: int) -> Seq<OutFrame> {
        self.emitted.subrange(CHUNK_FRAMES * k, CHUNK_FRAMES * (k + 1))
    }

    pub open spec fn leg(self, leg: Leg) -> LegView {
        match leg {
            Leg::Endpoint => self.ep,
            Leg::Reference => self.rf,
        }
    }

    pub open spec fn with_leg(self, leg: Leg, l: LegView) -> State {
        match leg {
            Leg::Endpoint => State { ep: l, ..self },
            Leg::Reference => State { rf: l, ..self },
        }
    }

    /// The clocks of this generation.
    pub open spec fn kinds(self) -> Option<Kinds> {
        match (self.ep.anchor, self.rf.anchor) {
            (Some(a), Some(b)) => Some(Kinds { endpoint: a.kind, reference: b.kind }),
            _ => None,
        }
    }

    /// The proven bias, where it was taken by the clocks of this generation.
    pub open spec fn applicable(self) -> Option<int> {
        match (self.proven, self.kinds()) {
            (Some(p), Some(k)) if p.kinds == k => Some(p.bias),
            _ => None,
        }
    }

    /// Where the search for the offset is centred.
    pub open spec fn center(self) -> Option<int> {
        match self.coarse {
            Some(c) => Some(
                rounded_625ths(
                    c + match self.applicable() {
                        Some(b) => b,
                        None => 0,
                    },
                ),
            ),
            None => None,
        }
    }

    // Output.

    /// `frames` are put out. The oldest whole chunks leave where too many wait.
    pub open spec fn emit(self, frames: Seq<OutFrame>) -> State {
        let emitted = self.emitted + frames;
        let floor = emitted.len() as int / CHUNK_FRAMES as int - self.cfg.max_output_chunks;
        let taken = larger(self.taken, floor);
        State { emitted, taken, dropped: self.dropped + (taken - self.taken), ..self }
    }

    /// The center and the half-width of the window that must be silent for a frame to pass.
    pub open spec fn quiet_window(self) -> Option<(int, int)> {
        match (self.applicable(), self.center(), self.kinds()) {
            (Some(b), Some(c), Some(k)) => Some((c, self.cfg.spec_passthrough_window(k))),
            _ => None,
        }
    }

    /// The history holds the reference for `ws` frames on either side of endpoint frame `i`, and it
    /// is silent there.
    pub open spec fn quiet_around(self, i: int, center: int, ws: int) -> bool {
        &&& self.rf.holds(i + center - ws, i + center + ws + 1)
        &&& forall|j: int|
            i + center - ws <= j < i + center + ws + 1 ==> (#[trigger] self.rf.log[j]).silent()
    }

    /// What endpoint frame `i` comes out as before a lock.
    pub open spec fn unlocked_frame(self, i: int) -> OutFrame {
        match self.quiet_window() {
            Some((center, ws)) if self.quiet_around(i, center, ws) => OutFrame::Passed {
                endpoint: self.ep.log[i],
            },
            _ => OutFrame::Muted,
        }
    }

    /// The endpoint frame up to which output can be decided before a lock: where frames may pass,
    /// the reference has to cover the whole window.
    pub open spec fn decidable(self) -> int {
        match self.quiet_window() {
            Some((center, ws)) => larger(
                self.emitted.len() as int,
                smaller(self.ep.end(), self.rf.end() - center - ws),
            ),
            None => larger(self.emitted.len() as int, self.ep.end()),
        }
    }

    pub open spec fn unlocked_frames(self, a: int, b: int) -> Seq<OutFrame> {
        Seq::new((b - a) as nat, |k: int| self.unlocked_frame(a + k))
    }

    #[verifier::opaque]
    pub open spec fn emit_aligning(self) -> State {
        self.emit(self.unlocked_frames(self.emitted.len() as int, self.decidable()))
    }

    /// Endpoint frame `i` minus its reference frame.
    pub open spec fn difference(self, i: int, offset: int) -> OutFrame {
        OutFrame::Difference { endpoint: self.ep.log[i], reference: self.rf.log[i + offset] }
    }

    pub open spec fn differences(self, a: int, b: int, offset: int) -> Seq<OutFrame> {
        Seq::new((b - a) as nat, |k: int| self.difference(a + k, offset))
    }

    #[verifier::opaque]
    pub open spec fn emit_running(self) -> State {
        let offset = self.offset->0;
        let from = self.emitted.len() as int;
        if from < self.ep.end() && from + offset < self.rf.start {
            self.failed(reasons::overrun(from + offset, self.rf.start as nat))
        } else {
            let to = larger(from, smaller(self.ep.end(), self.rf.end() - offset));
            self.emit(self.differences(from, to, offset))
        }
    }

    // Ends.

    /// The session fails, unless it failed before.
    pub open spec fn failed(self, why: Seq<char>) -> State {
        if self.phase is Failed {
            self
        } else {
            State {
                phase: Phase::Failed,
                reason: why,
                outbox: None,
                candidate: None,
                asking: AskView::Nothing,
                ..self
            }
        }
    }

    pub open spec fn mute(self, n: nat) -> State {
        self.emit(Seq::new(n, |k: int| OutFrame::Muted))
    }

    /// A new generation: what still waits can no longer be proven against a mapping and is muted.
    #[verifier::opaque]
    pub open spec fn reset(self, why: Seq<char>) -> State {
        let s = self.mute(self.buffered() as nat);
        State {
            generation: s.generation + 1,
            phase: Phase::Aligning,
            reason: why,
            offset: None,
            candidate: None,
            outbox: None,
            in_flight: None,
            coarse: None,
            ep: s.ep.cut(),
            rf: s.rf.cut(),
            next_calib: s.ep.end(),
            active_unlocked: 0,
            mismatches: 0,
            monitor: StereoView::empty(s.monitor.cap),
            monitor_fresh: 0,
            monitor_rejects: 0,
            ..s
        }
    }

    pub open spec fn overflow_check(self) -> State {
        if self.buffered() > self.cfg.max_pending_frames {
            self.failed(
                reasons::overflow(self.buffered() as nat, self.cfg.max_pending_frames as nat),
            )
        } else {
            self
        }
    }

    // Search.

    pub open spec fn with_coarse(self) -> State {
        match (self.coarse, self.ep.anchor, self.rf.anchor) {
            (None, Some(a), Some(b)) => State { coarse: Some(timing_offset(a, b)), ..self },
            _ => self,
        }
    }

    /// The first endpoint frame from which a block and its reference are not behind the histories.
    pub open spec fn block_start(self, center: int) -> int {
        larger(
            self.next_calib,
            larger(self.ep.start, self.rf.start - center + self.cfg.search_radius),
        )
    }

    /// Both legs have delivered the block at `start` and the whole search around it.
    pub open spec fn covered(self, start: int, center: int) -> bool {
        &&& start + self.cfg.calib_frames <= self.ep.end()
        &&& start + center + self.cfg.calib_frames + self.cfg.search_radius <= self.rf.end()
    }

    #[verifier::opaque]
    pub open spec fn seek(self, center: int) -> State {
        let start = self.block_start(center);
        if self.covered(start, center) {
            State { asking: AskView::Energy { start, center }, ..self }
        } else {
            self.put_out()
        }
    }

    #[verifier::opaque]
    pub open spec fn calibrate(self) -> State {
        if self.candidate is Some || self.in_flight is Some {
            self.verify()
        } else {
            match self.center() {
                None => State { reason: reasons::waiting_for_packets(), ..self }.put_out(),
                Some(center) => self.seek(center),
            }
        }
    }

    /// Nothing to align on at `start`: the search slides on without spending the timeout.
    pub open spec fn slid(self, start: int) -> State {
        State {
            next_calib: start + self.cfg.calib_frames as int / 2,
            reason: if reasons::begins_with(self.reason, reasons::not_locked_mark()) {
                self.reason
            } else {
                reasons::waiting_for_own_audio()
            },
            asking: AskView::Nothing,
            ..self
        }
    }

    pub open spec fn params(self) -> AlignParams {
        AlignParams {
            ambiguity_ratio: self.cfg.ambiguity_ratio,
            min_peak_correlation: self.cfg.min_peak_correlation,
            lobe_guard: self.cfg.lobe_guard,
            edge_guard: self.cfg.edge_guard,
        }
    }

    /// The search job on the block at `start`.
    pub open spec fn job(self, start: int, center: int) -> JobView {
        let n = self.cfg.calib_frames as int;
        let b = self.cfg.search_radius as int;
        JobView {
            id: self.next_job_id,
            generation: self.generation,
            endpoint_start: start,
            base_offset: center - b,
            endpoint: interleaved(self.ep.log.subrange(start, start + n)),
            reference: interleaved(
                self.rf.log.subrange(start + center - b, start + center + n + b),
            ),
            params: self.params(),
        }
    }

    /// The job goes out. Held-out audio begins behind its block.
    pub open spec fn posted(self, start: int, center: int) -> State {
        State {
            outbox: Some(self.job(start, center)),
            in_flight: Some(self.next_job_id),
            next_job_id: self.next_job_id + 1,
            active_unlocked: self.active_unlocked + self.cfg.calib_frames,
            next_calib: start + self.cfg.calib_frames,
            reason: reasons::searching(),
            asking: AskView::Nothing,
            ..self
        }
    }

    /// Nothing is asked any more.
    pub open spec fn unasked(self) -> State {
        State { asking: AskView::Nothing, ..self }
    }

    // Verification.

    /// Whether the sub-block at `start` lies inside both histories, one more reference frame on
    /// either side: `None` where it was not delivered yet, `Some(false)` where it is lost.
    pub open spec fn ready(self, start: int, offset: int) -> Option<bool> {
        let len = self.cfg.sub_block_frames;
        if start + len > self.ep.end() || start + offset + len + 1 > self.rf.end() {
            None
        } else {
            Some(start >= self.ep.start && start + offset - 1 >= self.rf.start)
        }
    }

    #[verifier::opaque]
    pub open spec fn verify(self) -> State {
        match self.candidate {
            None => self.put_out(),
            Some(c) => match self.ready(c.next, c.offset) {
                None => self.put_out(),
                Some(false) => self.dropped_candidate(reasons::history_lost(), false).timed().put_out(),
                Some(true) => State { asking: AskView::VerifyFit, ..self },
            },
        }
    }

    pub open spec fn dropped_candidate(self, why: Seq<char>, mismatch: bool) -> State {
        State {
            next_calib: match self.candidate {
                Some(c) => larger(self.next_calib, c.next),
                None => self.next_calib,
            },
            candidate: None,
            rejected: self.rejected + 1,
            mismatches: self.mismatches + if mismatch { 1int } else { 0int },
            reason: reasons::not_locked(why),
            last_reject: Some(why),
            asking: AskView::Nothing,
            ..self
        }
    }

    /// After too much own audio without a lock: evidence that the endpoint does not carry the
    /// reference ends the session; lack of evidence does not.
    pub open spec fn timed(self) -> State {
        if self.active_unlocked <= self.cfg.align_timeout_frames {
            self
        } else {
            let last = match self.last_reject {
                Some(r) => r,
                None => reasons::no_candidate(),
            };
            if self.mismatches >= 2 {
                self.failed(reasons::unverifiable(self.active_unlocked as nat, last))
            } else {
                State {
                    reason: reasons::still_unlocked(self.active_unlocked as nat, last),
                    active_unlocked: 0,
                    ..self
                }
            }
        }
    }

    pub open spec fn measured(self, left: Projection, right: Projection) -> State {
        let c = self.candidate->0;
        let l = left.estimates();
        let r = right.estimates();
        let any = l.gain is Some || r.gain is Some;
        let len = self.cfg.sub_block_frames;
        State {
            candidate: Some(
                CandidateView {
                    offset: c.offset,
                    next: c.next + len,
                    valid: c.valid + if any { 1int } else { 0int },
                    ev: c.ev.with(l, r),
                },
            ),
            active_unlocked: self.active_unlocked + if any { len as int } else { 0int },
            asking: AskView::VerifySummary,
            ..self
        }
    }

    /// The estimates on show after a window was summarized.
    pub open spec fn with_estimates(self, ev: StereoView, s: SummaryView) -> State {
        State {
            gain: Estimates {
                left: shown_mean(ev.gain_left, s.gain_left),
                right: shown_mean(ev.gain_right, s.gain_right),
            },
            delay: Estimates {
                left: shown_mean(ev.delay_left, s.delay_left),
                right: shown_mean(ev.delay_right, s.delay_right),
            },
            ..self
        }
    }

    /// The candidate is proven. A bias that moved against the last proven one by more than the
    /// passthrough window ends the session instead.
    pub open spec fn locked(self, estimates: Seq<char>) -> State {
        let c = self.candidate->0;
        let kinds = self.kinds()->0;
        let bias = 625 * c.offset - self.coarse->0;
        let bound = self.cfg.spec_passthrough_window(kinds);
        if self.applicable() matches Some(was) && (bias - was > 625 * bound || was - bias > 625 * bound) {
            self.failed(reasons::moved(bias - self.applicable()->0, bound))
        } else {
            State {
                candidate: None,
                proven: Some(Bias { bias, kinds }),
                offset: Some(c.offset),
                phase: Phase::Running,
                locks: self.locks + 1,
                reason: reasons::locked(c.offset, bias, estimates),
                monitor_next: self.emitted.len() as int,
                monitor: StereoView::empty(self.monitor.cap),
                monitor_fresh: 0,
                monitor_rejects: 0,
                asking: AskView::Nothing,
                ..self
            }
        }
    }

    #[verifier::opaque]
    pub open spec fn judged(self, s: SummaryView) -> State {
        let c = self.candidate->0;
        let t = self.with_estimates(c.ev, s);
        match c.ev.verdict(s, self.cfg.spec_limits()) {
            Verdict::Accept => t.locked(s.text).put_out(),
            Verdict::Reject => t.dropped_candidate(
                reasons::failed_unity(c.offset, s.text),
                true,
            ).timed().put_out(),
            Verdict::Inconclusive => if c.valid >= self.cfg.max_verify_sub_blocks {
                t.dropped_candidate(reasons::inconclusive(c.offset, s.text), false).timed().put_out()
            } else {
                let u = t.unasked().timed();
                if u.phase is Failed { u } else { u.verify() }
            },
        }
    }

    // Monitor.

    /// The monitor moves past sub-blocks that the histories lost, to one that can be measured.
    pub open spec fn watch(self) -> State
        decreases self.emitted.len() - self.monitor_next,
    {
        let len = self.cfg.sub_block_frames;
        if self.monitor_next + len > self.emitted.len() {
            self
        } else {
            match self.ready(self.monitor_next, self.offset->0) {
                None => self,
                Some(true) => State { asking: AskView::MonitorFit, ..self },
                Some(false) => if len == 0 {
                    self
                } else {
                    State { monitor_next: self.monitor_next + len, ..self }.watch()
                },
            }
        }
    }

    #[verifier::opaque]
    pub open spec fn watched(self) -> State {
        let s = self.watch();
        if s.asking is Nothing { s.overflow_check() } else { s }
    }

    #[verifier::opaque]
    pub open spec fn monitored(self, left: Projection, right: Projection) -> State {
        let l = left.estimates();
        let r = right.estimates();
        let any = l.gain is Some || r.gain is Some;
        let s = State {
            monitor_next: self.monitor_next + self.cfg.sub_block_frames,
            monitor: self.monitor.with(l, r),
            asking: if any { AskView::MonitorSummary } else { AskView::Nothing },
            ..self
        };
        if any { s } else { s.watched() }
    }

    /// Windows do not overlap: one is judged, then a new one begins.
    #[verifier::opaque]
    pub open spec fn monitor_judged(self, s: SummaryView) -> State {
        let t = self.with_estimates(self.monitor, s).unasked();
        if self.monitor_fresh + 1 < self.cfg.monitor_window {
            State { monitor_fresh: self.monitor_fresh + 1, ..t }.watched()
        } else {
            let rejects = if self.monitor.verdict(s, self.cfg.spec_limits()) is Reject {
                self.monitor_rejects + 1
            } else {
                0
            };
            let u = State {
                monitor: StereoView::empty(self.monitor.cap),
                monitor_fresh: 0,
                monitor_rejects: rejects,
                ..t
            };
            if rejects > 0 && rejects >= self.cfg.monitor_consecutive {
                u.failed(reasons::lost_lock(self.offset->0, s.text))
            } else {
                u.watched()
            }
        }
    }

    // Progress.

    /// What can be decided is put out.
    #[verifier::opaque]
    pub open spec fn put_out(self) -> State {
        match self.phase {
            Phase::Failed => self,
            Phase::Aligning => self.emit_aligning().overflow_check(),
            Phase::Running => {
                let s = self.emit_running();
                if s.phase is Failed { s } else { s.watched() }
            },
        }
    }

    #[verifier::opaque]
    pub open spec fn advance(self) -> State {
        let s = self.with_coarse();
        match s.phase {
            Phase::Aligning => if s.rf.anchor is None && s.ep.end() - s.ep.gen_start
                > s.cfg.reference_absent_frames {
                s.failed(reasons::absent(s.cfg.reference_absent_frames as nat))
            } else {
                s.calibrate()
            },
            _ => s.put_out(),
        }
    }

    // Events.

    /// The generation ends where a packet tells of lost frames or its time disagrees.
    #[verifier::opaque]
    pub open spec fn checked(self, leg: Leg, info: PacketInfo) -> State {
        let now = stamped(info, self.leg(leg).end());
        if info.discontinuity {
            State { discontinuities: self.discontinuities + 1, ..self }.reset(
                reasons::discontinuity(leg),
            )
        } else {
            match self.leg(leg).last {
                Some(last) if last.kind == now.kind => {
                    let late = lateness(last, now);
                    let bound = 3 * self.cfg.spec_tolerance(now.kind);
                    if late > bound || -late > bound {
                        State { timeline_gaps: self.timeline_gaps + 1, ..self }.reset(
                            reasons::jumped(leg, late),
                        )
                    } else {
                        self
                    }
                },
                _ => self,
            }
        }
    }

    /// A packet of `leg` stamped `now` disagrees with the time of the previous one by more than its
    /// clock allows.
    pub open spec fn jumps(self, leg: Leg, now: Stamp) -> bool {
        self.leg(leg).last matches Some(last) && last.kind == now.kind && {
            let bound = 3 * self.cfg.spec_tolerance(now.kind);
            lateness(last, now) > bound || -lateness(last, now) > bound
        }
    }

    /// A packet of `leg` tells that frames were lost, or disagrees with the time of the previous
    /// packet by more than its clock allows.
    pub open spec fn breaks(self, leg: Leg, info: PacketInfo) -> bool {
        info.discontinuity || self.jumps(leg, stamped(info, self.leg(leg).end()))
    }

    /// The samples that a packet brings, or `None` where it is silent.
    pub open spec fn payload(info: PacketInfo, samples: Option<Seq<Single>>) -> Option<Seq<Single>> {
        if info.silent { None } else { samples }
    }

    pub open spec fn well_sized(info: PacketInfo, samples: Option<Seq<Single>>) -> bool {
        info.silent || (samples matches Some(s) && s.len() == 2 * info.frames)
    }

    /// The time of a packet is kept.
    pub open spec fn noted(self, leg: Leg, info: PacketInfo) -> State {
        let now = stamped(info, self.leg(leg).end());
        self.with_leg(leg, LegView { last: Some(now), ..self.leg(leg) })
    }

    /// The frames of a packet are taken into its leg.
    pub open spec fn taken_in(self, leg: Leg, info: PacketInfo, data: Option<Seq<Single>>) -> State {
        let now = stamped(info, self.leg(leg).end());
        let l = self.noted(leg, info).leg(leg).deliver(
            self.cfg.history_frames as int,
            packet_frames(data, info.frames as nat),
        );
        self.with_leg(
            leg,
            LegView {
                anchor: match l.anchor {
                    Some(a) => Some(a),
                    None => Some(now),
                },
                ..l
            },
        )
    }

    #[verifier::opaque]
    pub open spec fn delivered(self, leg: Leg, info: PacketInfo, data: Option<Seq<Single>>) -> State {
        if !acceptable(data, info.frames as nat) {
            self.noted(leg, info).failed(reasons::non_finite(leg))
        } else {
            self.taken_in(leg, info, data).advance()
        }
    }

    /// A packet of `leg` was read.
    pub open spec fn push(self, leg: Leg, info: PacketInfo, samples: Option<Seq<Single>>) -> State {
        if self.phase is Failed || info.frames == 0 {
            self
        } else if !State::well_sized(info, samples) {
            self.failed(reasons::malformed(leg))
        } else {
            self.checked(leg, info).delivered(leg, info, State::payload(info, samples))
        }
    }

    /// A search job came back. A result that is not awaited is ignored.
    pub open spec fn complete_job(self, id: int, generation: int, outcome: OutcomeView) -> State {
        if self.phase is Failed || generation != self.generation || self.in_flight != Some(id) {
            self
        } else {
            match outcome {
                OutcomeView::Candidate { offset, peak, peak_text, runner_up, runner_up_text } => State {
                    in_flight: None,
                    reason: reasons::verifying(offset, peak_text, runner_up_text),
                    candidate: Some(
                        CandidateView {
                            offset,
                            next: self.next_calib,
                            valid: 0,
                            ev: StereoView::empty(
                                larger(1, self.cfg.max_verify_sub_blocks as int) as nat,
                            ),
                        },
                    ),
                    ..self
                }.advance(),
                OutcomeView::Rejected { reason, mismatch } => {
                    let s = State {
                        in_flight: None,
                        rejected: self.rejected + 1,
                        mismatches: self.mismatches + if mismatch { 1int } else { 0int },
                        reason: reasons::not_locked(reason),
                        last_reject: Some(reason),
                        ..self
                    }.timed();
                    if s.phase is Failed { s } else { s.advance() }
                },
            }
        }
    }

    /// The energies of the two reference channels were summed.
    pub open spec fn weighed(self, left: Double, right: Double, threshold: Double) -> State {
        match self.asking {
            AskView::Energy { start, center } => if threshold.above(left) && threshold.above(right) {
                self.slid(start).seek(center)
            } else {
                self.posted(start, center).put_out()
            },
            _ => self,
        }
    }

    /// A sub-block was projected.
    pub open spec fn fitted(self, left: Projection, right: Projection) -> State {
        match self.asking {
            AskView::VerifyFit => self.measured(left, right),
            AskView::MonitorFit => self.monitored(left, right),
            _ => self,
        }
    }

    /// The windows were summarized.
    pub open spec fn summarized(self, s: SummaryView) -> State {
        match self.asking {
            AskView::VerifySummary => self.judged(s),
            AskView::MonitorSummary => self.monitor_judged(s),
            _ => self,
        }
    }

    /// The waiting job was fetched.
    pub open spec fn job_taken(self) -> State {
        State { outbox: None, ..self }
    }

    /// A chunk was fetched, where one waits.
    pub open spec fn chunk_taken(self) -> State {
        if self.taken < self.chunks_made() {
            State { taken: self.taken + 1, ..self }
        } else {
            self
        }
    }
}

} // verus!
