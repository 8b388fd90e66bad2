//! What holds of every state of a session, and that each event keeps it.

use crate::align::OutcomeView;
use crate::config::{Config, MAX_FRAMES};
use crate::ieee::{Double, Single};
use crate::packet::{Leg, OutFrame, PacketInfo, Phase};
use crate::reasons;
use crate::ring::{acceptable, packet_frames};
use crate::stats::{Projection, StereoView, SummaryView, Verdict};
use crate::state::{larger, lateness, smaller, stamped, timing_offset, AskView, CandidateView, State};
use vstd::prelude::*;

verus! {

impl State {
    /// Output frame `k` is muted, or stands for endpoint frame `k` as it was captured, and nothing
    /// but muted frames comes out before the first lock.
    pub open spec fn sourced(self, k: int) -> bool {
        match self.emitted[k] {
            OutFrame::Muted => true,
            OutFrame::Passed { endpoint } => self.locks > 0 && endpoint == self.ep.log[k],
            OutFrame::Difference { endpoint, reference } => {
                &&& self.locks > 0
                &&& endpoint == self.ep.log[k]
                &&& self.rf.log.contains(reference)
            },
        }
    }

    pub open spec fn output_valid(self) -> bool {
        &&& self.emitted.len() <= self.ep.end()
        &&& forall|k: int| 0 <= k < self.emitted.len() ==> #[trigger] self.sourced(k)
        &&& 0 <= self.dropped <= self.taken <= self.chunks_made()
        &&& self.chunks_made() - self.taken <= self.cfg.max_output_chunks
    }

    /// The history still holds what waits, unless what waits can only be muted.
    pub open spec fn readable(self) -> bool {
        ||| self.ep.start <= self.emitted.len()
        ||| self.phase is Failed
        ||| self.phase is Aligning && self.candidate is None && self.applicable() is None
    }

    pub open spec fn timing_valid(self) -> bool {
        &&& self.coarse matches Some(c) ==> {
            &&& self.ep.anchor is Some
            &&& self.rf.anchor is Some
            &&& c == timing_offset(self.ep.anchor->0, self.rf.anchor->0)
        }
        &&& self.proven matches Some(p) ==> {
            &&& self.locks > 0
            &&& -0x80_0000_0000_0000_0000 <= p.bias <= 0x80_0000_0000_0000_0000
        }
    }

    pub open spec fn search_valid(self) -> bool {
        &&& self.next_job_id >= 1
        &&& self.in_flight matches Some(id) ==> {
            &&& 1 <= id < self.next_job_id
            &&& !(self.phase is Running)
            &&& self.phase is Aligning ==> self.coarse is Some
        }
        &&& self.outbox matches Some(j) ==> {
            &&& 1 <= j.id < self.next_job_id
            &&& j.generation == self.generation
            &&& self.in_flight is Some ==> {
                &&& self.in_flight == Some(j.id)
                &&& j.endpoint_start + self.cfg.calib_frames == self.next_calib
            }
        }
        &&& 0 <= self.next_calib <= self.ep.end()
        &&& 0 <= self.active_unlocked <= self.ep.end()
        &&& self.phase is Aligning ==> self.active_unlocked <= self.frontier()
        &&& 0 <= self.mismatches <= self.rejected
        &&& self.phase is Failed ==> self.outbox is None && self.candidate is None
    }

    /// The endpoint frame up to which audio was spent on this generation's search.
    pub open spec fn frontier(self) -> int {
        match self.candidate {
            Some(c) => c.next,
            None => self.next_calib,
        }
    }

    pub open spec fn candidate_valid(self) -> bool {
        self.candidate matches Some(c) ==> {
            &&& self.phase is Aligning
            &&& self.in_flight is None
            &&& self.coarse is Some
            &&& i64::MIN <= c.offset <= i64::MAX
            &&& self.next_calib <= c.next <= self.ep.end()
            &&& 0 <= c.valid
            &&& (c.valid == 0 || c.valid < self.cfg.max_verify_sub_blocks || self.asking
                is VerifySummary && c.valid <= larger(1, self.cfg.max_verify_sub_blocks as int))
            &&& c.ev.bounded()
            &&& c.ev.cap == larger(1, self.cfg.max_verify_sub_blocks as int)
        }
    }

    pub open spec fn lock_valid(self) -> bool {
        &&& self.locks >= 0
        &&& self.phase is Running ==> {
            &&& self.locks > 0
            &&& self.proven is Some
            &&& self.offset is Some
            &&& -MAX_FRAMES <= self.offset->0 <= MAX_FRAMES
        }
        &&& 0 <= self.monitor_next <= self.emitted.len()
        &&& self.monitor.bounded()
        &&& self.monitor.cap == larger(1, self.cfg.monitor_window as int)
        &&& self.monitor_fresh == 0 || 0 < self.monitor_fresh < self.cfg.monitor_window
        &&& self.monitor_rejects == 0 || 0 < self.monitor_rejects < self.cfg.monitor_consecutive
            || self.phase is Failed && 0 < self.monitor_rejects <= larger(
            1,
            self.cfg.monitor_consecutive as int,
        )
    }

    pub open spec fn asking_valid(self) -> bool {
        match self.asking {
            AskView::Nothing => true,
            AskView::Energy { start, center } => {
                &&& self.phase is Aligning
                &&& self.candidate is None
                &&& self.in_flight is None
                &&& self.center() == Some(center)
                &&& start == self.block_start(center)
                &&& self.covered(start, center)
            },
            AskView::VerifyFit => {
                &&& self.phase is Aligning
                &&& self.candidate is Some
                &&& self.ready(self.candidate->0.next, self.candidate->0.offset) == Some(true)
            },
            AskView::VerifySummary => {
                &&& self.phase is Aligning
                &&& self.candidate is Some
                &&& -MAX_FRAMES <= self.candidate->0.offset <= MAX_FRAMES
            },
            AskView::MonitorFit => {
                &&& self.phase is Running
                &&& self.monitor_next + self.cfg.sub_block_frames <= self.emitted.len()
                &&& self.ready(self.monitor_next, self.offset->0) == Some(true)
            },
            AskView::MonitorSummary => self.phase is Running,
        }
    }

    pub open spec fn valid(self) -> bool {
        &&& self.cfg.sound()
        &&& self.ep.valid(self.cfg.history_frames as int)
        &&& self.rf.valid(self.cfg.history_frames as int)
        &&& self.generation >= 0
        &&& self.discontinuities >= 0
        &&& self.timeline_gaps >= 0
        &&& self.output_valid()
        &&& self.readable()
        &&& self.timing_valid()
        &&& self.search_valid()
        &&& self.candidate_valid()
        &&& self.lock_valid()
        &&& self.asking_valid()
    }

    /// The counters can take one more event.
    pub open spec fn room(self) -> bool {
        &&& self.generation < u32::MAX
        &&& self.locks < u32::MAX
        &&& self.rejected < u32::MAX
        &&& self.discontinuities < u64::MAX
        &&& self.timeline_gaps < u64::MAX
        &&& self.next_job_id < u64::MAX
    }

    /// The frames of a packet can be taken: indices stay in range, and the history does not lose a
    /// waiting endpoint frame that may have to be read. Without a candidate, and with no bias that
    /// applies once the packet is in, whatever waits is muted and nothing is read.
    pub open spec fn takes(self, leg: Leg, info: PacketInfo, data: Option<Seq<Single>>) -> bool {
        &&& self.leg(leg).end() + info.frames <= MAX_FRAMES
        &&& {
            ||| leg is Reference
            ||| self.buffered() + info.frames <= self.cfg.history_frames
            ||| !acceptable(data, info.frames as nat)
            ||| {
                &&& self.phase is Aligning
                &&& self.candidate is None
                &&& self.taken_in(leg, info, data).applicable() is None
            }
        }
    }

    /// What a packet needs to be pushed: one that changes nothing or is malformed needs nothing, and
    /// any other has to be taken once its timeline is checked.
    pub open spec fn admits(self, leg: Leg, info: PacketInfo, samples: Option<Seq<Single>>) -> bool {
        ||| self.phase is Failed
        ||| info.frames == 0
        ||| !State::well_sized(info, samples)
        ||| self.room() && self.checked(leg, info).takes(leg, info, State::payload(info, samples))
    }

    /// A session that goes on, with nothing asked of the host, keeps no more frames waiting than
    /// its limit allows, and has them all in its history; and none waits where none could pass.
    pub open spec fn patient(self) -> bool {
        self.asking is Nothing && !(self.phase is Failed) ==> {
            &&& self.buffered() <= self.cfg.max_pending_frames
            &&& self.ep.start <= self.emitted.len()
            &&& self.idle()
        }
    }

    /// No frame waits while the search goes on with nothing that could pass.
    pub open spec fn idle(self) -> bool {
        self.phase is Aligning && self.quiet_window() is None ==> self.buffered() == 0
    }

    /// `to` is a later state of this session: logs and output only grew, a failed session stays as
    /// it was, and the counters did not fall.
    #[verifier::opaque]
    pub open spec fn leads_to(self, to: State) -> bool {
        &&& to.cfg == self.cfg
        &&& self.ep.log.is_prefix_of(to.ep.log)
        &&& self.rf.log.is_prefix_of(to.rf.log)
        &&& self.emitted.is_prefix_of(to.emitted)
        &&& to.taken >= self.taken
        &&& to.dropped >= self.dropped
        &&& to.generation >= self.generation
        &&& to.locks >= self.locks
        &&& to.rejected >= self.rejected
        &&& to.discontinuities >= self.discontinuities
        &&& to.timeline_gaps >= self.timeline_gaps
        &&& to.next_job_id >= self.next_job_id
    }
}

/// Put out frames that stand for the endpoint frames which wait first.
pub open spec fn fits_output(s: State, frames: Seq<OutFrame>) -> bool {
    &&& frames.len() <= s.buffered()
    &&& forall|k: int|
        0 <= k < frames.len() ==> match #[trigger] frames[k] {
            OutFrame::Muted => true,
            OutFrame::Passed { endpoint } => s.locks > 0 && endpoint == s.ep.log[s.emitted.len() + k],
            OutFrame::Difference { endpoint, reference } => {
                &&& s.locks > 0
                &&& endpoint == s.ep.log[s.emitted.len() + k]
                &&& s.rf.log.contains(reference)
            },
        }
}

pub proof fn lemma_initial(cfg: Config)
    requires
        cfg.sound(),
    ensures
        State::initial(cfg).valid(),
        State::initial(cfg).patient(),
{
}

pub proof fn lemma_emit(s: State, frames: Seq<OutFrame>)
    requires
        s.valid(),
        fits_output(s, frames),
    ensures
        s.emit(frames).valid(),
        s.leads_to(s.emit(frames)),
{
    reveal(State::leads_to);
    let t = s.emit(frames);
    assert forall|k: int| 0 <= k < t.emitted.len() implies #[trigger] t.sourced(k) by {
        if k < s.emitted.len() {
            assert(s.sourced(k));
            assert(t.emitted[k] == s.emitted[k]);
        } else {
            assert(t.emitted[k] == frames[k - s.emitted.len()]);
        }
    }
    assert(s.emitted =~= t.emitted.take(s.emitted.len() as int));
}

pub proof fn lemma_failed(s: State, why: Seq<char>)
    requires
        s.valid(),
    ensures
        s.failed(why).valid(),
        s.failed(why).patient() || s.phase is Failed,
        s.failed(why).phase is Failed,
        s.leads_to(s.failed(why)),
{
    reveal(State::leads_to);
    let t = s.failed(why);
    assert forall|k: int| 0 <= k < t.emitted.len() implies #[trigger] t.sourced(k) by {
        assert(s.sourced(k));
    }
}

pub proof fn lemma_overflow_check(s: State)
    requires
        s.valid(),
        s.ep.start <= s.emitted.len(),
        s.idle(),
    ensures
        s.overflow_check().valid(),
        s.overflow_check().patient(),
        s.leads_to(s.overflow_check()),
{
    reveal(State::leads_to);
    if s.buffered() > s.cfg.max_pending_frames {
        lemma_failed(
            s,
            reasons::overflow(s.buffered() as nat, s.cfg.max_pending_frames as nat),
        );
    }
}

pub proof fn lemma_reset(s: State, why: Seq<char>)
    requires
        s.valid(),
        s.asking is Nothing,
    ensures
        s.reset(why).valid(),
        s.reset(why).buffered() == 0,
        s.leads_to(s.reset(why)),
{
    reveal(State::leads_to);
    reveal(State::reset);
    let n = s.buffered() as nat;
    let frames = Seq::new(n, |k: int| OutFrame::Muted);
    lemma_emit(s, frames);
    let m = s.mute(n);
    let t = s.reset(why);
    assert(m == s.emit(frames));
    assert forall|k: int| 0 <= k < t.emitted.len() implies #[trigger] t.sourced(k) by {
        assert(m.sourced(k));
    }
}

pub proof fn lemma_leads_to(a: State, b: State, c: State)
    requires
        a.leads_to(b),
        b.leads_to(c),
    ensures
        a.leads_to(c),
{
    reveal(State::leads_to);
    assert(a.ep.log.is_prefix_of(c.ep.log));
    assert(a.rf.log.is_prefix_of(c.rf.log));
    assert(a.emitted.is_prefix_of(c.emitted));
}

/// Fields that neither the output nor the legs depend on.
pub proof fn lemma_same_output(s: State, t: State)
    requires
        s.output_valid(),
        t.emitted == s.emitted,
        t.ep.log == s.ep.log,
        t.rf.log == s.rf.log,
        t.locks >= s.locks,
        t.taken == s.taken,
        t.dropped == s.dropped,
        t.cfg == s.cfg,
    ensures
        t.output_valid(),
{
    assert forall|k: int| 0 <= k < t.emitted.len() implies #[trigger] t.sourced(k) by {
        assert(s.sourced(k));
    }
}

pub proof fn lemma_emit_aligning(s: State)
    requires
        s.valid(),
        s.phase is Aligning,
    ensures
        s.emit_aligning().valid(),
        s.emit_aligning().ep.start <= s.emit_aligning().emitted.len(),
        s.emit_aligning().idle(),
        s.leads_to(s.emit_aligning()),
{
    reveal(State::emit_aligning);
    let from = s.emitted.len() as int;
    let frames = s.unlocked_frames(from, s.decidable());
    assert(fits_output(s, frames)) by {
        assert forall|k: int| 0 <= k < frames.len() implies match #[trigger] frames[k] {
            OutFrame::Muted => true,
            OutFrame::Passed { endpoint } => s.locks > 0 && endpoint == s.ep.log[from + k],
            OutFrame::Difference { endpoint, reference } => false,
        } by {
            assert(frames[k] == s.unlocked_frame(from + k));
        }
    }
    lemma_emit(s, frames);
}

pub proof fn lemma_emit_running(s: State)
    requires
        s.valid(),
        s.phase is Running,
    ensures
        s.emit_running().valid(),
        s.emit_running().phase is Failed || s.emit_running().phase is Running,
        s.asking is Nothing ==> s.emit_running().asking is Nothing,
        s.leads_to(s.emit_running()),
{
    reveal(State::emit_running);
    let offset = s.offset->0;
    let from = s.emitted.len() as int;
    if from < s.ep.end() && from + offset < s.rf.start {
        lemma_failed(s, reasons::overrun(from + offset, s.rf.start as nat));
    } else {
        let to = larger(from, smaller(s.ep.end(), s.rf.end() - offset));
        let frames = s.differences(from, to, offset);
        assert forall|k: int| 0 <= k < frames.len() implies match #[trigger] frames[k] {
            OutFrame::Muted => true,
            OutFrame::Passed { endpoint } => false,
            OutFrame::Difference { endpoint, reference } => {
                &&& s.locks > 0
                &&& endpoint == s.ep.log[from + k]
                &&& s.rf.log.contains(reference)
            },
        } by {
            assert(frames[k] == s.difference(from + k, offset));
            assert(s.rf.log[from + k + offset] == frames[k]->reference);
        }
        lemma_emit(s, frames);
    }
}

pub proof fn lemma_watch(s: State)
    requires
        s.valid(),
        s.phase is Running,
        s.asking is Nothing,
    ensures
        s.watch().valid(),
        s.watch().phase is Running,
        s.leads_to(s.watch()),
    decreases s.emitted.len() - s.monitor_next,
{
    reveal(State::leads_to);
    let len = s.cfg.sub_block_frames;
    if s.monitor_next + len <= s.emitted.len() {
        match s.ready(s.monitor_next, s.offset->0) {
            None => {},
            Some(true) => {
                lemma_same_output(s, s.watch());
            },
            Some(false) => if len > 0 {
                let t = State { monitor_next: s.monitor_next + len, ..s };
                lemma_same_output(s, t);
                lemma_watch(t);
                lemma_leads_to(s, t, t.watch());
            },
        }
    }
}

pub proof fn lemma_watched(s: State)
    requires
        s.valid(),
        s.phase is Running,
        s.asking is Nothing,
    ensures
        s.watched().valid(),
        s.watched().patient(),
        s.leads_to(s.watched()),
{
    reveal(State::watched);
    lemma_watch(s);
    let t = s.watch();
    if t.asking is Nothing {
        lemma_overflow_check(t);
        lemma_leads_to(s, t, t.overflow_check());
    }
}

pub proof fn lemma_put_out(s: State)
    requires
        s.valid(),
        s.asking is Nothing,
    ensures
        s.put_out().valid(),
        s.put_out().patient(),
        s.leads_to(s.put_out()),
{
    reveal(State::put_out);
    reveal(State::leads_to);
    match s.phase {
        Phase::Failed => {},
        Phase::Aligning => {
            lemma_emit_aligning(s);
            let t = s.emit_aligning();
            lemma_overflow_check(t);
            lemma_leads_to(s, t, t.overflow_check());
        },
        Phase::Running => {
            lemma_emit_running(s);
            let t = s.emit_running();
            if !(t.phase is Failed) {
                lemma_watched(t);
                lemma_leads_to(s, t, t.watched());
            }
        },
    }
}

pub proof fn lemma_timed(s: State)
    requires
        s.valid(),
        s.phase is Aligning,
        s.asking is Nothing,
    ensures
        s.timed().valid(),
        s.timed().asking is Nothing,
        s.timed().phase is Aligning || s.timed().phase is Failed,
        s.leads_to(s.timed()),
{
    reveal(State::leads_to);
    if s.active_unlocked > s.cfg.align_timeout_frames {
        let last = match s.last_reject {
            Some(r) => r,
            None => reasons::no_candidate(),
        };
        if s.mismatches >= 2 {
            lemma_failed(s, reasons::unverifiable(s.active_unlocked as nat, last));
        } else {
            lemma_same_output(s, s.timed());
        }
    }
}

pub proof fn lemma_dropped_candidate(s: State, why: Seq<char>, mismatch: bool)
    requires
        s.valid(),
        s.phase is Aligning,
        s.candidate is Some,
    ensures
        s.dropped_candidate(why, mismatch).valid(),
        s.leads_to(s.dropped_candidate(why, mismatch)),
{
    reveal(State::leads_to);
    lemma_same_output(s, s.dropped_candidate(why, mismatch));
}

pub proof fn lemma_dropped_put_out(s: State, why: Seq<char>, mismatch: bool)
    requires
        s.valid(),
        s.phase is Aligning,
        s.candidate is Some,
    ensures
        ({
            let t = s.dropped_candidate(why, mismatch).timed().put_out();
            t.valid() && t.patient() && s.leads_to(t)
        }),
{
    let t = s.dropped_candidate(why, mismatch);
    lemma_dropped_candidate(s, why, mismatch);
    lemma_timed(t);
    lemma_put_out(t.timed());
    lemma_leads_to(s, t, t.timed());
    lemma_leads_to(s, t.timed(), t.timed().put_out());
}

pub proof fn lemma_verify(s: State)
    requires
        s.valid(),
        s.phase is Aligning,
        s.asking is Nothing,
    ensures
        s.verify().valid(),
        s.verify().patient(),
        s.leads_to(s.verify()),
{
    reveal(State::verify);
    reveal(State::leads_to);
    match s.candidate {
        None => lemma_put_out(s),
        Some(c) => match s.ready(c.next, c.offset) {
            None => lemma_put_out(s),
            Some(false) => lemma_dropped_put_out(s, reasons::history_lost(), false),
            Some(true) => lemma_same_output(s, s.verify()),
        },
    }
}

pub proof fn lemma_measured(s: State, left: Projection, right: Projection)
    requires
        s.valid(),
        s.asking is VerifyFit,
    ensures
        s.measured(left, right).valid(),
        s.measured(left, right).patient(),
        s.leads_to(s.measured(left, right)),
{
    reveal(State::leads_to);
    lemma_same_output(s, s.measured(left, right));
}

pub proof fn lemma_with_estimates(s: State, ev: StereoView, summary: SummaryView)
    requires
        s.valid(),
    ensures
        s.with_estimates(ev, summary).valid(),
        s.leads_to(s.with_estimates(ev, summary)),
{
    reveal(State::leads_to);
    lemma_same_output(s, s.with_estimates(ev, summary));
}

pub proof fn lemma_unasked(s: State)
    requires
        s.valid(),
        s.asking is VerifySummary ==> s.candidate->0.valid < s.cfg.max_verify_sub_blocks,
    ensures
        s.unasked().valid(),
        s.leads_to(s.unasked()),
{
    reveal(State::leads_to);
    lemma_same_output(s, s.unasked());
}

pub proof fn lemma_locked(s: State, estimates: Seq<char>)
    requires
        s.valid(),
        s.phase is Aligning,
        s.candidate is Some,
        -MAX_FRAMES <= s.candidate->0.offset <= MAX_FRAMES,
    ensures
        s.locked(estimates).valid(),
        s.locked(estimates).asking is Nothing,
        s.leads_to(s.locked(estimates)),
{
    reveal(State::leads_to);
    let t = s.locked(estimates);
    if t.phase is Failed {
        let kinds = s.kinds()->0;
        let bias = 625 * s.candidate->0.offset - s.coarse->0;
        lemma_failed(
            s,
            reasons::moved(bias - s.applicable()->0, s.cfg.spec_passthrough_window(kinds)),
        );
    } else {
        lemma_same_output(s, t);
    }
}

pub proof fn lemma_judged(s: State, summary: SummaryView)
    requires
        s.valid(),
        s.asking is VerifySummary,
    ensures
        s.judged(summary).valid(),
        s.judged(summary).patient(),
        s.leads_to(s.judged(summary)),
{
    reveal(State::judged);
    let c = s.candidate->0;
    let t = s.with_estimates(c.ev, summary);
    lemma_with_estimates(s, c.ev, summary);
    match c.ev.verdict(summary, s.cfg.spec_limits()) {
        Verdict::Accept => {
            let l = t.locked(summary.text);
            lemma_locked(t, summary.text);
            lemma_put_out(l);
            lemma_leads_to(s, t, l);
            lemma_leads_to(s, l, l.put_out());
        },
        Verdict::Reject => {
            let why = reasons::failed_unity(c.offset, summary.text);
            lemma_dropped_put_out(t, why, true);
            lemma_leads_to(s, t, s.judged(summary));
        },
        Verdict::Inconclusive => {
            if c.valid >= s.cfg.max_verify_sub_blocks {
                let why = reasons::inconclusive(c.offset, summary.text);
                lemma_dropped_put_out(t, why, false);
                lemma_leads_to(s, t, s.judged(summary));
            } else {
                lemma_unasked(t);
                let u = t.unasked();
                lemma_timed(u);
                let v = u.timed();
                lemma_leads_to(s, t, u);
                lemma_leads_to(s, u, v);
                if !(v.phase is Failed) {
                    lemma_verify(v);
                    lemma_leads_to(s, v, v.verify());
                }
            }
        },
    }
}

pub proof fn lemma_monitored(s: State, left: Projection, right: Projection)
    requires
        s.valid(),
        s.asking is MonitorFit,
    ensures
        s.monitored(left, right).valid(),
        s.monitored(left, right).patient(),
        s.leads_to(s.monitored(left, right)),
{
    reveal(State::monitored);
    reveal(State::leads_to);
    let l = left.estimates();
    let r = right.estimates();
    let any = l.gain is Some || r.gain is Some;
    let t = State {
        monitor_next: s.monitor_next + s.cfg.sub_block_frames,
        monitor: s.monitor.with(l, r),
        asking: if any { AskView::MonitorSummary } else { AskView::Nothing },
        ..s
    };
    lemma_same_output(s, t);
    if !any {
        lemma_watched(t);
        lemma_leads_to(s, t, t.watched());
    }
}

pub proof fn lemma_monitor_judged(s: State, summary: SummaryView)
    requires
        s.valid(),
        s.asking is MonitorSummary,
    ensures
        s.monitor_judged(summary).valid(),
        s.monitor_judged(summary).patient(),
        s.leads_to(s.monitor_judged(summary)),
{
    reveal(State::monitor_judged);
    reveal(State::leads_to);
    let t = s.with_estimates(s.monitor, summary).unasked();
    if s.monitor_fresh + 1 < s.cfg.monitor_window {
        let u = State { monitor_fresh: s.monitor_fresh + 1, ..t };
        lemma_same_output(s, u);
        lemma_watched(u);
        lemma_leads_to(s, u, u.watched());
    } else {
        let rejects = if s.monitor.verdict(summary, s.cfg.spec_limits()) is Reject {
            s.monitor_rejects + 1
        } else {
            0
        };
        let u = State {
            monitor: StereoView::empty(s.monitor.cap),
            monitor_fresh: 0,
            monitor_rejects: rejects,
            ..t
        };
        lemma_same_output(s, u);
        if rejects > 0 && rejects >= s.cfg.monitor_consecutive {
            let v = u.failed(reasons::lost_lock(s.offset->0, summary.text));
            lemma_same_output(s, v);
        } else {
            lemma_watched(u);
            lemma_leads_to(s, u, u.watched());
        }
    }
}

pub proof fn lemma_seek(s: State, center: int)
    requires
        s.valid(),
        s.phase is Aligning,
        s.asking is Nothing,
        s.candidate is None,
        s.in_flight is None,
        s.center() == Some(center),
    ensures
        s.seek(center).valid(),
        s.seek(center).patient(),
        s.leads_to(s.seek(center)),
{
    reveal(State::seek);
    reveal(State::leads_to);
    if s.covered(s.block_start(center), center) {
        lemma_same_output(s, s.seek(center));
    } else {
        lemma_put_out(s);
    }
}

pub proof fn lemma_calibrate(s: State)
    requires
        s.valid(),
        s.phase is Aligning,
        s.asking is Nothing,
    ensures
        s.calibrate().valid(),
        s.calibrate().patient(),
        s.leads_to(s.calibrate()),
{
    reveal(State::calibrate);
    reveal(State::leads_to);
    if s.candidate is Some || s.in_flight is Some {
        lemma_verify(s);
    } else {
        match s.center() {
            None => {
                let t = State { reason: reasons::waiting_for_packets(), ..s };
                lemma_same_output(s, t);
                lemma_put_out(t);
                lemma_leads_to(s, t, t.put_out());
            },
            Some(center) => lemma_seek(s, center),
        }
    }
}

pub proof fn lemma_advance(s: State)
    requires
        s.valid(),
        s.asking is Nothing,
    ensures
        s.advance().valid(),
        s.advance().patient(),
        s.leads_to(s.advance()),
{
    reveal(State::advance);
    reveal(State::leads_to);
    let t = s.with_coarse();
    lemma_same_output(s, t);
    assert(t.valid());
    match t.phase {
        Phase::Aligning => if t.rf.anchor is None && t.ep.end() - t.ep.gen_start
            > t.cfg.reference_absent_frames {
            lemma_failed(t, reasons::absent(t.cfg.reference_absent_frames as nat));
        } else {
            lemma_calibrate(t);
        },
        _ => lemma_put_out(t),
    }
    lemma_leads_to(s, t, s.advance());
}

pub proof fn lemma_weighed(s: State, left: Double, right: Double, threshold: Double)
    requires
        s.valid(),
        s.patient(),
    ensures
        s.weighed(left, right, threshold).valid(),
        s.weighed(left, right, threshold).patient(),
        s.leads_to(s.weighed(left, right, threshold)),
{
    reveal(State::leads_to);
    match s.asking {
        AskView::Energy { start, center } => if threshold.above(left) && threshold.above(right) {
            let t = s.slid(start);
            lemma_same_output(s, t);
            lemma_seek(t, center);
            lemma_leads_to(s, t, t.seek(center));
        } else {
            let t = s.posted(start, center);
            lemma_same_output(s, t);
            lemma_put_out(t);
            lemma_leads_to(s, t, t.put_out());
        },
        _ => {},
    }
}

pub proof fn lemma_fitted(s: State, left: Projection, right: Projection)
    requires
        s.valid(),
        s.patient(),
    ensures
        s.fitted(left, right).valid(),
        s.fitted(left, right).patient(),
        s.leads_to(s.fitted(left, right)),
{
    reveal(State::leads_to);
    match s.asking {
        AskView::VerifyFit => lemma_measured(s, left, right),
        AskView::MonitorFit => lemma_monitored(s, left, right),
        _ => {},
    }
}

pub proof fn lemma_summarized(s: State, summary: SummaryView)
    requires
        s.valid(),
        s.patient(),
    ensures
        s.summarized(summary).valid(),
        s.summarized(summary).patient(),
        s.leads_to(s.summarized(summary)),
{
    reveal(State::leads_to);
    match s.asking {
        AskView::VerifySummary => lemma_judged(s, summary),
        AskView::MonitorSummary => lemma_monitor_judged(s, summary),
        _ => {},
    }
}

pub proof fn lemma_checked(s: State, leg: Leg, info: PacketInfo)
    requires
        s.valid(),
        s.asking is Nothing,
        !(s.phase is Failed),
    ensures
        s.checked(leg, info).valid(),
        s.checked(leg, info).asking is Nothing,
        !(s.checked(leg, info).phase is Failed),
        s.leads_to(s.checked(leg, info)),
        s.checked(leg, info) == s || {
            let t = s.checked(leg, info);
            &&& t.buffered() == 0
            &&& t.phase is Aligning
            &&& t.candidate is None
            &&& t.proven == s.proven
            &&& t.cfg == s.cfg
        },
        s.checked(leg, info).leg(leg).end() == s.leg(leg).end(),
        s.checked(leg, info).rejected == s.rejected,
{
    reveal(State::checked);
    reveal(State::leads_to);
    reveal(State::reset);
    let d = State { discontinuities: s.discontinuities + 1, ..s };
    let g = State { timeline_gaps: s.timeline_gaps + 1, ..s };
    lemma_same_output(s, d);
    lemma_same_output(s, g);
    let t = s.checked(leg, info);
    if info.discontinuity {
        lemma_reset(d, reasons::discontinuity(leg));
        lemma_leads_to(s, d, t);
    } else if t != s {
        let now = stamped(info, s.leg(leg).end());
        let why = reasons::jumped(leg, lateness(s.leg(leg).last->0, now));
        lemma_reset(g, why);
        lemma_leads_to(s, g, t);
    }
}

/// What a broken timeline leaves of the generation, and that any other packet leaves it alone.
pub proof fn lemma_checked_breaks(s: State, leg: Leg, info: PacketInfo)
    ensures
        !s.breaks(leg, info) ==> s.checked(leg, info) == s,
        s.breaks(leg, info) ==> {
            let t = s.checked(leg, info);
            &&& t.generation == s.generation + 1
            &&& t.offset is None
            &&& t.locks == s.locks
            &&& t.proven == s.proven
            &&& t.phase is Aligning
            &&& t.in_flight is None
            &&& t.candidate is None
            &&& t.ep.log == s.ep.log
            &&& t.rf.log == s.rf.log
            &&& t.ep.anchor is None
            &&& t.rf.anchor is None
            &&& t.taken - t.dropped == s.taken - s.dropped
            &&& t.emitted == s.emitted + Seq::new(s.buffered() as nat, |k: int| OutFrame::Muted)
        },
{
    reveal(State::checked);
    reveal(State::reset);
}

pub proof fn lemma_taken_in(s: State, leg: Leg, info: PacketInfo, data: Option<Seq<Single>>)
    requires
        s.valid(),
        s.asking is Nothing,
        !(s.phase is Failed),
        s.ep.start <= s.emitted.len(),
        s.takes(leg, info, data),
        acceptable(data, info.frames as nat),
    ensures
        s.taken_in(leg, info, data).valid(),
        s.leads_to(s.taken_in(leg, info, data)),
{
    reveal(State::leads_to);
    let u = s.taken_in(leg, info, data);
    let new = packet_frames(data, info.frames as nat);
    assert(new.len() == info.frames);
    assert forall|k: int| 0 <= k < u.emitted.len() implies #[trigger] u.sourced(k) by {
        assert(s.sourced(k));
        if s.emitted[k] is Difference {
            let r = s.emitted[k]->reference;
            let j = s.rf.log.index_of(r);
            assert(u.rf.log[j] == r);
        }
    }
    assert(s.ep.log.is_prefix_of(u.ep.log));
    assert(s.rf.log.is_prefix_of(u.rf.log));
}

pub proof fn lemma_delivered(s: State, leg: Leg, info: PacketInfo, data: Option<Seq<Single>>)
    requires
        s.valid(),
        s.asking is Nothing,
        !(s.phase is Failed),
        s.ep.start <= s.emitted.len(),
        s.takes(leg, info, data),
    ensures
        s.delivered(leg, info, data).valid(),
        s.delivered(leg, info, data).patient(),
        s.leads_to(s.delivered(leg, info, data)),
{
    reveal(State::delivered);
    if !acceptable(data, info.frames as nat) {
        reveal(State::leads_to);
        let t = s.noted(leg, info);
        lemma_same_output(s, t);
        lemma_failed(t, reasons::non_finite(leg));
    } else {
        let u = s.taken_in(leg, info, data);
        lemma_taken_in(s, leg, info, data);
        lemma_advance(u);
        lemma_leads_to(s, u, u.advance());
    }
}

pub proof fn lemma_push(s: State, leg: Leg, info: PacketInfo, samples: Option<Seq<Single>>)
    requires
        s.valid(),
        s.patient(),
        s.asking is Nothing,
        s.admits(leg, info, samples),
    ensures
        s.push(leg, info, samples).valid(),
        s.push(leg, info, samples).patient(),
        s.leads_to(s.push(leg, info, samples)),
{
    reveal(State::leads_to);
    if !(s.phase is Failed) && info.frames != 0 {
        if !State::well_sized(info, samples) {
            lemma_failed(s, reasons::malformed(leg));
        } else {
            lemma_checked(s, leg, info);
            let t = s.checked(leg, info);
            let data = State::payload(info, samples);
            lemma_delivered(t, leg, info, data);
            lemma_leads_to(s, t, t.delivered(leg, info, data));
        }
    }
}

pub proof fn lemma_complete_job(s: State, id: int, generation: int, outcome: OutcomeView)
    requires
        s.valid(),
        s.patient(),
        s.asking is Nothing,
        outcome matches OutcomeView::Candidate { offset, .. } ==> i64::MIN <= offset <= i64::MAX,
    ensures
        s.complete_job(id, generation, outcome).valid(),
        s.complete_job(id, generation, outcome).patient(),
        s.leads_to(s.complete_job(id, generation, outcome)),
{
    reveal(State::leads_to);
    if !(s.phase is Failed || generation != s.generation || s.in_flight != Some(id)) {
        match outcome {
            OutcomeView::Candidate { offset, peak, peak_text, runner_up, runner_up_text } => {
                let t = State {
                    in_flight: None,
                    reason: reasons::verifying(offset, peak_text, runner_up_text),
                    candidate: Some(
                        CandidateView {
                            offset,
                            next: s.next_calib,
                            valid: 0,
                            ev: StereoView::empty(
                                larger(1, s.cfg.max_verify_sub_blocks as int) as nat,
                            ),
                        },
                    ),
                    ..s
                };
                lemma_same_output(s, t);
                lemma_advance(t);
                lemma_leads_to(s, t, t.advance());
            },
            OutcomeView::Rejected { reason, mismatch } => {
                let t = State {
                    in_flight: None,
                    rejected: s.rejected + 1,
                    mismatches: s.mismatches + if mismatch { 1int } else { 0int },
                    reason: reasons::not_locked(reason),
                    last_reject: Some(reason),
                    ..s
                };
                lemma_same_output(s, t);
                lemma_timed(t);
                let u = t.timed();
                lemma_leads_to(s, t, u);
                if !(u.phase is Failed) {
                    lemma_advance(u);
                    lemma_leads_to(s, u, u.advance());
                }
            },
        }
    }
}

pub proof fn lemma_chunk_taken(s: State)
    requires
        s.valid(),
        s.patient(),
    ensures
        s.chunk_taken().valid(),
        s.chunk_taken().patient(),
        s.leads_to(s.chunk_taken()),
{
    reveal(State::leads_to);
    let t = s.chunk_taken();
    assert forall|k: int| 0 <= k < t.emitted.len() implies #[trigger] t.sourced(k) by {
        assert(s.sourced(k));
    }
}

} // verus!
