//! What the session promises over all of its events.

use crate::align::OutcomeView;
use crate::config::Config;
use crate::ieee::{Double, Frame, Single};
use crate::output::every_frame_is_counted_once;
use crate::packet::{Leg, OutFrame, PacketInfo, Phase, CHUNK_FRAMES};
use crate::reasons;
use crate::ring::{acceptable, deinterleaved, interleaved};
use crate::state::{
    larger, muted_in, passed_in, smaller, subtracted_in, AskView, CandidateView, State,
};
use crate::stats::{Limits, Projection, StereoView, SummaryView};
use crate::validity;
use vstd::prelude::*;

verus! {

/// Everything that can happen to a session.
pub enum Event {
    Packet { leg: Leg, info: PacketInfo, samples: Option<Seq<Single>> },
    JobDone { id: int, generation: int, outcome: OutcomeView },
    Weighed { energy_left: Double, energy_right: Double, threshold: Double },
    Fitted { left: Projection, right: Projection },
    Summarized { summary: SummaryView },
    JobTaken,
    ChunkTaken,
    FailedOutside { why: Seq<char> },
}

impl State {
    pub open spec fn after(self, e: Event) -> State {
        match e {
            Event::Packet { leg, info, samples } => self.push(leg, info, samples),
            Event::JobDone { id, generation, outcome } => self.complete_job(id, generation, outcome),
            Event::Weighed { energy_left, energy_right, threshold } => self.weighed(
                energy_left,
                energy_right,
                threshold,
            ),
            Event::Fitted { left, right } => self.fitted(left, right),
            Event::Summarized { summary } => self.summarized(summary),
            Event::JobTaken => self.job_taken(),
            Event::ChunkTaken => self.chunk_taken(),
            Event::FailedOutside { why } => self.failed(why),
        }
    }

    /// What the events need: packets and job results come while nothing is asked of the host.
    pub open spec fn accepts(self, e: Event) -> bool {
        match e {
            Event::Packet { leg, info, samples } => self.asking is Nothing && self.admits(
                leg,
                info,
                samples,
            ),
            Event::JobDone { id, generation, outcome } => {
                &&& self.asking is Nothing
                &&& outcome matches OutcomeView::Candidate { offset, .. } ==> i64::MIN <= offset
                    <= i64::MAX
            },
            _ => true,
        }
    }

    /// The state behind a run of events.
    pub open spec fn after_all(self, events: Seq<Event>) -> State
        decreases events.len(),
    {
        if events.len() == 0 {
            self
        } else {
            self.after_all(events.drop_last()).after(events.last())
        }
    }

    /// Each event of a run is accepted when it comes.
    pub open spec fn accepts_all(self, events: Seq<Event>) -> bool
        decreases events.len(),
    {
        events.len() == 0 || (self.accepts_all(events.drop_last()) && self.after_all(
            events.drop_last(),
        ).accepts(events.last()))
    }

    /// How many chunks a run of events fetched.
    pub open spec fn popped(self, events: Seq<Event>) -> nat
        decreases events.len(),
    {
        if events.len() == 0 {
            0
        } else {
            let before = events.drop_last();
            self.popped(before) + if events.last() is ChunkTaken && self.after_all(before).queued() > 0 {
                1nat
            } else {
                0nat
            }
        }
    }

    /// Why output frame `k` came out as it did: it is muted; or it passed over a reference that was
    /// delivered and silent over the whole window, with the bias proven; or it is the endpoint
    /// frame minus the reference frame at the verified offset.
    pub open spec fn explained(self, k: int) -> bool {
        match self.emitted[k] {
            OutFrame::Muted => true,
            OutFrame::Passed { endpoint } => {
                &&& !(self.phase is Running)
                &&& endpoint == self.ep.log[k]
                &&& self.applicable() is Some
                &&& self.quiet_window() matches Some((center, ws)) && self.quiet_around(k, center, ws)
            },
            OutFrame::Difference { endpoint, reference } => {
                &&& !(self.phase is Aligning)
                &&& self.offset matches Some(offset) && self.emitted[k] == self.difference(k, offset)
            },
        }
    }
}

/// Each frame that `t` has put out beyond `s` is explained.
pub open spec fn new_frames_explained(s: State, t: State) -> bool {
    forall|k: int| s.emitted.len() <= k < t.emitted.len() ==> #[trigger] t.explained(k)
}

/// A step within a generation that neither begins nor proves anything.
spec fn progress(s: State, t: State) -> bool {
    &&& t.locks == s.locks
    &&& t.offset == s.offset
    &&& t.proven == s.proven
    &&& t.generation == s.generation
    &&& t.phase == s.phase || t.phase is Failed
    &&& t.emitted.len() >= s.emitted.len()
    &&& t.taken - t.dropped == s.taken - s.dropped
    &&& s.in_flight is Some && t.in_flight == s.in_flight ==> t.next_calib == s.next_calib
    &&& s.candidate is Some && t.candidate is Some ==> t.candidate->0.offset
        == s.candidate->0.offset && t.candidate->0.next >= s.candidate->0.next
    &&& s.candidate is None ==> t.candidate is None
    &&& new_frames_explained(s, t)
}

pub proof fn lemma_watch_keeps(s: State)
    requires
        s.asking is Nothing,
    ensures
        s.watch() == (State { monitor_next: s.watch().monitor_next, asking: s.watch().asking, ..s }),
        s.watch().asking is Nothing || s.watch().asking is MonitorFit,
    decreases s.emitted.len() - s.monitor_next,
{
    let len = s.cfg.sub_block_frames;
    if s.monitor_next + len <= s.emitted.len() {
        match s.ready(s.monitor_next, s.offset->0) {
            Some(false) => if len > 0 {
                lemma_watch_keeps(State { monitor_next: s.monitor_next + len, ..s });
            },
            _ => {},
        }
    }
}

proof fn lemma_watched_progress(s: State)
    requires
        s.asking is Nothing,
        s.phase is Running,
    ensures
        progress(s, s.watched()),
        s.watched().in_flight == s.in_flight,
        s.watched().emitted == s.emitted,
        s.watched().offset == s.offset,
        s.watched().ep == s.ep,
        s.watched().rf == s.rf,
{
    reveal(State::watched);
    lemma_watch_keeps(s);
}

proof fn lemma_put_out_progress(s: State)
    requires
        s.valid(),
        s.asking is Nothing,
    ensures
        progress(s, s.put_out()),
        s.put_out().in_flight == s.in_flight,
        s.put_out().next_calib == s.next_calib,
        s.put_out().rejected == s.rejected,
        s.put_out().mismatches == s.mismatches,
{
    reveal(State::put_out);
    let t = s.put_out();
    let from = s.emitted.len() as int;
    match s.phase {
        Phase::Failed => {},
        Phase::Aligning => {
            reveal(State::emit_aligning);
            let frames = s.unlocked_frames(from, s.decidable());
            assert(t.emitted == s.emitted + frames);
            assert forall|k: int| from <= k < t.emitted.len() implies #[trigger] t.explained(k) by {
                assert(t.emitted[k] == frames[k - from]);
                assert(t.emitted[k] == s.unlocked_frame(k));
                assert(t.quiet_window() == s.quiet_window());
                if t.emitted[k] is Passed {
                    let w = s.quiet_window()->0;
                    assert(s.quiet_around(k, w.0, w.1));
                    assert(t.quiet_around(k, w.0, w.1));
                }
            }
        },
        Phase::Running => {
            reveal(State::emit_running);
            let offset = s.offset->0;
            let u = s.emit_running();
            if !(u.phase is Failed) {
                let to = larger(from, smaller(s.ep.end(), s.rf.end() - offset));
                let frames = s.differences(from, to, offset);
                assert(u.emitted == s.emitted + frames);
                lemma_watched_progress(u);
                reveal(State::watched);
                lemma_watch_keeps(u);
                assert forall|k: int| from <= k < t.emitted.len() implies #[trigger] t.explained(k) by {
                    assert(t.emitted[k] == frames[k - from]);
                    assert(t.emitted[k] == s.difference(k, offset));
                }
            }
        },
    }
}

proof fn lemma_given_up_progress(s: State, why: Seq<char>, mismatch: bool)
    requires
        s.valid(),
        s.phase is Aligning,
        s.candidate is Some,
    ensures
        progress(s, s.dropped_candidate(why, mismatch).timed().put_out()),
        s.dropped_candidate(why, mismatch).timed().put_out().in_flight == s.in_flight,
{
    validity::lemma_dropped_candidate(s, why, mismatch);
    let t = s.dropped_candidate(why, mismatch);
    validity::lemma_timed(t);
    lemma_put_out_progress(t.timed());
}

proof fn lemma_verify_progress(s: State)
    requires
        s.valid(),
        s.phase is Aligning,
        s.asking is Nothing,
    ensures
        progress(s, s.verify()),
        s.verify().in_flight == s.in_flight,
{
    reveal(State::verify);
    match s.candidate {
        None => lemma_put_out_progress(s),
        Some(c) => match s.ready(c.next, c.offset) {
            None => lemma_put_out_progress(s),
            Some(false) => lemma_given_up_progress(s, reasons::history_lost(), false),
            Some(true) => {},
        },
    }
}

proof fn lemma_seek_progress(s: State, center: int)
    requires
        s.valid(),
        s.phase is Aligning,
        s.asking is Nothing,
    ensures
        progress(s, s.seek(center)),
        s.seek(center).in_flight == s.in_flight,
{
    reveal(State::seek);
    if !s.covered(s.block_start(center), center) {
        lemma_put_out_progress(s);
    }
}

proof fn lemma_advance_progress(s: State)
    requires
        s.valid(),
        s.asking is Nothing,
    ensures
        progress(s, s.advance()),
        s.advance().in_flight == s.in_flight,
{
    reveal(State::advance);
    let t = s.with_coarse();
    validity::lemma_same_output(s, t);
    assert(t.valid());
    match t.phase {
        Phase::Aligning => if !(t.rf.anchor is None && t.ep.end() - t.ep.gen_start
            > t.cfg.reference_absent_frames) {
            reveal(State::calibrate);
            if t.candidate is Some || t.in_flight is Some {
                lemma_verify_progress(t);
            } else {
                match t.center() {
                    None => {
                        let u = State { reason: reasons::waiting_for_packets(), ..t };
                        validity::lemma_same_output(t, u);
                        lemma_put_out_progress(u);
                    },
                    Some(center) => lemma_seek_progress(t, center),
                }
            }
        },
        _ => lemma_put_out_progress(t),
    }
}

proof fn lemma_weighed_progress(s: State, left: Double, right: Double, threshold: Double)
    requires
        s.valid(),
    ensures
        progress(s, s.weighed(left, right, threshold)),
        s.weighed(left, right, threshold).in_flight == s.in_flight || (s.in_flight is None && s.weighed(
            left,
            right,
            threshold,
        ).in_flight == Some(s.next_job_id)),
{
    match s.asking {
        AskView::Energy { start, center } => if threshold.above(left) && threshold.above(right) {
            let t = s.slid(start);
            validity::lemma_same_output(s, t);
            lemma_seek_progress(t, center);
        } else {
            let t = s.posted(start, center);
            validity::lemma_same_output(s, t);
            lemma_put_out_progress(t);
        },
        _ => {},
    }
}

proof fn lemma_fitted_progress(s: State, left: Projection, right: Projection)
    requires
        s.valid(),
    ensures
        progress(s, s.fitted(left, right)),
        s.fitted(left, right).in_flight == s.in_flight,
{
    if s.asking is MonitorFit {
        reveal(State::monitored);
        let l = left.estimates();
        let r = right.estimates();
        if !(l.gain is Some || r.gain is Some) {
            let t = State {
                monitor_next: s.monitor_next + s.cfg.sub_block_frames,
                monitor: s.monitor.with(l, r),
                asking: AskView::Nothing,
                ..s
            };
            lemma_watched_progress(t);
        }
    }
}

/// The summary proves the candidate.
pub open spec fn accepts_candidate(s: State, summary: SummaryView) -> bool {
    &&& s.asking is VerifySummary
    &&& s.candidate matches Some(c) && c.ev.verdict(summary, s.cfg.spec_limits()) is Accept
}

proof fn lemma_summarized_progress(s: State, summary: SummaryView)
    requires
        s.valid(),
        !accepts_candidate(s, summary),
    ensures
        progress(s, s.summarized(summary)),
        s.summarized(summary).in_flight == s.in_flight,
{
    match s.asking {
        AskView::VerifySummary => {
            reveal(State::judged);
            let c = s.candidate->0;
            let t = s.with_estimates(c.ev, summary);
            validity::lemma_with_estimates(s, c.ev, summary);
            if c.ev.verdict(summary, s.cfg.spec_limits()) is Reject {
                lemma_given_up_progress(t, reasons::failed_unity(c.offset, summary.text), true);
            } else if c.valid >= s.cfg.max_verify_sub_blocks {
                lemma_given_up_progress(t, reasons::inconclusive(c.offset, summary.text), false);
            } else {
                validity::lemma_unasked(t);
                validity::lemma_timed(t.unasked());
                let u = t.unasked().timed();
                if !(u.phase is Failed) {
                    lemma_verify_progress(u);
                }
            }
        },
        AskView::MonitorSummary => {
            reveal(State::monitor_judged);
            let t = s.with_estimates(s.monitor, summary).unasked();
            if s.monitor_fresh + 1 < s.cfg.monitor_window {
                lemma_watched_progress(State { monitor_fresh: s.monitor_fresh + 1, ..t });
            } else {
                let rejects = if s.monitor.verdict(summary, s.cfg.spec_limits()) is Reject {
                    s.monitor_rejects + 1
                } else {
                    0
                };
                let u = State {
                    monitor: StereoView::empty(s.monitor.cap),
                    monitor_fresh: 0,
                    monitor_rejects: rejects,
                    ..t
                };
                if !(rejects > 0 && rejects >= s.cfg.monitor_consecutive) {
                    lemma_watched_progress(u);
                }
            }
        },
        _ => {},
    }
}

/// The state right behind a lock, before anything is put out.
spec fn just_locked(s: State, summary: SummaryView) -> State {
    s.with_estimates(s.candidate->0.ev, summary).locked(summary.text)
}

proof fn lemma_summarized_lock(s: State, summary: SummaryView)
    requires
        s.valid(),
        accepts_candidate(s, summary),
    ensures
        just_locked(s, summary).valid(),
        just_locked(s, summary).asking is Nothing,
        s.summarized(summary) == just_locked(s, summary).put_out(),
        progress(just_locked(s, summary), s.summarized(summary)),
        s.summarized(summary).in_flight == s.in_flight,
        just_locked(s, summary).emitted == s.emitted,
{
    reveal(State::judged);
    let c = s.candidate->0;
    validity::lemma_with_estimates(s, c.ev, summary);
    validity::lemma_locked(s.with_estimates(c.ev, summary), summary.text);
    lemma_put_out_progress(just_locked(s, summary));
}

proof fn lemma_delivered_progress(s: State, leg: Leg, info: PacketInfo, data: Option<Seq<Single>>)
    requires
        s.valid(),
        s.asking is Nothing,
        !(s.phase is Failed),
        s.ep.start <= s.emitted.len(),
        s.takes(leg, info, data),
    ensures
        progress(s, s.delivered(leg, info, data)),
        s.delivered(leg, info, data).in_flight == s.in_flight,
{
    reveal(State::delivered);
    if acceptable(data, info.frames as nat) {
        validity::lemma_taken_in(s, leg, info, data);
        lemma_advance_progress(s.taken_in(leg, info, data));
    }
}

/// A packet that is taken: its frames arrived, in the right number.
pub open spec fn arrives(s: State, info: PacketInfo, samples: Option<Seq<Single>>) -> bool {
    !(s.phase is Failed) && info.frames > 0 && State::well_sized(info, samples)
}

proof fn lemma_push_whole(s: State, leg: Leg, info: PacketInfo, samples: Option<Seq<Single>>)
    requires
        s.valid(),
        s.patient(),
        s.asking is Nothing,
        s.admits(leg, info, samples),
        !(arrives(s, info, samples) && s.breaks(leg, info)),
    ensures
        progress(s, s.push(leg, info, samples)),
        s.push(leg, info, samples).in_flight == s.in_flight,
{
    if arrives(s, info, samples) {
        validity::lemma_checked_breaks(s, leg, info);
        lemma_delivered_progress(s, leg, info, State::payload(info, samples));
    }
}

proof fn lemma_push_broken(s: State, leg: Leg, info: PacketInfo, samples: Option<Seq<Single>>)
    requires
        s.valid(),
        s.patient(),
        s.asking is Nothing,
        s.admits(leg, info, samples),
        arrives(s, info, samples),
        s.breaks(leg, info),
    ensures
        progress(s.checked(leg, info), s.push(leg, info, samples)),
        s.push(leg, info, samples).in_flight is None,
        s.checked(leg, info).emitted.is_prefix_of(s.push(leg, info, samples).emitted),
{
    validity::lemma_checked(s, leg, info);
    validity::lemma_checked_breaks(s, leg, info);
    let data = State::payload(info, samples);
    let t = s.checked(leg, info);
    lemma_delivered_progress(t, leg, info, data);
    validity::lemma_delivered(t, leg, info, data);
    reveal(State::leads_to);
}

/// The state right behind an awaited result, before the session goes on.
spec fn told(s: State, outcome: OutcomeView) -> State {
    match outcome {
        OutcomeView::Candidate { offset, peak, peak_text, runner_up, runner_up_text } => State {
            in_flight: None,
            reason: reasons::verifying(offset, peak_text, runner_up_text),
            candidate: Some(
                CandidateView {
                    offset,
                    next: s.next_calib,
                    valid: 0,
                    ev: StereoView::empty(larger(1, s.cfg.max_verify_sub_blocks as int) as nat),
                },
            ),
            ..s
        },
        OutcomeView::Rejected { reason, mismatch } => State {
            in_flight: None,
            rejected: s.rejected + 1,
            mismatches: s.mismatches + if mismatch { 1int } else { 0int },
            reason: reasons::not_locked(reason),
            last_reject: Some(reason),
            ..s
        }.timed(),
    }
}

proof fn lemma_complete_job_progress(s: State, id: int, generation: int, outcome: OutcomeView)
    requires
        s.valid(),
        s.patient(),
        s.asking is Nothing,
        outcome matches OutcomeView::Candidate { offset, .. } ==> i64::MIN <= offset <= i64::MAX,
        !(s.phase is Failed),
        generation == s.generation,
        s.in_flight == Some(id),
    ensures
        progress(told(s, outcome), s.complete_job(id, generation, outcome)),
        s.complete_job(id, generation, outcome).in_flight is None,
{
    let t = told(s, outcome);
    match outcome {
        OutcomeView::Candidate { .. } => {
            validity::lemma_same_output(s, t);
            lemma_advance_progress(t);
        },
        OutcomeView::Rejected { reason, mismatch } => {
            let u = State {
                in_flight: None,
                rejected: s.rejected + 1,
                mismatches: s.mismatches + if mismatch { 1int } else { 0int },
                reason: reasons::not_locked(reason),
                last_reject: Some(reason),
                ..s
            };
            validity::lemma_same_output(s, u);
            validity::lemma_timed(u);
            if !(t.phase is Failed) {
                lemma_advance_progress(t);
            }
        },
    }
}

/// Every event leads from a sound session to a sound session, in which the logs and the output only
/// grew, and which keeps no more endpoint frames waiting than its limit allows.
pub proof fn every_event_keeps_a_session_sound(s: State, e: Event)
    requires
        s.valid(),
        s.patient(),
        s.accepts(e),
    ensures
        s.after(e).valid(),
        s.after(e).patient(),
        s.leads_to(s.after(e)),
{
    match e {
        Event::Packet { leg, info, samples } => validity::lemma_push(s, leg, info, samples),
        Event::JobDone { id, generation, outcome } => validity::lemma_complete_job(
            s,
            id,
            generation,
            outcome,
        ),
        Event::Weighed { energy_left, energy_right, threshold } => validity::lemma_weighed(
            s,
            energy_left,
            energy_right,
            threshold,
        ),
        Event::Fitted { left, right } => validity::lemma_fitted(s, left, right),
        Event::Summarized { summary } => validity::lemma_summarized(s, summary),
        Event::JobTaken => {
            reveal(State::leads_to);
            validity::lemma_same_output(s, s.job_taken());
        },
        Event::ChunkTaken => validity::lemma_chunk_taken(s),
        Event::FailedOutside { why } => validity::lemma_failed(s, why),
    }
}

/// Whatever happens to a session, it stays sound, and what it has put out stays.
pub proof fn every_run_keeps_a_session_sound(s: State, events: Seq<Event>)
    requires
        s.valid(),
        s.patient(),
        s.accepts_all(events),
    ensures
        s.after_all(events).valid(),
        s.after_all(events).patient(),
        s.leads_to(s.after_all(events)),
    decreases events.len(),
{
    if events.len() == 0 {
        reveal(State::leads_to);
    } else {
        every_run_keeps_a_session_sound(s, events.drop_last());
        let t = s.after_all(events.drop_last());
        every_event_keeps_a_session_sound(t, events.last());
        validity::lemma_leads_to(s, t, t.after(events.last()));
    }
}

/// From its start on, a session never keeps more endpoint frames waiting than its limit allows,
/// unless it has failed or is about to be answered; until a lock it puts out only silence, and then
/// no frame waits.
pub proof fn every_session_is_sound(cfg: Config, events: Seq<Event>)
    requires
        cfg.sound(),
        State::initial(cfg).accepts_all(events),
    ensures
        ({
            let t = State::initial(cfg).after_all(events);
            &&& t.valid()
            &&& t.asking is Nothing && !(t.phase is Failed) ==> t.buffered() <= cfg.max_pending_frames
            &&& t.asking is Nothing && !(t.phase is Failed) && t.locks == 0 ==> t.buffered() == 0
            &&& t.locks == 0 ==> forall|k: int|
                0 <= k < t.emitted.len() ==> (#[trigger] t.emitted[k]) is Muted
        }),
{
    let s = State::initial(cfg);
    validity::lemma_initial(cfg);
    every_run_keeps_a_session_sound(s, events);
    reveal(State::leads_to);
    let t = s.after_all(events);
    assert forall|k: int| t.locks == 0 && 0 <= k < t.emitted.len() implies (#[trigger] t.emitted[k]) is Muted by {
        assert(t.sourced(k));
    }
}

/// A failed session stays failed, for the same reason, and puts nothing more out.
pub proof fn failure_is_final(s: State, e: Event)
    requires
        s.valid(),
        s.phase is Failed,
    ensures
        s.after(e).phase is Failed,
        s.after(e).reason == s.reason,
        s.after(e).emitted == s.emitted,
{
}

/// Nothing that happens to a failed session brings it back.
pub proof fn a_failed_session_is_over(s: State, events: Seq<Event>)
    requires
        s.valid(),
        s.patient(),
        s.accepts_all(events),
        s.phase is Failed,
    ensures
        s.after_all(events).phase is Failed,
        s.after_all(events).reason == s.reason,
        s.after_all(events).emitted == s.emitted,
    decreases events.len(),
{
    if events.len() > 0 {
        a_failed_session_is_over(s, events.drop_last());
        every_run_keeps_a_session_sound(s, events.drop_last());
        failure_is_final(s.after_all(events.drop_last()), events.last());
    }
}

/// A failed session holds no search job and no candidate, and asks nothing of the host.
pub proof fn a_failed_session_holds_no_job(s: State)
    requires
        s.valid(),
        s.phase is Failed,
    ensures
        s.outbox is None,
        s.candidate is None,
        s.asking is Nothing,
        s.job_taken() == s,
{
}

/// Before the first lock no endpoint frame waits, once the host has answered what it was asked.
pub proof fn nothing_waits_before_the_first_lock(s: State)
    requires
        s.valid(),
        s.patient(),
        s.asking is Nothing,
        !(s.phase is Failed),
        s.locks == 0,
    ensures
        s.buffered() == 0,
        s.emitted.len() == s.ep.end(),
{
}

/// Output frame `k` always stands for endpoint frame `k`: what was put out stays, and what comes
/// behind it is muted, the endpoint frame of the same index, or that frame minus a reference frame.
pub proof fn output_follows_the_endpoint(s: State, e: Event)
    requires
        s.valid(),
        s.patient(),
        s.accepts(e),
    ensures
        s.emitted.is_prefix_of(s.after(e).emitted),
        s.after(e).emitted.len() <= s.after(e).ep.end(),
        forall|k: int|
            0 <= k < s.after(e).emitted.len() ==> match #[trigger] s.after(e).emitted[k] {
                OutFrame::Muted => true,
                OutFrame::Passed { endpoint } => endpoint == s.after(e).ep.log[k],
                OutFrame::Difference { endpoint, reference } => endpoint == s.after(e).ep.log[k]
                    && s.after(e).rf.log.contains(reference),
            },
{
    every_event_keeps_a_session_sound(s, e);
    reveal(State::leads_to);
    assert forall|k: int| 0 <= k < s.after(e).emitted.len() implies match #[trigger] s.after(e).emitted[k] {
        OutFrame::Muted => true,
        OutFrame::Passed { endpoint } => endpoint == s.after(e).ep.log[k],
        OutFrame::Difference { endpoint, reference } => endpoint == s.after(e).ep.log[k]
            && s.after(e).rf.log.contains(reference),
    } by {
        assert(s.after(e).sourced(k));
    }
}

/// Each endpoint frame was muted, passed, subtracted, or still waits.
pub proof fn frames_are_conserved(s: State)
    requires
        s.valid(),
    ensures
        s.ep.end() == muted_in(s.emitted) + passed_in(s.emitted) + subtracted_in(s.emitted)
            + s.buffered(),
        s.buffered() >= 0,
{
    every_frame_is_counted_once(s.emitted);
}

/// Before the first lock everything that comes out is muted.
pub proof fn only_silence_before_the_first_lock(s: State, k: int)
    requires
        s.valid(),
        s.locks == 0,
        0 <= k < s.emitted.len(),
    ensures
        s.emitted[k] is Muted,
{
    assert(s.sourced(k));
}

/// Whatever an event puts out is muted; or it is the endpoint frame, passed while no lock holds,
/// with the bias proven by the clocks of this generation and the reference delivered and silent
/// over the whole window around the frame; or it is the endpoint frame minus the reference frame
/// at the verified offset. Missing reference frames are never taken for silence.
pub proof fn new_output_is_explained(s: State, e: Event)
    requires
        s.valid(),
        s.patient(),
        s.accepts(e),
    ensures
        new_frames_explained(s, s.after(e)),
{
    match e {
        Event::Packet { leg, info, samples } => {
            if arrives(s, info, samples) && s.breaks(leg, info) {
                validity::lemma_checked_breaks(s, leg, info);
                lemma_push_broken(s, leg, info, samples);
                let m = s.checked(leg, info);
                let t = s.after(e);
                assert forall|k: int| s.emitted.len() <= k < t.emitted.len() implies #[trigger] t.explained(k) by {
                    if k < m.emitted.len() {
                        assert(t.emitted[k] == m.emitted[k]);
                        assert(m.emitted[k] is Muted);
                    }
                }
            } else {
                lemma_push_whole(s, leg, info, samples);
            }
        },
        Event::JobDone { id, generation, outcome } => {
            if !(s.phase is Failed) && generation == s.generation && s.in_flight == Some(id) {
                lemma_complete_job_progress(s, id, generation, outcome);
                assert(told(s, outcome).emitted == s.emitted);
            }
        },
        Event::Weighed { energy_left, energy_right, threshold } => lemma_weighed_progress(
            s,
            energy_left,
            energy_right,
            threshold,
        ),
        Event::Fitted { left, right } => lemma_fitted_progress(s, left, right),
        Event::Summarized { summary } => {
            if accepts_candidate(s, summary) {
                lemma_summarized_lock(s, summary);
            } else {
                lemma_summarized_progress(s, summary);
            }
        },
        _ => {},
    }
}

/// A lock comes only from a candidate whose evidence was accepted, and at its offset.
pub proof fn only_an_accepted_candidate_locks(s: State, e: Event)
    requires
        s.valid(),
        s.patient(),
        s.accepts(e),
        s.after(e).locks != s.locks || (s.after(e).phase is Running && !(s.phase is Running)),
    ensures
        e matches Event::Summarized { summary } && accepts_candidate(s, summary),
        s.after(e).locks == s.locks + 1,
        s.after(e).offset == Some(s.candidate->0.offset),
{
    match e {
        Event::Packet { leg, info, samples } => {
            if arrives(s, info, samples) && s.breaks(leg, info) {
                validity::lemma_checked_breaks(s, leg, info);
                lemma_push_broken(s, leg, info, samples);
            } else {
                lemma_push_whole(s, leg, info, samples);
            }
        },
        Event::JobDone { id, generation, outcome } => {
            if !(s.phase is Failed) && generation == s.generation && s.in_flight == Some(id) {
                lemma_complete_job_progress(s, id, generation, outcome);
            }
        },
        Event::Weighed { energy_left, energy_right, threshold } => lemma_weighed_progress(
            s,
            energy_left,
            energy_right,
            threshold,
        ),
        Event::Fitted { left, right } => lemma_fitted_progress(s, left, right),
        Event::Summarized { summary } => {
            if accepts_candidate(s, summary) {
                lemma_summarized_lock(s, summary);
            } else {
                lemma_summarized_progress(s, summary);
            }
        },
        _ => {},
    }
}

/// What a lock has proven is kept until the next lock: through lost packets, new generations, searches,
/// rejected candidates and failures.
pub proof fn what_is_proven_is_kept_until_the_next_lock(s: State, e: Event)
    requires
        s.valid(),
        s.patient(),
        s.accepts(e),
        s.after(e).locks == s.locks,
    ensures
        s.after(e).proven == s.proven,
{
    match e {
        Event::Packet { leg, info, samples } => {
            if arrives(s, info, samples) && s.breaks(leg, info) {
                validity::lemma_checked_breaks(s, leg, info);
                lemma_push_broken(s, leg, info, samples);
            } else {
                lemma_push_whole(s, leg, info, samples);
            }
        },
        Event::JobDone { id, generation, outcome } => {
            if !(s.phase is Failed) && generation == s.generation && s.in_flight == Some(id) {
                lemma_complete_job_progress(s, id, generation, outcome);
            }
        },
        Event::Weighed { energy_left, energy_right, threshold } => lemma_weighed_progress(
            s,
            energy_left,
            energy_right,
            threshold,
        ),
        Event::Fitted { left, right } => lemma_fitted_progress(s, left, right),
        Event::Summarized { summary } => {
            if accepts_candidate(s, summary) {
                lemma_summarized_lock(s, summary);
            } else {
                lemma_summarized_progress(s, summary);
            }
        },
        _ => {},
    }
}

/// However much happens between two locks, the bias that the first has proven is the one that the
/// search before the second is centred on and that its candidate is held against.
pub proof fn a_proven_bias_outlives_generations(s: State, events: Seq<Event>)
    requires
        s.valid(),
        s.patient(),
        s.accepts_all(events),
        s.after_all(events).locks == s.locks,
    ensures
        s.after_all(events).proven == s.proven,
    decreases events.len(),
{
    if events.len() > 0 {
        let before = events.drop_last();
        let t = s.after_all(before);
        every_run_keeps_a_session_sound(s, before);
        every_event_keeps_a_session_sound(t, events.last());
        reveal(State::leads_to);
        a_proven_bias_outlives_generations(s, before);
        what_is_proven_is_kept_until_the_next_lock(t, events.last());
    }
}

/// A lock whose bias lies further from the proven one than the passthrough window ends the session.
pub proof fn a_moved_bias_ends_the_session(s: State, summary: SummaryView)
    requires
        s.valid(),
        accepts_candidate(s, summary),
        s.applicable() is Some,
        ({
            let moved = 625 * s.candidate->0.offset - s.coarse->0 - s.applicable()->0;
            let bound = 625 * s.cfg.spec_passthrough_window(s.kinds()->0);
            moved > bound || -moved > bound
        }),
    ensures
        s.summarized(summary).phase is Failed,
        s.summarized(summary).locks == s.locks,
        s.summarized(summary).reason == reasons::moved(
            625 * s.candidate->0.offset - s.coarse->0 - s.applicable()->0,
            s.cfg.spec_passthrough_window(s.kinds()->0),
        ),
{
    lemma_summarized_lock(s, summary);
    reveal(State::put_out);
}

/// Lost frames end the generation: what still waited is muted, the offset is gone, and no search or
/// candidate of the old generation is left.
pub proof fn a_broken_timeline_mutes_what_waits(
    s: State,
    leg: Leg,
    info: PacketInfo,
    samples: Option<Seq<Single>>,
)
    requires
        s.valid(),
        s.patient(),
        s.asking is Nothing,
        s.admits(leg, info, samples),
        arrives(s, info, samples),
        s.breaks(leg, info),
    ensures
        ({
            let t = s.push(leg, info, samples);
            &&& t.generation == s.generation + 1
            &&& !(t.phase is Running)
            &&& t.offset is None
            &&& t.candidate is None
            &&& t.in_flight is None
            &&& t.emitted.len() >= s.ep.end()
            &&& forall|k: int| s.emitted.len() <= k < s.ep.end() ==> (#[trigger] t.emitted[k]) is Muted
        }),
{
    validity::lemma_checked_breaks(s, leg, info);
    lemma_push_broken(s, leg, info, samples);
    let m = s.checked(leg, info);
    let t = s.push(leg, info, samples);
    assert forall|k: int| s.emitted.len() <= k < s.ep.end() implies (#[trigger] t.emitted[k]) is Muted by {
        assert(t.emitted[k] == m.emitted[k]);
    }
}

/// A packet that continues its leg leaves the generation as it is.
pub proof fn a_whole_timeline_keeps_the_generation(
    s: State,
    leg: Leg,
    info: PacketInfo,
    samples: Option<Seq<Single>>,
)
    requires
        s.valid(),
        s.patient(),
        s.asking is Nothing,
        s.admits(leg, info, samples),
        !s.breaks(leg, info),
    ensures
        s.push(leg, info, samples).generation == s.generation,
        s.push(leg, info, samples).offset == s.offset,
{
    lemma_push_whole(s, leg, info, samples);
}

/// A result that is not awaited, of an older generation or of another job, changes nothing.
pub proof fn an_unawaited_result_changes_nothing(s: State, id: int, generation: int, outcome: OutcomeView)
    requires
        generation != s.generation || s.in_flight != Some(id),
    ensures
        s.complete_job(id, generation, outcome) == s,
{
}

/// A packet of the wrong size, or with samples that are not finite, ends the session.
pub proof fn a_bad_packet_ends_the_session(
    s: State,
    leg: Leg,
    info: PacketInfo,
    samples: Option<Seq<Single>>,
)
    requires
        s.valid(),
        s.asking is Nothing,
        !(s.phase is Failed),
        info.frames > 0,
        !State::well_sized(info, samples) || !acceptable(
            State::payload(info, samples),
            info.frames as nat,
        ),
    ensures
        s.push(leg, info, samples).phase is Failed,
        s.push(leg, info, samples).reason == if State::well_sized(info, samples) {
            reasons::non_finite(leg)
        } else {
            reasons::malformed(leg)
        },
{
    if State::well_sized(info, samples) {
        validity::lemma_checked(s, leg, info);
        reveal(State::delivered);
    }
}

/// Where no reference packet came for too many endpoint frames of a generation, the next endpoint
/// packet ends the session.
pub proof fn a_missing_reference_ends_the_session(s: State, info: PacketInfo, samples: Option<Seq<Single>>)
    requires
        s.valid(),
        s.asking is Nothing,
        s.admits(Leg::Endpoint, info, samples),
        s.phase is Aligning,
        s.rf.anchor is None,
        arrives(s, info, samples),
        acceptable(State::payload(info, samples), info.frames as nat),
        !s.breaks(Leg::Endpoint, info),
        s.ep.end() + info.frames - s.ep.gen_start > s.cfg.reference_absent_frames,
    ensures
        s.push(Leg::Endpoint, info, samples).phase is Failed,
        s.push(Leg::Endpoint, info, samples).reason == reasons::absent(
            s.cfg.reference_absent_frames as nat,
        ),
{
    validity::lemma_checked_breaks(s, Leg::Endpoint, info);
    reveal(State::delivered);
    reveal(State::advance);
}

/// A search job is awaited alone, under a number that was never used.
pub proof fn searches_are_awaited_one_at_a_time(s: State, e: Event)
    requires
        s.valid(),
        s.patient(),
        s.accepts(e),
        s.after(e).in_flight is Some,
        s.after(e).in_flight != s.in_flight,
    ensures
        e is Weighed,
        s.in_flight is None,
        s.after(e).in_flight == Some(s.next_job_id),
{
    match e {
        Event::Packet { leg, info, samples } => {
            if arrives(s, info, samples) && s.breaks(leg, info) {
                lemma_push_broken(s, leg, info, samples);
            } else {
                lemma_push_whole(s, leg, info, samples);
            }
        },
        Event::JobDone { id, generation, outcome } => {
            if !(s.phase is Failed) && generation == s.generation && s.in_flight == Some(id) {
                lemma_complete_job_progress(s, id, generation, outcome);
            }
        },
        Event::Weighed { energy_left, energy_right, threshold } => lemma_weighed_progress(
            s,
            energy_left,
            energy_right,
            threshold,
        ),
        Event::Fitted { left, right } => lemma_fitted_progress(s, left, right),
        Event::Summarized { summary } => {
            if accepts_candidate(s, summary) {
                lemma_summarized_lock(s, summary);
            } else {
                lemma_summarized_progress(s, summary);
            }
        },
        _ => {},
    }
}

/// A candidate is verified on audio that the search did not use. A waiting job covers the block
/// that ends at `next_calib`; as long as its result is awaited, that mark stays; the candidate of
/// the result begins at the mark; and from there it only moves on.
pub proof fn verification_begins_behind_the_search_block(s: State, e: Event)
    requires
        s.valid(),
        s.patient(),
        s.accepts(e),
    ensures
        s.outbox matches Some(j) ==> s.in_flight is Some ==> s.in_flight == Some(j.id)
            && j.endpoint_start + s.cfg.calib_frames == s.next_calib,
        s.in_flight is Some && s.after(e).in_flight == s.in_flight ==> s.after(e).next_calib
            == s.next_calib,
        s.candidate is None && s.after(e).candidate is Some ==> s.in_flight is Some && s.after(
            e,
        ).candidate->0.next >= s.next_calib,
        s.candidate is Some && s.after(e).candidate is Some ==> s.after(e).candidate->0.offset
            == s.candidate->0.offset && s.after(e).candidate->0.next >= s.candidate->0.next,
{
    match e {
        Event::Packet { leg, info, samples } => {
            if arrives(s, info, samples) && s.breaks(leg, info) {
                validity::lemma_checked_breaks(s, leg, info);
                lemma_push_broken(s, leg, info, samples);
            } else {
                lemma_push_whole(s, leg, info, samples);
            }
        },
        Event::JobDone { id, generation, outcome } => {
            if !(s.phase is Failed) && generation == s.generation && s.in_flight == Some(id) {
                lemma_complete_job_progress(s, id, generation, outcome);
            }
        },
        Event::Weighed { energy_left, energy_right, threshold } => lemma_weighed_progress(
            s,
            energy_left,
            energy_right,
            threshold,
        ),
        Event::Fitted { left, right } => lemma_fitted_progress(s, left, right),
        Event::Summarized { summary } => {
            if accepts_candidate(s, summary) {
                lemma_summarized_lock(s, summary);
            } else {
                lemma_summarized_progress(s, summary);
            }
        },
        _ => {},
    }
}

/// However long a search takes and whatever happens meanwhile: a candidate that comes of it is
/// verified only on audio behind the block that was searched.
pub proof fn a_candidate_is_verified_behind_its_block(s: State, events: Seq<Event>, outcome: OutcomeView)
    requires
        s.valid(),
        s.patient(),
        s.accepts_all(events),
        s.outbox is Some,
        s.in_flight is Some,
        s.after_all(events).in_flight == s.in_flight,
        s.after_all(events).accepts(
            (Event::JobDone {
                id: s.in_flight->0,
                generation: s.after_all(events).generation,
                outcome,
            }),
        ),
    ensures
        s.after_all(events).next_calib == s.outbox->0.endpoint_start + s.cfg.calib_frames,
        s.after_all(events).complete_job(
            s.in_flight->0,
            s.after_all(events).generation,
            outcome,
        ).candidate matches Some(c) ==> c.next >= s.outbox->0.endpoint_start + s.cfg.calib_frames,
{
    lemma_mark_stays(s, events);
    every_run_keeps_a_session_sound(s, events);
    let t = s.after_all(events);
    let e = Event::JobDone { id: s.in_flight->0, generation: t.generation, outcome };
    verification_begins_behind_the_search_block(t, e);
}

proof fn lemma_mark_stays(s: State, events: Seq<Event>)
    requires
        s.valid(),
        s.patient(),
        s.accepts_all(events),
        s.in_flight is Some,
        s.after_all(events).in_flight == s.in_flight,
    ensures
        s.after_all(events).next_calib == s.next_calib,
    decreases events.len(),
{
    if events.len() > 0 {
        let before = events.drop_last();
        let t = s.after_all(before);
        let e = events.last();
        every_run_keeps_a_session_sound(s, before);
        reveal(State::leads_to);
        if t.in_flight != s.in_flight {
            searches_are_awaited_one_at_a_time(t, e);
        } else {
            lemma_mark_stays(s, before);
            verification_begins_behind_the_search_block(t, e);
        }
    }
}

/// A chunk, once made, never changes, whatever happens; and no chunk is handed out twice.
pub proof fn chunks_never_change(s: State, e: Event, k: int)
    requires
        s.valid(),
        s.patient(),
        s.accepts(e),
        0 <= k < s.chunks_made(),
    ensures
        k < s.after(e).chunks_made(),
        s.after(e).chunk(k) == s.chunk(k),
        s.after(e).taken >= s.taken,
        e is ChunkTaken && s.taken < s.chunks_made() ==> s.after(e).taken == s.taken + 1,
{
    every_event_keeps_a_session_sound(s, e);
    reveal(State::leads_to);
    let t = s.after(e);
    let n = CHUNK_FRAMES as int;
    assert(n * (k + 1) <= s.emitted.len()) by (nonlinear_arith)
        requires
            n > 0,
            k < s.emitted.len() as int / n,
    ;
    assert(0 <= n * k <= n * (k + 1)) by (nonlinear_arith)
        requires
            n > 0,
            k >= 0,
    ;
    assert(t.chunk(k) =~= s.chunk(k));
}

/// Only fetching a chunk changes the number of chunks that left without being dropped, and by one
/// where a chunk waits.
pub proof fn only_fetching_takes_a_chunk_out(s: State, e: Event)
    requires
        s.valid(),
        s.patient(),
        s.accepts(e),
    ensures
        s.after(e).taken - s.after(e).dropped == s.taken - s.dropped + if e is ChunkTaken && s.queued() > 0 {
            1int
        } else {
            0int
        },
{
    match e {
        Event::Packet { leg, info, samples } => {
            if arrives(s, info, samples) && s.breaks(leg, info) {
                validity::lemma_checked_breaks(s, leg, info);
                lemma_push_broken(s, leg, info, samples);
            } else {
                lemma_push_whole(s, leg, info, samples);
            }
        },
        Event::JobDone { id, generation, outcome } => {
            if !(s.phase is Failed) && generation == s.generation && s.in_flight == Some(id) {
                lemma_complete_job_progress(s, id, generation, outcome);
            }
        },
        Event::Weighed { energy_left, energy_right, threshold } => lemma_weighed_progress(
            s,
            energy_left,
            energy_right,
            threshold,
        ),
        Event::Fitted { left, right } => lemma_fitted_progress(s, left, right),
        Event::Summarized { summary } => {
            if accepts_candidate(s, summary) {
                lemma_summarized_lock(s, summary);
            } else {
                lemma_summarized_progress(s, summary);
            }
        },
        _ => {},
    }
}

/// Whatever happens to a session, the chunks that were fetched, those that wait and those that were
/// dropped add up to the whole chunks that it has put out.
pub proof fn chunks_are_conserved(cfg: Config, events: Seq<Event>)
    requires
        cfg.sound(),
        State::initial(cfg).accepts_all(events),
    ensures
        ({
            let t = State::initial(cfg).after_all(events);
            &&& State::initial(cfg).popped(events) + t.queued() + t.dropped == t.chunks_made()
            &&& 0 <= t.queued() <= cfg.max_output_chunks
            &&& 0 <= t.dropped
        }),
    decreases events.len(),
{
    let s = State::initial(cfg);
    every_session_is_sound(cfg, events);
    validity::lemma_initial(cfg);
    every_run_keeps_a_session_sound(s, events);
    reveal(State::leads_to);
    if events.len() > 0 {
        let before = events.drop_last();
        chunks_are_conserved(cfg, before);
        every_run_keeps_a_session_sound(s, before);
        only_fetching_takes_a_chunk_out(s.after_all(before), events.last());
    }
}

/// Lack of evidence never ends a session: the timeout fails it only behind two mismatches.
pub proof fn a_timeout_needs_two_mismatches(s: State)
    requires
        s.phase is Aligning,
        s.timed().phase is Failed,
    ensures
        s.mismatches >= 2,
        s.active_unlocked > s.cfg.align_timeout_frames,
        s.timed().reason == reasons::unverifiable(
            s.active_unlocked as nat,
            match s.last_reject {
                Some(r) => r,
                None => reasons::no_candidate(),
            },
        ),
{
}

/// A lock outlives windows of evidence that do not reject, and rejecting ones that are too few in a
/// row: then only frames that wait too long can end the session.
pub proof fn a_lock_is_lost_only_by_rejections_in_a_row(s: State, summary: SummaryView)
    requires
        s.valid(),
        s.asking is MonitorSummary,
        s.summarized(summary).phase is Failed,
    ensures
        ({
            ||| s.buffered() > s.cfg.max_pending_frames
            ||| {
                &&& s.monitor_fresh + 1 >= s.cfg.monitor_window
                &&& s.monitor.verdict(summary, s.cfg.spec_limits()) is Reject
                &&& s.monitor_rejects + 1 >= s.cfg.monitor_consecutive
                &&& s.summarized(summary).reason == reasons::lost_lock(s.offset->0, summary.text)
            }
        }),
{
    reveal(State::monitor_judged);
    reveal(State::watched);
    let t = s.with_estimates(s.monitor, summary).unasked();
    lemma_watch_keeps(State { monitor_fresh: s.monitor_fresh + 1, ..t });
    lemma_watch_keeps(
        State {
            monitor: StereoView::empty(s.monitor.cap),
            monitor_fresh: 0,
            monitor_rejects: if s.monitor.verdict(summary, s.cfg.spec_limits()) is Reject {
                s.monitor_rejects + 1
            } else {
                0
            },
            ..t
        },
    );
}

/// Acceptance means: some channel has enough evidence, and in every channel that has, the whole
/// intervals of gain and delay lie inside their tolerances.
pub proof fn acceptance_needs_every_channel(w: StereoView, summary: SummaryView, l: Limits)
    requires
        w.verdict(summary, l) is Accept,
    ensures
        w.gain_left.len() >= l.min_sub_blocks || w.gain_right.len() >= l.min_sub_blocks,
        w.gain_left.len() >= l.min_sub_blocks ==> {
            &&& summary.gain_left.upper.at_most(l.gain_tolerance)
            &&& summary.delay_left.upper.at_most(l.delay_tolerance)
        },
        w.gain_right.len() >= l.min_sub_blocks ==> {
            &&& summary.gain_right.upper.at_most(l.gain_tolerance)
            &&& summary.delay_right.upper.at_most(l.delay_tolerance)
        },
{
}

/// Frames written as samples, left and right in turn, read back as the same frames.
pub proof fn interleaving_is_undone(frames: Seq<Frame>)
    ensures
        deinterleaved(interleaved(frames)) == frames,
        interleaved(frames).len() == 2 * frames.len(),
{
    assert(deinterleaved(interleaved(frames)) =~= frames);
}

} // verus!
