//! What a running session puts out and watches, and what comes out where no lock holds.

use crate::ieee::{Frame, Single};
use crate::laws;
use crate::locking::{energetic, limits_of, window_width};
use crate::packet::{Leg, OutFrame, PacketInfo, CHUNK_FRAMES};
use crate::reasons;
use crate::ring::a_packet_is_taken_where_every_sample_is_finite;
use crate::state::{AskView, State};
use crate::stats::{Projection, StereoView, SummaryView};
use crate::timeline::{lemma_advance_steady, lemma_put_out_steady, lemma_watched_steady, steady};
use crate::validity;
use vstd::prelude::*;

verus! {

pub proof fn lemma_monitor_judged_steady(s: State, summary: SummaryView)
    requires
        s.valid(),
        s.asking is MonitorSummary,
    ensures
        ({
            let l = s.with_estimates(s.monitor, summary);
            let t = s.monitor_judged(summary);
            &&& t.gain == l.gain
            &&& t.delay == l.delay
        }),
{
    reveal(State::monitor_judged);
    let t = s.with_estimates(s.monitor, summary).unasked();
    if s.monitor_fresh + 1 < s.cfg.monitor_window {
        lemma_watched_steady(State { monitor_fresh: s.monitor_fresh + 1, ..t });
    } else {
        let rejects = if s.monitor.verdict(summary, s.cfg.spec_limits()) is Reject {
            s.monitor_rejects + 1
        } else {
            0
        };
        let u = State {
            monitor: StereoView::empty(s.monitor.cap),
            monitor_fresh: 0,
            monitor_rejects: rejects,
            ..t
        };
        lemma_watched_steady(u);
    }
}

/// The state `t` has put out what a running session can behind `from` output frames: up to the end of
/// the endpoint or of its partner in the reference, whichever comes first, each frame minus the
/// reference frame `offset` places further on.
pub open spec fn subtracts_from(t: State, from: int, offset: int) -> bool {
    &&& t.emitted.len() >= from
    &&& t.emitted.len() <= t.ep.log.len() || t.emitted.len() == from
    &&& t.emitted.len() + offset <= t.rf.log.len() || t.emitted.len() == from
    &&& t.emitted.len() >= t.ep.log.len() || t.emitted.len() + offset >= t.rf.log.len()
    &&& forall|k: int|
        from <= k < t.emitted.len() ==> #[trigger] t.emitted[k] == (OutFrame::Difference {
            endpoint: t.ep.log[k],
            reference: t.rf.log[k + offset],
        })
}

proof fn lemma_watch_idles_not(s: State)
    requires
        s.asking is Nothing,
        s.cfg.sub_block_frames > 0,
    ensures
        ({
            let t = s.watch();
            let len = s.cfg.sub_block_frames as int;
            let o = s.offset->0;
            &&& t.asking is Nothing ==> {
                ||| t.monitor_next + len > t.emitted.len()
                ||| t.monitor_next + len > t.ep.log.len()
                ||| t.monitor_next + o + len + 1 > t.rf.log.len()
            }
            &&& !(t.asking is Nothing) ==> t.asking is MonitorFit
        }),
    decreases s.emitted.len() - s.monitor_next,
{
    let len = s.cfg.sub_block_frames;
    if s.monitor_next + len <= s.emitted.len() {
        match s.ready(s.monitor_next, s.offset->0) {
            Some(false) => {
                lemma_watch_idles_not(State { monitor_next: s.monitor_next + len, ..s });
            },
            _ => {},
        }
    }
}

/// The monitor asks for its next sub-block as soon as that was put out and the reference reaches one
/// frame beyond it; in `t` it has nothing left to ask for, or asks.
pub open spec fn watches(t: State) -> bool {
    let len = t.cfg.sub_block_frames as int;
    &&& t.asking is Nothing || t.asking is MonitorFit
    &&& t.asking is Nothing && len > 0 ==> {
        ||| t.monitor_next + len > t.emitted.len()
        ||| t.monitor_next + t.offset->0 + len + 1 > t.rf.log.len()
    }
}

/// Where the monitor stands in `t` that stood at `next` before: still there while the sub-block was not
/// put out or its reference is not there; there, and asking, where it can be measured; and at least one
/// sub-block further on where the histories have lost it.
pub open spec fn watches_from(t: State, next: int) -> bool {
    let len = t.cfg.sub_block_frames as int;
    let o = t.offset->0;
    let there = next + len <= t.emitted.len() && next + len <= t.ep.log.len() && next + o + len + 1
        <= t.rf.log.len();
    let held = next >= t.ep.start && next + o - 1 >= t.rf.start;
    &&& !there ==> t.monitor_next == next && t.asking is Nothing
    &&& there && held ==> t.monitor_next == next && t.asking is MonitorFit
    &&& there && !held && len > 0 ==> t.monitor_next >= next + len
}

proof fn lemma_watches_from(s: State)
    requires
        s.asking is Nothing,
    ensures
        watches_from(s.watch(), s.monitor_next),
{
    laws::lemma_watch_keeps(s);
    let len = s.cfg.sub_block_frames;
    if s.monitor_next + len <= s.emitted.len() && len > 0 {
        if s.ready(s.monitor_next, s.offset->0) == Some(false) {
            lemma_watch_moves_on(State { monitor_next: s.monitor_next + len, ..s });
        }
    }
}

proof fn lemma_running_out(s: State)
    requires
        s.phase is Running,
        s.asking is Nothing,
        s.emitted.len() <= s.ep.log.len(),
    ensures
        ({
            let t = s.put_out();
            let o = s.offset->0;
            if s.emitted.len() < s.ep.log.len() && s.emitted.len() + o < s.rf.start {
                t.phase is Failed && t.emitted == s.emitted && t.reason == reasons::overrun(
                    s.emitted.len() + o,
                    s.rf.start as nat,
                )
            } else {
                &&& subtracts_from(t, s.emitted.len() as int, o)
                &&& t.phase is Running || t.phase is Failed
                &&& t.phase is Failed ==> t.ep.log.len() - t.emitted.len() > s.cfg.max_pending_frames
                    && t.reason == reasons::overflow(
                    (t.ep.log.len() - t.emitted.len()) as nat,
                    s.cfg.max_pending_frames as nat,
                )
                &&& t.phase is Running ==> watches(t) && watches_from(t, s.monitor_next)
                &&& t.phase is Running && t.asking is Nothing ==> t.ep.log.len() - t.emitted.len()
                    <= s.cfg.max_pending_frames
                &&& t.phase is Running ==> t.reason == s.reason
            }
        }),
        steady(s, s.put_out()),
{
    lemma_put_out_steady(s);
    reveal(State::put_out);
    reveal(State::emit_running);
    reveal(State::watched);
    let u = s.emit_running();
    if !(u.phase is Failed) {
        laws::lemma_watch_keeps(u);
        lemma_watches_from(u);
        if s.cfg.sub_block_frames > 0 {
            lemma_watch_idles_not(u);
        }
        let t = s.put_out();
        let from = s.emitted.len() as int;
        assert forall|k: int| from <= k < t.emitted.len() implies #[trigger] t.emitted[k] == (OutFrame::Difference {
            endpoint: t.ep.log[k],
            reference: t.rf.log[k + s.offset->0],
        }) by {
            assert(t.emitted[k] == s.difference(k, s.offset->0));
        }
    }
}

/// While a session runs, a good packet that keeps the generation makes it put out every endpoint frame
/// whose partner in the reference is there, in order: the endpoint frame minus the reference frame at
/// the verified offset. Where the history has lost the partner of the first that waits the session
/// ends; and it ends where more frames are left waiting than is allowed, and for no other reason.
pub proof fn a_running_session_subtracts_all_it_can(
    s: State,
    leg: Leg,
    info: PacketInfo,
    samples: Option<Seq<Single>>,
    offset: int,
)
    requires
        s.valid(),
        s.asking is Nothing,
        s.phase is Running,
        s.offset == Some(offset),
        info.frames > 0,
        info.silent || (samples matches Some(d) && d.len() == 2 * info.frames && forall|j: int|
            0 <= j < d.len() ==> (#[trigger] d[j]).bits / 0x80_0000 % 0x100 != 0xff),
        s.push(leg, info, samples).generation == s.generation,
    ensures
        ({
            let t = s.push(leg, info, samples);
            let from = s.emitted.len() as int;
            if from < t.ep.log.len() && from + offset < t.rf.start {
                t.phase is Failed && t.emitted == s.emitted && t.reason == reasons::overrun(
                    from + offset,
                    t.rf.start as nat,
                )
            } else {
                &&& t.emitted.take(from) == s.emitted
                &&& t.emitted.len() == from || t.emitted.len() <= t.ep.log.len() && t.emitted.len() + offset
                    <= t.rf.log.len()
                &&& t.emitted.len() >= t.ep.log.len() || t.emitted.len() + offset >= t.rf.log.len()
                &&& forall|k: int|
                    from <= k < t.emitted.len() ==> #[trigger] t.emitted[k] == (OutFrame::Difference {
                        endpoint: t.ep.log[k],
                        reference: t.rf.log[k + offset],
                    })
                &&& t.phase is Failed ==> t.ep.log.len() - t.emitted.len() > s.cfg.max_pending_frames
                    && t.reason == reasons::overflow(
                    (t.ep.log.len() - t.emitted.len()) as nat,
                    s.cfg.max_pending_frames as nat,
                )
                &&& t.phase is Failed || t.phase is Running && t.offset == Some(offset)
                &&& t.phase is Running ==> watches(t) && watches_from(t, s.monitor_next)
                &&& t.phase is Running && t.asking is Nothing ==> t.ep.log.len() - t.emitted.len()
                    <= s.cfg.max_pending_frames
            }
        }),
{
    if !info.silent {
        a_packet_is_taken_where_every_sample_is_finite(samples->0, info.frames as nat);
    }
    validity::lemma_checked(s, leg, info);
    validity::lemma_checked_breaks(s, leg, info);
    let u = s.checked(leg, info).taken_in(leg, info, State::payload(info, samples));
    lemma_advance_steady(u);
    reveal(State::checked);
    reveal(State::reset);
    reveal(State::delivered);
    reveal(State::advance);
    let v = u.with_coarse();
    assert(s.push(leg, info, samples) == v.put_out());
    lemma_running_out(v);
    assert(s.push(leg, info, samples).emitted.take(s.emitted.len() as int) =~= s.emitted);
}

/// A lock puts out at once what waited: from the first frame that waits on, at the offset of the
/// candidate. The monitor begins with that frame.
pub proof fn a_lock_subtracts_what_waited(s: State, summary: SummaryView, offset: int)
    requires
        s.valid(),
        s.asking is VerifySummary,
        s.candidate is Some && s.candidate->0.offset == offset,
        s.candidate->0.ev.verdict(summary, limits_of(s)) is Accept,
        s.summarized(summary).phase is Running,
    ensures
        ({
            let t = s.summarized(summary);
            let from = s.emitted.len() as int;
            &&& t.emitted.take(from) == s.emitted
            &&& t.emitted.len() == from || t.emitted.len() <= t.ep.log.len() && t.emitted.len() + offset
                <= t.rf.log.len()
            &&& t.emitted.len() >= t.ep.log.len() || t.emitted.len() + offset >= t.rf.log.len()
            &&& forall|k: int|
                from <= k < t.emitted.len() ==> #[trigger] t.emitted[k] == (OutFrame::Difference {
                    endpoint: t.ep.log[k],
                    reference: t.rf.log[k + offset],
                })
            &&& watches(t)
            &&& watches_from(t, from)
            &&& t.reason == "locked at offset "@ + crate::text::integer(offset)
                + " frames (content vs packet timing "@ + reasons::shown_625ths(625 * offset - s.coarse->0)
                + "); "@ + summary.text
        }),
{
    reveal(State::judged);
    let l = s.with_estimates(s.candidate->0.ev, summary).locked(summary.text);
    reveal(State::put_out);
    lemma_running_out(l);
    assert(s.summarized(summary).emitted.take(s.emitted.len() as int) =~= s.emitted);
}

proof fn lemma_watch_moves_on(s: State)
    requires
        s.asking is Nothing,
    ensures
        s.watch().monitor_next >= s.monitor_next,
    decreases s.emitted.len() - s.monitor_next,
{
    let len = s.cfg.sub_block_frames;
    if s.monitor_next + len <= s.emitted.len() {
        match s.ready(s.monitor_next, s.offset->0) {
            Some(false) => if len > 0 {
                lemma_watch_moves_on(State { monitor_next: s.monitor_next + len, ..s });
            },
            _ => {},
        }
    }
}

/// Whatever the monitor asks to be measured lies inside what was put out and inside both histories,
/// with one reference frame more on either side.
pub proof fn the_monitor_measures_what_was_put_out(s: State)
    requires
        s.valid(),
        s.asking is MonitorFit,
    ensures
        ({
            let len = s.cfg.sub_block_frames as int;
            let o = s.offset->0;
            &&& s.phase is Running
            &&& s.monitor_next + len <= s.emitted.len()
            &&& s.monitor_next >= s.ep.start
            &&& s.monitor_next + o - 1 >= s.rf.start
            &&& s.monitor_next + o + len + 1 <= s.rf.log.len()
        }),
{
}

/// A monitored sub-block that is evidence in either channel goes to the windows, channel by channel,
/// and they are summarized; one that is no evidence leaves them, and the monitor moves on. Nothing is
/// judged yet.
pub proof fn a_monitored_sub_block_is_evidence_or_passed_over(s: State, left: Projection, right: Projection)
    requires
        s.valid(),
        s.asking is MonitorFit,
    ensures
        ({
            let t = s.fitted(left, right);
            &&& t.monitor_rejects == s.monitor_rejects
            &&& t.monitor_fresh == s.monitor_fresh
            &&& t.emitted == s.emitted
            &&& t.offset == s.offset && t.locks == s.locks
            &&& t.monitor_next >= s.monitor_next + s.cfg.sub_block_frames
            &&& energetic(left) || energetic(right) ==> {
                &&& t.asking is MonitorSummary
                &&& t.phase is Running
                &&& t.monitor_next == s.monitor_next + s.cfg.sub_block_frames
            }
            &&& !energetic(left) ==> t.monitor.gain_left == s.monitor.gain_left && t.monitor.delay_left
                == s.monitor.delay_left
            &&& !energetic(right) ==> t.monitor.gain_right == s.monitor.gain_right && t.monitor.delay_right
                == s.monitor.delay_right
            &&& energetic(left) && left.gain.finite() ==> t.monitor.gain_left.len() > 0
                && t.monitor.gain_left.last() == left.gain
            &&& energetic(right) && right.gain.finite() ==> t.monitor.gain_right.len() > 0
                && t.monitor.gain_right.last() == right.gain
            &&& energetic(left) && left.slope.above(left.min_slope) && left.delay.finite()
                ==> t.monitor.delay_left.len() > 0 && t.monitor.delay_left.last() == left.delay
            &&& energetic(right) && right.slope.above(right.min_slope) && right.delay.finite()
                ==> t.monitor.delay_right.len() > 0 && t.monitor.delay_right.last() == right.delay
            &&& t.phase is Failed ==> t.ep.log.len() - t.emitted.len() > s.cfg.max_pending_frames
            &&& !energetic(left) && !energetic(right) && t.phase is Running ==> watches_from(
                t,
                s.monitor_next + s.cfg.sub_block_frames,
            )
        }),
{
    reveal(State::monitored);
    reveal(State::watched);
    let u = State {
        monitor_next: s.monitor_next + s.cfg.sub_block_frames,
        monitor: s.monitor.with(left.estimates(), right.estimates()),
        asking: AskView::Nothing,
        ..s
    };
    laws::lemma_watch_keeps(u);
    lemma_watch_moves_on(u);
    lemma_watches_from(u);
}

/// The verdict on one full window of the monitor. A window is full with as many sub-blocks of evidence
/// as the limit says, and a new one begins empty. One that rejects adds to the count of rejections in a
/// row, and the session ends as lost with the last that is allowed; any other sets the count to zero.
/// A window that is not full decides nothing.
pub proof fn a_lock_is_lost_by_rejecting_windows_in_a_row(s: State, summary: SummaryView)
    requires
        s.valid(),
        s.asking is MonitorSummary,
    ensures
        ({
            let t = s.summarized(summary);
            let full = s.monitor_fresh + 1 >= s.cfg.monitor_window;
            let rejects = s.monitor.verdict(summary, limits_of(s)) is Reject;
            let lost = full && rejects && s.monitor_rejects + 1 >= s.cfg.monitor_consecutive;
            &&& t.emitted == s.emitted
            &&& t.offset == s.offset && t.locks == s.locks && t.generation == s.generation
            &&& !full ==> t.monitor_fresh == s.monitor_fresh + 1 && t.monitor == s.monitor && t.monitor_rejects
                == s.monitor_rejects
            &&& full ==> {
                &&& t.monitor_fresh == 0
                &&& t.monitor.cap == s.monitor.cap
                &&& t.monitor.gain_left.len() == 0 && t.monitor.gain_right.len() == 0
                &&& t.monitor.delay_left.len() == 0 && t.monitor.delay_right.len() == 0
                &&& t.monitor_rejects == if rejects { s.monitor_rejects + 1 } else { 0 }
            }
            &&& lost ==> t.phase is Failed && t.reason == "lost lock at offset "@ + crate::text::integer(
                s.offset->0,
            ) + ": the endpoint no longer carries the reference at unity gain ("@ + summary.text + ")"@
            &&& !lost && t.phase is Failed ==> t.ep.log.len() - t.emitted.len() > s.cfg.max_pending_frames
            &&& t.phase is Running ==> watches_from(t, s.monitor_next)
        }),
{
    reveal(State::monitor_judged);
    reveal(State::watched);
    let t = s.with_estimates(s.monitor, summary).unasked();
    let on = State { monitor_fresh: s.monitor_fresh + 1, ..t };
    let anew = State {
        monitor: StereoView::empty(s.monitor.cap),
        monitor_fresh: 0,
        monitor_rejects: if s.monitor.verdict(summary, s.cfg.spec_limits()) is Reject {
            s.monitor_rejects + 1
        } else {
            0
        },
        ..t
    };
    laws::lemma_watch_keeps(on);
    laws::lemma_watch_keeps(anew);
    lemma_watches_from(on);
    lemma_watches_from(anew);
}

/// Any one window that rejects, of the gains or the delays, of the left or the right channel, makes a
/// full monitor window count against the lock.
pub proof fn one_bad_channel_counts_against_the_lock(s: State, summary: SummaryView)
    requires
        s.valid(),
        s.asking is MonitorSummary,
        s.monitor_fresh + 1 >= s.cfg.monitor_window,
        ({
            let m = if s.cfg.min_sub_blocks > 2 { s.cfg.min_sub_blocks as nat } else { 2 };
            let g = s.cfg.gain_tolerance;
            let d = s.cfg.delay_tolerance;
            ||| s.monitor.gain_left.len() >= m && !summary.gain_left.upper.at_most(g)
                && summary.gain_left.lower.above(g)
            ||| s.monitor.gain_right.len() >= m && !summary.gain_right.upper.at_most(g)
                && summary.gain_right.lower.above(g)
            ||| s.monitor.delay_left.len() >= m && !summary.delay_left.upper.at_most(d)
                && summary.delay_left.lower.above(d)
            ||| s.monitor.delay_right.len() >= m && !summary.delay_right.upper.at_most(d)
                && summary.delay_right.lower.above(d)
        }),
    ensures
        s.summarized(summary).monitor_rejects == s.monitor_rejects + 1,
        s.monitor_rejects + 1 >= s.cfg.monitor_consecutive ==> s.summarized(summary).phase is Failed,
{
    crate::stats::any_window_of_any_channel_rejects(s.monitor, summary, limits_of(s));
    a_lock_is_lost_by_rejecting_windows_in_a_row(s, summary);
}

/// Any one window that rejects, of the gains or the delays, of the left or the right channel, drops a
/// candidate as a mismatch.
pub proof fn one_bad_channel_drops_a_candidate(s: State, summary: SummaryView)
    requires
        s.valid(),
        s.asking is VerifySummary,
        ({
            let m = if s.cfg.min_sub_blocks > 2 { s.cfg.min_sub_blocks as nat } else { 2 };
            let g = s.cfg.gain_tolerance;
            let d = s.cfg.delay_tolerance;
            let w = s.candidate->0.ev;
            ||| w.gain_left.len() >= m && !summary.gain_left.upper.at_most(g) && summary.gain_left.lower.above(g)
            ||| w.gain_right.len() >= m && !summary.gain_right.upper.at_most(g)
                && summary.gain_right.lower.above(g)
            ||| w.delay_left.len() >= m && !summary.delay_left.upper.at_most(d)
                && summary.delay_left.lower.above(d)
            ||| w.delay_right.len() >= m && !summary.delay_right.upper.at_most(d)
                && summary.delay_right.lower.above(d)
        }),
    ensures
        s.summarized(summary).candidate is None,
        s.summarized(summary).locks == s.locks,
        s.summarized(summary).rejected == s.rejected + 1,
        s.summarized(summary).mismatches == s.mismatches + 1,
{
    crate::stats::any_window_of_any_channel_rejects(s.candidate->0.ev, summary, limits_of(s));
    crate::locking::a_candidate_that_is_not_accepted_is_dropped_or_kept(s, summary, s.candidate->0);
}

/// The event closes a window of the monitor, which rejects.
pub open spec fn closes_against(s: State, e: laws::Event) -> bool {
    e matches laws::Event::Summarized { summary } && s.asking is MonitorSummary && s.monitor_fresh + 1
        >= s.cfg.monitor_window && s.monitor.verdict(summary, limits_of(s)) is Reject
}

/// The event closes a window of the monitor, which does not reject.
pub open spec fn closes_in_favour(s: State, e: laws::Event) -> bool {
    e matches laws::Event::Summarized { summary } && s.asking is MonitorSummary && s.monitor_fresh + 1
        >= s.cfg.monitor_window && !(s.monitor.verdict(summary, limits_of(s)) is Reject)
}

/// How many windows of the monitor a run of events closed against the lock.
pub open spec fn closed_against(s: State, events: Seq<laws::Event>) -> nat
    decreases events.len(),
{
    if events.len() == 0 {
        0
    } else {
        let before = events.drop_last();
        closed_against(s, before) + if closes_against(s.after_all(before), events.last()) {
            1nat
        } else {
            0nat
        }
    }
}

/// A run in which the session runs on in one generation and no window is closed in favour of the lock.
pub open spec fn only_rejects(s: State, events: Seq<laws::Event>) -> bool
    decreases events.len(),
{
    events.len() == 0 || {
        let before = events.drop_last();
        let t = s.after_all(before);
        &&& only_rejects(s, before)
        &&& t.phase is Running
        &&& !closes_in_favour(t, events.last())
        &&& t.after(events.last()).generation == s.generation
    }
}

/// What any event but a closed window leaves of the count of rejections, while the session runs on in
/// its generation.
pub proof fn rejections_are_counted_by_windows_alone(s: State, e: laws::Event)
    requires
        s.valid(),
        s.patient(),
        s.accepts(e),
        s.phase is Running,
        s.after(e).generation == s.generation,
        !closes_in_favour(s, e),
    ensures
        s.after(e).monitor_rejects == s.monitor_rejects + if closes_against(s, e) { 1int } else { 0 },
        s.after(e).phase is Running || s.after(e).phase is Failed,
        closes_against(s, e) && s.monitor_rejects + 1 >= s.cfg.monitor_consecutive ==> s.after(e).phase is Failed,
{
    match e {
        laws::Event::Packet { leg, info, samples } => {
            if info.frames > 0 && State::well_sized(info, samples) {
                validity::lemma_checked(s, leg, info);
                validity::lemma_checked_breaks(s, leg, info);
                let data = State::payload(info, samples);
                let c = s.checked(leg, info);
                reveal(State::delivered);
                reveal(State::checked);
                reveal(State::reset);
                if crate::ring::acceptable(data, info.frames as nat) {
                    lemma_advance_steady(c.taken_in(leg, info, data));
                }
            }
        },
        laws::Event::Fitted { left, right } => {
            if s.asking is MonitorFit {
                a_monitored_sub_block_is_evidence_or_passed_over(s, left, right);
                reveal(State::monitored);
                reveal(State::watched);
                laws::lemma_watch_keeps(
                    State {
                        monitor_next: s.monitor_next + s.cfg.sub_block_frames,
                        monitor: s.monitor.with(left.estimates(), right.estimates()),
                        asking: AskView::Nothing,
                        ..s
                    },
                );
            }
        },
        laws::Event::Summarized { summary } => {
            if s.asking is MonitorSummary {
                a_lock_is_lost_by_rejecting_windows_in_a_row(s, summary);
                reveal(State::monitor_judged);
                reveal(State::watched);
                let t = s.with_estimates(s.monitor, summary).unasked();
                laws::lemma_watch_keeps(State { monitor_fresh: s.monitor_fresh + 1, ..t });
                laws::lemma_watch_keeps(
                    State {
                        monitor: StereoView::empty(s.monitor.cap),
                        monitor_fresh: 0,
                        monitor_rejects: if s.monitor.verdict(summary, s.cfg.spec_limits()) is Reject {
                            s.monitor_rejects + 1
                        } else {
                            0
                        },
                        ..t
                    },
                );
            }
        },
        _ => {},
    }
}

/// However the events come: a session whose monitor closes as many windows in a row against the lock
/// as the limit says, in one generation, has failed by then.
pub proof fn a_run_of_rejecting_windows_ends_the_session(s: State, events: Seq<laws::Event>)
    requires
        s.valid(),
        s.patient(),
        s.phase is Running,
        s.accepts_all(events),
        only_rejects(s, events),
    ensures
        s.after_all(events).monitor_rejects == s.monitor_rejects + closed_against(s, events),
        s.after_all(events).cfg == s.cfg,
        s.after_all(events).phase is Running || s.after_all(events).phase is Failed,
        closed_against(s, events) > 0 && closed_against(s, events) >= s.cfg.monitor_consecutive
            ==> s.after_all(events).phase is Failed,
    decreases events.len(),
{
    if events.len() > 0 {
        let before = events.drop_last();
        let t = s.after_all(before);
        a_run_of_rejecting_windows_ends_the_session(s, before);
        laws::every_run_keeps_a_session_sound(s, before);
        laws::every_event_keeps_a_session_sound(t, events.last());
        reveal(State::leads_to);
        lemma_generation_between(s, before);
        rejections_are_counted_by_windows_alone(t, events.last());
    }
}

proof fn lemma_generation_between(s: State, events: Seq<laws::Event>)
    requires
        only_rejects(s, events),
    ensures
        s.after_all(events).generation == s.generation,
{
    reveal_with_fuel(only_rejects, 2);
}

/// A frame of two zeros, of either sign.
pub open spec fn all_zero(f: Frame) -> bool {
    (f.left.bits == 0 || f.left.bits == 0x8000_0000) && (f.right.bits == 0 || f.right.bits == 0x8000_0000)
}

/// A bias was proven by the clocks of this generation.
pub open spec fn biased(t: State) -> bool {
    match (t.proven, t.ep.anchor, t.rf.anchor) {
        (Some(p), Some(a), Some(b)) => p.kinds.endpoint == a.kind && p.kinds.reference == b.kind,
        _ => false,
    }
}

/// The search is centred at `center`, and the window around a mapped frame is `w` wide on either side.
pub open spec fn mapped(t: State, center: int, w: int) -> bool {
    &&& t.coarse is Some && t.proven is Some
    &&& -312 <= 625 * center - (t.coarse->0 + t.proven->0.bias) <= 312
    &&& window_width(t, t.ep.anchor->0.kind, t.rf.anchor->0.kind, w)
}

/// The reference was delivered, is still there and is zero from `w` frames before the partner of
/// endpoint frame `k` to `w` frames behind it.
pub open spec fn silent_around(t: State, k: int, center: int, w: int) -> bool {
    &&& t.rf.start <= k + center - w
    &&& k + center + w + 1 <= t.rf.log.len()
    &&& forall|j: int| k + center - w <= j <= k + center + w ==> all_zero(#[trigger] t.rf.log[j])
}

proof fn lemma_silent_around(t: State, k: int, center: int, w: int)
    requires
        w >= 0,
    ensures
        silent_around(t, k, center, w) <==> t.quiet_around(k, center, w),
{
    assert forall|j: int| k + center - w <= j <= k + center + w implies all_zero(#[trigger] t.rf.log[j])
        == t.rf.log[j].silent() by {
        crate::ieee::a_silent_frame_has_two_zeros(t.rf.log[j]);
    }
}

proof fn lemma_mapped(t: State, center: int, w: int)
    requires
        biased(t),
        mapped(t, center, w),
    ensures
        t.quiet_window() == Some((center, w)),
        w >= 0,
{
    crate::locking::lemma_window(t, t.ep.anchor->0.kind, t.rf.anchor->0.kind, w);
}

/// Whatever event puts out an endpoint frame as it was captured: no lock holds, an earlier lock has
/// proven the bias by the clocks of this generation, and the reference was delivered and is zero over
/// the whole window around the partner of the frame, which lies where timing and the bias put it.
pub proof fn only_proven_silence_lets_a_frame_pass(s: State, e: laws::Event, k: int, center: int, w: int)
    requires
        s.valid(),
        s.patient(),
        s.accepts(e),
        s.emitted.len() <= k < s.after(e).emitted.len(),
        s.after(e).emitted[k] is Passed,
        mapped(s.after(e), center, w),
    ensures
        ({
            let t = s.after(e);
            &&& !(t.phase is Running)
            &&& biased(t)
            &&& t.emitted[k]->Passed_endpoint == t.ep.log[k]
            &&& t.rf.start <= k + center - w && k + center + w + 1 <= t.rf.log.len()
            &&& forall|j: int|
                k + center - w <= j <= k + center + w ==> (#[trigger] t.rf.log[j].left.bits == 0
                    || t.rf.log[j].left.bits == 0x8000_0000) && (t.rf.log[j].right.bits == 0
                    || t.rf.log[j].right.bits == 0x8000_0000)
        }),
{
    laws::new_output_is_explained(s, e);
    let t = s.after(e);
    assert(t.explained(k));
    assert(biased(t));
    lemma_mapped(t, center, w);
    lemma_silent_around(t, k, center, w);
    assert forall|j: int| k + center - w <= j <= k + center + w implies (#[trigger] t.rf.log[j].left.bits == 0
        || t.rf.log[j].left.bits == 0x8000_0000) && (t.rf.log[j].right.bits == 0 || t.rf.log[j].right.bits
        == 0x8000_0000) by {
        assert(all_zero(t.rf.log[j]));
    }
}

/// Whatever event puts out a difference: it is the endpoint frame of that place minus the reference
/// frame at the verified offset, and the session is not searching.
pub proof fn only_a_verified_offset_subtracts(s: State, e: laws::Event, k: int)
    requires
        s.valid(),
        s.patient(),
        s.accepts(e),
        s.emitted.len() <= k < s.after(e).emitted.len(),
        s.after(e).emitted[k] is Difference,
    ensures
        ({
            let t = s.after(e);
            &&& !(t.phase is Aligning)
            &&& t.offset is Some
            &&& t.emitted[k]->Difference_endpoint == t.ep.log[k]
            &&& t.emitted[k]->reference == t.rf.log[k + t.offset->0]
        }),
{
    laws::new_output_is_explained(s, e);
    assert(s.after(e).explained(k));
}

/// What `t` has put out behind `from` output frames while it searches. Without a bias of its clocks: all
/// there is, muted. With one: up to where the reference covers the whole window, each frame passed
/// where the reference is silent all around its partner, and muted elsewhere.
pub open spec fn mutes_or_passes_from(t: State, from: int) -> bool {
    &&& t.emitted.len() >= from
    &&& !biased(t) || t.coarse is None ==> {
        &&& t.emitted.len() == t.ep.log.len()
        &&& forall|k: int| from <= k < t.emitted.len() ==> (#[trigger] t.emitted[k]) is Muted
    }
    &&& forall|center: int, w: int| #[trigger]
        mapped(t, center, w) && biased(t) ==> {
            &&& t.emitted.len() == from || t.emitted.len() <= t.ep.log.len() && t.emitted.len() + center + w
                <= t.rf.log.len()
            &&& t.emitted.len() >= t.ep.log.len() || t.emitted.len() + center + w >= t.rf.log.len()
            &&& forall|k: int|
                from <= k < t.emitted.len() ==> #[trigger] t.emitted[k] == if silent_around(t, k, center, w) {
                    OutFrame::Passed { endpoint: t.ep.log[k] }
                } else {
                    OutFrame::Muted
                }
        }
}

proof fn lemma_searching_out(s: State)
    requires
        s.phase is Aligning,
        s.asking is Nothing,
        s.emitted.len() <= s.ep.log.len(),
        s.put_out().phase is Aligning,
    ensures
        mutes_or_passes_from(s.put_out(), s.emitted.len() as int),
{
    reveal(State::put_out);
    reveal(State::emit_aligning);
    let t = s.put_out();
    let from = s.emitted.len() as int;
    let frames = s.unlocked_frames(from, s.decidable());
    assert(t.emitted == s.emitted + frames);
    assert(t.quiet_window() == s.quiet_window());
    assert forall|k: int| from <= k < t.emitted.len() implies #[trigger] t.emitted[k] == s.unlocked_frame(k) by {
        assert(t.emitted[k] == frames[k - from]);
    }
    assert forall|center: int, w: int| #[trigger] mapped(t, center, w) && biased(t) implies {
        &&& t.emitted.len() == from || t.emitted.len() <= t.ep.log.len() && t.emitted.len() + center + w
            <= t.rf.log.len()
        &&& t.emitted.len() >= t.ep.log.len() || t.emitted.len() + center + w >= t.rf.log.len()
        &&& forall|k: int|
            from <= k < t.emitted.len() ==> #[trigger] t.emitted[k] == if silent_around(t, k, center, w) {
                OutFrame::Passed { endpoint: t.ep.log[k] }
            } else {
                OutFrame::Muted
            }
    } by {
        lemma_mapped(t, center, w);
        assert forall|k: int| from <= k < t.emitted.len() implies #[trigger] t.emitted[k] == if silent_around(
            t,
            k,
            center,
            w,
        ) {
            OutFrame::Passed { endpoint: t.ep.log[k] }
        } else {
            OutFrame::Muted
        } by {
            assert(t.emitted[k] == s.unlocked_frame(k));
            lemma_silent_around(t, k, center, w);
            assert(s.quiet_around(k, center, w) == t.quiet_around(k, center, w));
        }
    }
}

proof fn lemma_advance_out(s: State)
    requires
        s.phase is Aligning,
        s.asking is Nothing,
        s.emitted.len() <= s.ep.log.len(),
        s.advance().phase is Aligning,
        s.advance().asking is Nothing,
    ensures
        mutes_or_passes_from(s.advance(), s.emitted.len() as int),
{
    reveal(State::advance);
    reveal(State::calibrate);
    reveal(State::seek);
    reveal(State::verify);
    let v = s.with_coarse();
    if v.candidate is Some || v.in_flight is Some {
        match v.candidate {
            None => lemma_searching_out(v),
            Some(c) => match v.ready(c.next, c.offset) {
                None => lemma_searching_out(v),
                Some(false) => {
                    let d = v.dropped_candidate(reasons::history_lost(), false).timed();
                    lemma_put_out_steady(d);
                    lemma_searching_out(d);
                },
                Some(true) => {},
            },
        }
    } else {
        match v.center() {
            None => lemma_searching_out(State { reason: reasons::waiting_for_packets(), ..v }),
            Some(center) => lemma_searching_out(v),
        }
    }
}

/// A good packet to a session that searches makes it put out all that can be decided, unless the host
/// is asked first: muted where no bias is proven by the clocks of the generation, and with a bias
/// passed exactly where the reference is proven silent.
pub proof fn a_searching_session_mutes_or_passes_all_it_can(
    s: State,
    leg: Leg,
    info: PacketInfo,
    samples: Option<Seq<Single>>,
)
    requires
        s.valid(),
        s.asking is Nothing,
        !(s.phase is Failed),
        info.frames > 0,
        info.silent || (samples matches Some(d) && d.len() == 2 * info.frames && forall|j: int|
            0 <= j < d.len() ==> (#[trigger] d[j]).bits / 0x80_0000 % 0x100 != 0xff),
        s.push(leg, info, samples).phase is Aligning,
        s.push(leg, info, samples).asking is Nothing,
    ensures
        mutes_or_passes_from(
            s.push(leg, info, samples),
            if s.push(leg, info, samples).generation == s.generation {
                s.emitted.len() as int
            } else {
                s.ep.log.len() as int
            },
        ),
{
    if !info.silent {
        a_packet_is_taken_where_every_sample_is_finite(samples->0, info.frames as nat);
    }
    validity::lemma_checked(s, leg, info);
    validity::lemma_checked_breaks(s, leg, info);
    let u = s.checked(leg, info).taken_in(leg, info, State::payload(info, samples));
    lemma_advance_steady(u);
    reveal(State::delivered);
    lemma_advance_out(u);
}

/// The answer on the energy of the reference lets a session that searches put out all that can be
/// decided, unless the host is asked again.
pub proof fn an_answer_lets_go_of_what_waited(
    s: State,
    left: crate::ieee::Double,
    right: crate::ieee::Double,
    threshold: crate::ieee::Double,
)
    requires
        s.valid(),
        s.asking is Energy,
        s.weighed(left, right, threshold).phase is Aligning,
        s.weighed(left, right, threshold).asking is Nothing,
    ensures
        mutes_or_passes_from(s.weighed(left, right, threshold), s.emitted.len() as int),
{
    reveal(State::seek);
    let start = s.asking->start;
    let center = s.asking->center;
    if threshold.above(left) && threshold.above(right) {
        lemma_searching_out(s.slid(start));
    } else {
        lemma_searching_out(s.posted(start, center));
    }
}

/// Chunk `k` is the 480 output frames from 480 times `k` on, and there are as many chunks as fit into
/// the output.
pub proof fn a_chunk_is_a_stretch_of_the_output(s: State, k: int, i: int)
    requires
        0 <= k < s.emitted.len() as int / 480,
        0 <= i < 480,
    ensures
        s.chunks_made() == s.emitted.len() as int / 480,
        s.queued() == s.emitted.len() as int / 480 - s.taken,
        s.chunk(k).len() == 480,
        s.chunk(k)[i] == s.emitted[480 * k + i],
{
    assert(CHUNK_FRAMES == 480);
}

/// Fetching a chunk takes the oldest that waits, where one does, and changes nothing else.
pub proof fn fetching_takes_the_oldest_chunk(s: State)
    ensures
        s.taken < s.emitted.len() as int / 480 ==> s.chunk_taken() == (State { taken: s.taken + 1, ..s }),
        s.taken >= s.emitted.len() as int / 480 ==> s.chunk_taken() == s,
{
}

/// Frames that are put out make chunks; where more of them wait than may, as many of the oldest leave
/// as are too many, and each is counted.
pub proof fn the_oldest_chunks_leave_where_too_many_wait(s: State, frames: Seq<OutFrame>)
    requires
        s.valid(),
    ensures
        ({
            let t = s.emit(frames);
            let most = s.cfg.max_output_chunks as int;
            &&& t.emitted == s.emitted + frames
            &&& t.emitted.len() as int / 480 - t.taken <= most
            &&& t.dropped - s.dropped == t.taken - s.taken
            &&& t.taken >= s.taken
            &&& t.taken > s.taken ==> t.emitted.len() as int / 480 - t.taken == most
            &&& t == (State { emitted: t.emitted, taken: t.taken, dropped: t.dropped, ..s })
        }),
{
}

/// A failure from outside ends a session that goes on, for the reason that is given: it holds no job, no
/// candidate and no question any more, and what it has taken and put out stays. One that has failed
/// keeps its first reason.
pub proof fn a_failure_keeps_what_was_put_out(s: State, why: Seq<char>)
    ensures
        s.phase is Failed ==> s.failed(why) == s,
        !(s.phase is Failed) ==> {
            let t = s.failed(why);
            &&& t.phase is Failed
            &&& t.reason == why
            &&& t.outbox is None && t.candidate is None && t.asking is Nothing
            &&& t.emitted == s.emitted && t.taken == s.taken && t.dropped == s.dropped
            &&& t.ep == s.ep && t.rf == s.rf
            &&& t.generation == s.generation && t.locks == s.locks && t.rejected == s.rejected
            &&& t.discontinuities == s.discontinuities && t.timeline_gaps == s.timeline_gaps
        },
{
}

/// Fetching the job that waits leaves everything else as it is: its result is still awaited.
pub proof fn fetching_a_job_leaves_the_session(s: State)
    ensures
        s.job_taken().outbox is None,
        s.job_taken() == (State { outbox: None, ..s }),
{
}

/// A new session searches, has taken and put out nothing, has locked and rejected nothing, awaits
/// nothing and asks nothing.
pub proof fn a_new_session_has_done_nothing(cfg: crate::config::Config)
    ensures
        ({
            let s = State::initial(cfg);
            &&& s.cfg == cfg
            &&& s.phase is Aligning
            &&& s.ep.log.len() == 0 && s.rf.log.len() == 0 && s.emitted.len() == 0
            &&& s.ep.anchor is None && s.rf.anchor is None && s.ep.last is None && s.rf.last is None
            &&& s.ep.start == 0 && s.rf.start == 0 && s.ep.gen_start == 0 && s.rf.gen_start == 0
            &&& s.generation == 0 && s.locks == 0 && s.rejected == 0
            &&& s.discontinuities == 0 && s.timeline_gaps == 0
            &&& s.taken == 0 && s.dropped == 0
            &&& s.coarse is None && s.proven is None && s.offset is None && s.candidate is None
            &&& s.outbox is None && s.in_flight is None && s.next_job_id == 1
            &&& s.next_calib == 0 && s.active_unlocked == 0 && s.mismatches == 0 && s.last_reject is None
            &&& s.monitor_next == 0 && s.monitor_fresh == 0 && s.monitor_rejects == 0
            &&& s.monitor.cap == if cfg.monitor_window == 0 { 1 } else { cfg.monitor_window as nat }
            &&& s.monitor.gain_left.len() == 0 && s.monitor.gain_right.len() == 0
            &&& s.monitor.delay_left.len() == 0 && s.monitor.delay_right.len() == 0
            &&& s.gain.left is None && s.gain.right is None && s.delay.left is None && s.delay.right is None
            &&& s.asking is Nothing
            &&& s.reason == "waiting for both capture legs"@
        }),
{
}

/// The answer on a candidate that is not accepted, and the result of a search, let a session that goes
/// on searching put out all that can be decided, unless the host is asked again.
pub proof fn a_verdict_lets_go_of_what_waited(s: State, summary: SummaryView)
    requires
        s.valid(),
        s.asking is VerifySummary,
        s.summarized(summary).phase is Aligning,
        s.summarized(summary).asking is Nothing,
    ensures
        mutes_or_passes_from(s.summarized(summary), s.emitted.len() as int),
{
    reveal(State::judged);
    reveal(State::verify);
    let c = s.candidate->0;
    let l = s.with_estimates(c.ev, summary);
    match c.ev.verdict(summary, s.cfg.spec_limits()) {
        crate::stats::Verdict::Accept => {
            lemma_put_out_steady(l.locked(summary.text));
        },
        crate::stats::Verdict::Reject => {
            let d = l.dropped_candidate(reasons::failed_unity(c.offset, summary.text), true).timed();
            lemma_put_out_steady(d);
            lemma_searching_out(d);
        },
        crate::stats::Verdict::Inconclusive => if c.valid >= s.cfg.max_verify_sub_blocks {
            let d = l.dropped_candidate(reasons::inconclusive(c.offset, summary.text), false).timed();
            lemma_put_out_steady(d);
            lemma_searching_out(d);
        } else {
            let u = l.unasked().timed();
            if !(u.phase is Failed) {
                match u.ready(c.next, c.offset) {
                    None => lemma_searching_out(u),
                    Some(false) => {
                        let d = u.dropped_candidate(reasons::history_lost(), false).timed();
                        lemma_put_out_steady(d);
                        lemma_searching_out(d);
                    },
                    Some(true) => {},
                }
            }
        },
    }
}

/// The result of an awaited search lets a session that goes on searching put out all that can be
/// decided, unless the host is asked.
pub proof fn a_result_lets_go_of_what_waited(s: State, outcome: crate::align::OutcomeView)
    requires
        s.valid(),
        s.asking is Nothing,
        s.phase is Aligning,
        s.in_flight is Some,
        s.complete_job(s.in_flight->0, s.generation, outcome).phase is Aligning,
        s.complete_job(s.in_flight->0, s.generation, outcome).asking is Nothing,
    ensures
        mutes_or_passes_from(
            s.complete_job(s.in_flight->0, s.generation, outcome),
            s.emitted.len() as int,
        ),
{
    match outcome {
        crate::align::OutcomeView::Candidate { offset, peak, peak_text, runner_up, runner_up_text } => {
            let u = State {
                in_flight: None,
                reason: reasons::verifying(offset, peak_text, runner_up_text),
                candidate: Some(
                    crate::state::CandidateView {
                        offset,
                        next: s.next_calib,
                        valid: 0,
                        ev: StereoView::empty(
                            crate::state::larger(1, s.cfg.max_verify_sub_blocks as int) as nat,
                        ),
                    },
                ),
                ..s
            };
            lemma_advance_steady(u);
            lemma_advance_out(u);
        },
        crate::align::OutcomeView::Rejected { reason, mismatch } => {
            let u = State {
                in_flight: None,
                rejected: s.rejected + 1,
                mismatches: s.mismatches + if mismatch { 1int } else { 0int },
                reason: reasons::not_locked(reason),
                last_reject: Some(reason),
                ..s
            }.timed();
            if !(u.phase is Failed) {
                lemma_advance_steady(u);
                lemma_advance_out(u);
            }
        },
    }
}

} // verus!
