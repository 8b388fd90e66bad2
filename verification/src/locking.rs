//! How a session finds its offset: what is searched, what is held against a candidate, what a lock
//! proves, and what that is good for later.

use crate::align::OutcomeView;
use crate::ieee::{Double, Single};
use crate::packet::{Kinds, Leg, PacketInfo, Stamp, TimeKind};
use crate::reasons;
use crate::ring::a_packet_is_taken_where_every_sample_is_finite;
use crate::state::{AskView, Bias, CandidateView, State};
use crate::stats::{Limits, Projection, StereoView, SummaryView, Verdict};
use crate::timeline::{lemma_advance_steady, lemma_put_out_steady, lemma_verify_steady, steady, unspent};
use crate::validity;
use vstd::prelude::*;

verus! {

/// The limits of a verdict, as the configuration has them.
pub open spec fn limits_of(s: State) -> Limits {
    Limits {
        gain_tolerance: s.cfg.gain_tolerance,
        delay_tolerance: s.cfg.delay_tolerance,
        min_sub_blocks: s.cfg.min_sub_blocks,
    }
}

/// Where the search of a generation is centred: at the integer nearest to the offset that packet
/// timing gives, and, where the last lock was proven by the same two clocks, the bias it proved.
pub open spec fn centred(s: State, center: int) -> bool {
    let bias = match (s.proven, s.ep.anchor, s.rf.anchor) {
        (Some(p), Some(a), Some(b)) => if p.kinds.endpoint == a.kind && p.kinds.reference == b.kind {
            p.bias
        } else {
            0
        },
        _ => 0,
    };
    -312 <= 625 * center - (s.coarse->0 + bias) <= 312
}

/// A search that is asked for lies where timing and the proven bias put it: `coarse` plus the bias,
/// where the last lock was by the clocks of this generation, and `coarse` alone elsewhere.
pub proof fn a_search_is_centred_on_the_proven_bias(s: State, start: int, center: int, c: int, a: Stamp, b: Stamp)
    requires
        s.valid(),
        s.asking == (AskView::Energy { start, center }),
        s.coarse == Some(c),
        s.ep.anchor == Some(a),
        s.rf.anchor == Some(b),
    ensures
        s.proven matches Some(p) ==> p.kinds.endpoint == a.kind && p.kinds.reference == b.kind ==> -312 <= 625
            * center - (c + p.bias) <= 312,
        s.proven matches Some(p) ==> p.kinds.endpoint != a.kind || p.kinds.reference != b.kind ==> -312 <= 625
            * center - c <= 312,
        s.proven is None ==> -312 <= 625 * center - c <= 312,
        start >= s.next_calib && start >= s.ep.start && start + center - s.cfg.search_radius >= s.rf.start,
        start == s.next_calib || start == s.ep.start || start + center - s.cfg.search_radius == s.rf.start,
        start + s.cfg.calib_frames <= s.ep.log.len(),
        start + center + s.cfg.calib_frames + s.cfg.search_radius <= s.rf.log.len(),
        c == 625 * (b.index - a.index) + 3 * (a.t - b.t),
{
}

proof fn lemma_center(s: State, center: int)
    requires
        s.coarse is Some,
        centred(s, center),
    ensures
        s.center() == Some(center),
{
}

/// As soon as both legs have delivered a block and the search around it, behind what was searched
/// before and inside both histories, a packet makes the session ask for the energy of the reference
/// there; and no sooner.
pub proof fn a_block_is_searched_as_soon_as_it_is_there(
    s: State,
    leg: Leg,
    info: PacketInfo,
    samples: Option<Seq<Single>>,
    start: int,
    center: int,
)
    requires
        s.valid(),
        s.asking is Nothing,
        s.phase is Aligning,
        s.candidate is None,
        s.in_flight is None,
        info.frames > 0,
        info.silent || (samples matches Some(d) && d.len() == 2 * info.frames && forall|j: int|
            0 <= j < d.len() ==> (#[trigger] d[j]).bits / 0x80_0000 % 0x100 != 0xff),
        s.push(leg, info, samples).coarse is Some,
        centred(s.push(leg, info, samples), center),
        ({
            let t = s.push(leg, info, samples);
            &&& start >= t.next_calib
            &&& start >= t.ep.start
            &&& start + center - s.cfg.search_radius >= t.rf.start
            &&& start == t.next_calib || start == t.ep.start || start + center - s.cfg.search_radius == t.rf.start
        }),
    ensures
        ({
            let t = s.push(leg, info, samples);
            if start + s.cfg.calib_frames <= t.ep.log.len() && start + center + s.cfg.calib_frames
                + s.cfg.search_radius <= t.rf.log.len() {
                t.asking == (AskView::Energy { start, center }) && t.phase is Aligning
            } else {
                t.asking is Nothing
            }
        }),
{
    if !info.silent {
        a_packet_is_taken_where_every_sample_is_finite(samples->0, info.frames as nat);
    }
    validity::lemma_checked(s, leg, info);
    validity::lemma_checked_breaks(s, leg, info);
    let c = s.checked(leg, info);
    let u = c.taken_in(leg, info, State::payload(info, samples));
    let t = s.push(leg, info, samples);
    lemma_advance_steady(u);
    reveal(State::delivered);
    reveal(State::advance);
    reveal(State::calibrate);
    reveal(State::seek);
    reveal(State::put_out);
    reveal(State::emit_aligning);
    reveal(State::checked);
    reveal(State::reset);
    assert(t.next_calib == u.next_calib);
    lemma_center(t, center);
    assert(u.with_coarse().center() == t.center());
}

/// Where both channels of the reference are quieter than the threshold there is nothing to align on:
/// the search slides on by half a block, and neither a job nor the time that is allowed without a lock
/// is spent.
pub proof fn a_quiet_reference_is_passed_over(s: State, left: Double, right: Double, threshold: Double)
    requires
        s.valid(),
        s.asking is Energy,
        threshold.above(left) && threshold.above(right),
    ensures
        ({
            let t = s.weighed(left, right, threshold);
            &&& t.next_calib == s.asking->start + s.cfg.calib_frames as int / 2
            &&& t.active_unlocked == s.active_unlocked
            &&& t.in_flight is None
            &&& t.outbox == s.outbox || t.phase is Failed
            &&& t.next_job_id == s.next_job_id
            &&& t.rejected == s.rejected && t.mismatches == s.mismatches
            &&& t.candidate is None
            &&& t.phase is Aligning ==> t.reason == if s.reason.len() >= 10 && s.reason.take(10) == "not locked"@ {
                s.reason
            } else {
                "waiting for own audio to align on (reference silent)"@
            }
        }),
{
    reveal_strlit("not locked");
    reveal(State::seek);
    let u = s.slid(s.asking->start);
    let center = s.asking->center;
    if !u.covered(u.block_start(center), center) {
        lemma_put_out_steady(u);
        lemma_put_out_outbox(u);
    }
}

proof fn lemma_put_out_outbox(s: State)
    requires
        s.asking is Nothing,
    ensures
        s.put_out().outbox == s.outbox || s.put_out().phase is Failed,
        s.phase is Aligning ==> s.put_out().asking is Nothing,
        s.put_out().reason == s.reason || s.put_out().phase is Failed,
{
    reveal(State::put_out);
    reveal(State::emit_aligning);
    reveal(State::emit_running);
    reveal(State::watched);
    if s.phase is Running {
        crate::laws::lemma_watch_keeps(s.emit_running());
    }
}

/// Where either channel is as loud as the threshold, a search job goes out under a number of its own:
/// the endpoint block, the reference over every offset of the search, and the first of those offsets.
/// The block counts as spent, and what is behind it is kept for the verification.
pub proof fn a_loud_reference_is_searched(
    s: State,
    left: Double,
    right: Double,
    threshold: Double,
    start: int,
    center: int,
    i: int,
)
    requires
        s.valid(),
        s.asking == (AskView::Energy { start, center }),
        !threshold.above(left) || !threshold.above(right),
    ensures
        ({
            let t = s.weighed(left, right, threshold);
            let n = s.cfg.calib_frames as int;
            let r = s.cfg.search_radius as int;
            &&& t.next_calib == start + n
            &&& t.active_unlocked == s.active_unlocked + n
            &&& t.in_flight == Some(s.next_job_id)
            &&& t.next_job_id == s.next_job_id + 1
            &&& t.asking is Nothing
            &&& t.phase is Aligning ==> t.outbox is Some
            &&& t.phase is Aligning ==> t.reason == "searching for the integer offset"@
            &&& t.outbox matches Some(j) ==> {
                &&& j.id == s.next_job_id
                &&& j.generation == s.generation
                &&& j.endpoint_start == start
                &&& j.base_offset == center - r
                &&& j.endpoint.len() == 2 * n
                &&& 0 <= i < n ==> j.endpoint[2 * i] == s.ep.log[start + i].left
                &&& 0 <= i < n ==> j.endpoint[2 * i + 1] == s.ep.log[start + i].right
                &&& j.reference.len() == 2 * (n + 2 * r)
                &&& 0 <= i < n + 2 * r ==> j.reference[2 * i] == s.rf.log[start + center - r + i].left
                &&& 0 <= i < n + 2 * r ==> j.reference[2 * i + 1] == s.rf.log[start + center - r + i].right
                &&& j.params.ambiguity_ratio == s.cfg.ambiguity_ratio
                &&& j.params.min_peak_correlation == s.cfg.min_peak_correlation
                &&& j.params.lobe_guard == s.cfg.lobe_guard
                &&& j.params.edge_guard == s.cfg.edge_guard
            }
        }),
{
    let u = s.posted(start, center);
    lemma_put_out_steady(u);
    lemma_put_out_outbox(u);
    reveal(State::put_out);
    reveal(State::emit_aligning);
    let n = s.cfg.calib_frames as int;
    let r = s.cfg.search_radius as int;
    crate::ring::samples_alternate_between_the_channels(
        Seq::empty(),
        s.ep.log.subrange(start, start + n),
        0,
        i,
    );
    crate::ring::samples_alternate_between_the_channels(
        Seq::empty(),
        s.rf.log.subrange(start + center - r, start + center + n + r),
        0,
        i,
    );
}

/// A sub-block of a candidate can be measured where both legs have delivered it, with one reference
/// frame more on either side, and both histories still hold it.
pub open spec fn measurable(s: State, start: int, offset: int) -> bool {
    &&& start >= s.ep.start
    &&& start + s.cfg.sub_block_frames <= s.ep.log.len()
    &&& start + offset - 1 >= s.rf.start
    &&& start + offset + s.cfg.sub_block_frames + 1 <= s.rf.log.len()
}

/// The awaited candidate is taken under verification: at its offset, from the end of the searched
/// block on, with no evidence yet. Its first sub-block is asked for at once where it can be measured,
/// and waited for where it was not delivered. Where it is lost the candidate is dropped, and that is
/// no mismatch.
pub proof fn an_awaited_candidate_is_verified(
    s: State,
    offset: int,
    peak: Double,
    peak_text: Seq<char>,
    runner_up: Double,
    runner_up_text: Seq<char>,
)
    requires
        s.valid(),
        s.asking is Nothing,
        s.phase is Aligning,
        s.in_flight is Some,
        i64::MIN <= offset <= i64::MAX,
    ensures
        ({
            let t = s.complete_job(
                s.in_flight->0,
                s.generation,
                (OutcomeView::Candidate { offset, peak, peak_text, runner_up, runner_up_text }),
            );
            let delivered = s.next_calib + s.cfg.sub_block_frames <= s.ep.log.len() && s.next_calib + offset
                + s.cfg.sub_block_frames + 1 <= s.rf.log.len();
            &&& t.in_flight is None
            &&& t.locks == s.locks
            &&& t.mismatches == s.mismatches
            &&& t.candidate matches Some(c) ==> {
                &&& c.offset == offset
                &&& c.next == s.next_calib
                &&& c.valid == 0
                &&& c.ev.gain_left.len() == 0 && c.ev.gain_right.len() == 0
                &&& c.ev.delay_left.len() == 0 && c.ev.delay_right.len() == 0
                &&& c.ev.cap == if s.cfg.max_verify_sub_blocks == 0 {
                    1
                } else {
                    s.cfg.max_verify_sub_blocks as nat
                }
                &&& t.rejected == s.rejected
                &&& t.phase is Aligning ==> t.reason == "verifying candidate offset "@ + crate::text::integer(
                    offset,
                ) + " on held-out audio (correlation "@ + peak_text + ", runner-up "@ + runner_up_text + ")"@
            }
            &&& measurable(s, s.next_calib, offset) ==> t.candidate is Some && t.asking is VerifyFit
            &&& !delivered && !(t.phase is Failed) ==> t.candidate is Some && t.asking is Nothing
            &&& delivered && !measurable(s, s.next_calib, offset) ==> t.candidate is None && t.rejected
                == s.rejected + 1
        }),
{
    let u = State {
        in_flight: None,
        reason: reasons::verifying(offset, peak_text, runner_up_text),
        candidate: Some(
            CandidateView {
                offset,
                next: s.next_calib,
                valid: 0,
                ev: StereoView::empty(
                    crate::state::larger(1, s.cfg.max_verify_sub_blocks as int) as nat,
                ),
            },
        ),
        ..s
    };
    lemma_advance_steady(u);
    reveal(State::advance);
    reveal(State::calibrate);
    reveal(State::verify);
    let v = u.with_coarse();
    lemma_put_out_drop(v.dropped_candidate(reasons::history_lost(), false).timed());
    lemma_put_out_drop(v);
}

proof fn lemma_put_out_drop(s: State)
    requires
        s.asking is Nothing,
        s.phase is Aligning || s.phase is Failed,
    ensures
        s.put_out().rejected == s.rejected,
        s.put_out().mismatches == s.mismatches,
        s.put_out().next_calib == s.next_calib,
        s.put_out().active_unlocked == s.active_unlocked,
        s.put_out().last_reject == s.last_reject,
        s.put_out().candidate == s.candidate || s.put_out().phase is Failed && s.put_out().candidate is None,
        s.put_out().asking is Nothing,
        s.phase is Failed ==> s.put_out() == s,
        s.put_out().phase is Failed && s.phase is Aligning ==> s.put_out().ep.log.len() - s.put_out().emitted.len()
            > s.cfg.max_pending_frames,
        s.put_out().phase is Aligning ==> s.put_out().reason == s.reason && s.put_out().ep.log.len()
            - s.put_out().emitted.len() <= s.cfg.max_pending_frames,
        s.phase is Aligning && s.put_out().phase is Failed ==> s.put_out().reason == reasons::overflow(
            (s.put_out().ep.log.len() - s.put_out().emitted.len()) as nat,
            s.cfg.max_pending_frames as nat,
        ),
{
    reveal(State::put_out);
    reveal(State::emit_aligning);
}

/// A rejected search is counted, and as a mismatch only where it says so. The session goes on, unless
/// it has now spent more own audio than is allowed without a lock and counts two mismatches; having
/// spent it with fewer, it begins to count the audio anew.
pub proof fn an_awaited_rejection_is_counted(s: State, reason: Seq<char>, mismatch: bool)
    requires
        s.valid(),
        s.asking is Nothing,
        s.phase is Aligning,
        s.in_flight is Some,
        s.candidate is None,
    ensures
        ({
            let t = s.complete_job(
                s.in_flight->0,
                s.generation,
                (OutcomeView::Rejected { reason, mismatch }),
            );
            let against = s.mismatches + if mismatch { 1int } else { 0 };
            let spent = s.active_unlocked > s.cfg.align_timeout_frames;
            &&& t.in_flight is None
            &&& t.candidate is None
            &&& t.locks == s.locks
            &&& t.rejected == s.rejected + 1
            &&& t.mismatches == against
            &&& t.last_reject == Some(reason)
            &&& spent && against >= 2 ==> t.phase is Failed && t.reason == reasons::unverifiable(
                s.active_unlocked as nat,
                reason,
            )
            &&& t.phase is Aligning && !spent ==> t.reason == "not locked: "@ + reason
            &&& t.phase is Aligning && spent ==> t.reason == reasons::still_unlocked(
                s.active_unlocked as nat,
                reason,
            )
            &&& !(spent && against >= 2) ==> t.active_unlocked == if spent { 0 } else { s.active_unlocked }
            &&& !(spent && against >= 2) && t.phase is Failed ==> t.ep.log.len() - t.emitted.len()
                > s.cfg.max_pending_frames
        }),
{
    let u = State {
        in_flight: None,
        rejected: s.rejected + 1,
        mismatches: s.mismatches + if mismatch { 1int } else { 0int },
        reason: reasons::not_locked(reason),
        last_reject: Some(reason),
        ..s
    }.timed();
    if !(u.phase is Failed) {
        lemma_advance_steady(u);
        reveal(State::advance);
        reveal(State::calibrate);
        reveal(State::seek);
        let v = u.with_coarse();
        lemma_put_out_drop(v);
        lemma_put_out_drop(State { reason: reasons::waiting_for_packets(), ..v });
    }
}

/// Whether a projection has enough energy to be evidence.
pub open spec fn energetic(p: Projection) -> bool {
    p.min_energy.at_most(p.energy)
}

/// A measured sub-block moves the candidate on by its length, whatever it yields. It counts as evidence,
/// and as own audio that was spent, where either channel had enough energy; and each channel's
/// estimates go to the windows of that channel.
pub proof fn a_measured_sub_block_is_counted_where_it_is_evidence(s: State, left: Projection, right: Projection)
    requires
        s.valid(),
        s.asking is VerifyFit,
    ensures
        ({
            let c = s.candidate->0;
            let t = s.fitted(left, right);
            let d = t.candidate->0;
            &&& t.candidate is Some
            &&& t.asking is VerifySummary
            &&& t.phase is Aligning
            &&& d.offset == c.offset
            &&& d.next == c.next + s.cfg.sub_block_frames
            &&& d.valid - c.valid == if energetic(left) || energetic(right) { 1int } else { 0 }
            &&& t.active_unlocked - s.active_unlocked == if energetic(left) || energetic(right) {
                s.cfg.sub_block_frames as int
            } else {
                0
            }
            &&& d.ev.cap == c.ev.cap
            &&& !energetic(left) ==> d.ev.gain_left == c.ev.gain_left && d.ev.delay_left == c.ev.delay_left
            &&& !energetic(right) ==> d.ev.gain_right == c.ev.gain_right && d.ev.delay_right == c.ev.delay_right
            &&& energetic(left) && left.gain.finite() ==> d.ev.gain_left.len() > 0 && d.ev.gain_left.last()
                == left.gain
            &&& energetic(right) && right.gain.finite() ==> d.ev.gain_right.len() > 0 && d.ev.gain_right.last()
                == right.gain
            &&& energetic(left) && left.slope.above(left.min_slope) && left.delay.finite()
                ==> d.ev.delay_left.len() > 0 && d.ev.delay_left.last() == left.delay
            &&& energetic(right) && right.slope.above(right.min_slope) && right.delay.finite()
                ==> d.ev.delay_right.len() > 0 && d.ev.delay_right.last() == right.delay
            &&& t.locks == s.locks && t.rejected == s.rejected && t.mismatches == s.mismatches
            &&& t.emitted == s.emitted && t.ep == s.ep && t.rf == s.rf
        }),
{
}

/// How wide the stretch of silence around a passed frame is on either side, and how far a bias may
/// move: twice the tolerances of the two clocks, each in whole frames rounded up, and the margin. `e`
/// and `r` are the tolerances of the two clocks in whole frames.
pub open spec fn window_width(s: State, a: TimeKind, b: TimeKind, w: int) -> bool {
    exists|e: int, r: int| #[trigger] window_made_of(s, a, b, w, e, r)
}

pub open spec fn window_made_of(s: State, a: TimeKind, b: TimeKind, w: int, e: int, r: int) -> bool {
    &&& 625 * e >= 3 * s.cfg.gap_tolerance_engine_100ns > 625 * (e - 1)
    &&& 625 * r >= 3 * s.cfg.gap_tolerance_read_100ns > 625 * (r - 1)
    &&& w == 2 * (if a is Engine { e } else { r }) + 2 * (if b is Engine { e } else { r })
        + s.cfg.passthrough_margin_frames
}

pub proof fn lemma_window(s: State, a: TimeKind, b: TimeKind, w: int)
    requires
        window_width(s, a, b, w),
    ensures
        w == s.cfg.spec_passthrough_window((Kinds { endpoint: a, reference: b })),
        w >= 0,
{
    let (e, r) = choose|e: int, r: int| #[trigger] window_made_of(s, a, b, w, e, r);
    crate::config::windows_follow_from_the_clocks(s.cfg, Kinds { endpoint: a, reference: b }, e, r);
}

proof fn lemma_lock(s: State, summary: SummaryView)
    requires
        s.valid(),
        s.asking is VerifySummary,
        s.candidate->0.ev.verdict(summary, limits_of(s)) is Accept,
    ensures
        ({
            let l = s.with_estimates(s.candidate->0.ev, summary).locked(summary.text);
            &&& s.summarized(summary) == l.put_out()
            &&& l.asking is Nothing
            &&& steady(l, l.put_out())
            &&& l.candidate is None ==> unspent(l, l.put_out())
            &&& l.phase is Running || l.phase is Failed
            &&& l.phase is Running && l.put_out().phase is Failed ==> {
                ||| l.put_out().ep.log.len() - l.put_out().emitted.len() > s.cfg.max_pending_frames
                ||| s.emitted.len() < s.ep.log.len() && s.emitted.len() + s.candidate->0.offset < s.rf.start
            }
        }),
{
    reveal(State::judged);
    let l = s.with_estimates(s.candidate->0.ev, summary).locked(summary.text);
    lemma_put_out_steady(l);
    reveal(State::put_out);
    reveal(State::emit_running);
    reveal(State::watched);
    if l.phase is Running {
        let u = l.emit_running();
        if !(u.phase is Failed) {
            crate::laws::lemma_watch_keeps(u);
        }
    }
}

/// A lock at an offset records how far the offset lies from what packet timing gives, in 625ths of a
/// frame, and the clocks that gave it: that distance and nothing else is the bias which later
/// generations are searched and passed by. It holds wherever the earlier lock was by other clocks, or
/// its bias is no further off than the window.
pub proof fn a_lock_proves_how_far_content_lies_from_timing(
    s: State,
    summary: SummaryView,
    c: CandidateView,
    coarse: int,
    a: Stamp,
    b: Stamp,
    w: int,
)
    requires
        s.valid(),
        s.asking is VerifySummary,
        s.candidate == Some(c),
        s.coarse == Some(coarse),
        s.ep.anchor == Some(a),
        s.rf.anchor == Some(b),
        window_width(s, a.kind, b.kind, w),
        c.ev.verdict(summary, limits_of(s)) is Accept,
        s.proven matches Some(p) ==> p.kinds.endpoint == a.kind && p.kinds.reference == b.kind ==> -625 * w
            <= 625 * c.offset - coarse - p.bias <= 625 * w,
    ensures
        ({
            let t = s.summarized(summary);
            &&& t.locks == s.locks + 1
            &&& t.offset == Some(c.offset)
            &&& t.proven == Some(
                (Bias {
                    bias: 625 * c.offset - coarse,
                    kinds: Kinds { endpoint: a.kind, reference: b.kind },
                }),
            )
            &&& t.candidate is None
            &&& t.monitor_fresh == 0 && t.monitor_rejects == 0 && t.monitor.cap == s.monitor.cap
            &&& t.monitor.gain_left.len() == 0 && t.monitor.gain_right.len() == 0
            &&& t.monitor.delay_left.len() == 0 && t.monitor.delay_right.len() == 0
            &&& t.phase is Running || t.ep.log.len() - t.emitted.len() > s.cfg.max_pending_frames || (
            s.emitted.len() < s.ep.log.len() && s.emitted.len() + c.offset < s.rf.start)
        }),
{
    lemma_window(s, a.kind, b.kind, w);
    lemma_lock(s, summary);
    reveal(State::put_out);
}

/// Content that lies as far from packet timing as the last lock proved locks again: the bias is the
/// same, and the session does not fail for it.
pub proof fn the_same_bias_locks_again(
    s: State,
    summary: SummaryView,
    c: CandidateView,
    coarse: int,
    a: Stamp,
    b: Stamp,
    p: Bias,
)
    requires
        s.valid(),
        s.asking is VerifySummary,
        s.candidate == Some(c),
        s.coarse == Some(coarse),
        s.ep.anchor == Some(a),
        s.rf.anchor == Some(b),
        s.proven == Some(p),
        625 * c.offset - coarse == p.bias,
        c.ev.verdict(summary, limits_of(s)) is Accept,
    ensures
        ({
            let t = s.summarized(summary);
            &&& t.locks == s.locks + 1
            &&& t.offset == Some(c.offset)
            &&& t.proven->0.bias == p.bias
            &&& t.phase is Running || t.ep.log.len() - t.emitted.len() > s.cfg.max_pending_frames || (
            s.emitted.len() < s.ep.log.len() && s.emitted.len() + c.offset < s.rf.start)
        }),
{
    let e = crate::config::spec_tolerance_frames(s.cfg.gap_tolerance_engine_100ns);
    let r = crate::config::spec_tolerance_frames(s.cfg.gap_tolerance_read_100ns);
    crate::config::a_tolerance_is_rounded_up_to_frames(s.cfg.gap_tolerance_engine_100ns);
    crate::config::a_tolerance_is_rounded_up_to_frames(s.cfg.gap_tolerance_read_100ns);
    let w = 2 * (if a.kind is Engine { e } else { r }) + 2 * (if b.kind is Engine { e } else { r })
        + s.cfg.passthrough_margin_frames;
    assert(window_made_of(s, a.kind, b.kind, w, e, r));
    lemma_window(s, a.kind, b.kind, w);
    a_lock_proves_how_far_content_lies_from_timing(s, summary, c, coarse, a, b, w);
}

/// Content that has moved against packet timing by more than the window, between two locks by the same
/// clocks, ends the session without a lock: what was passed in between rested on a bias that did not
/// hold.
pub proof fn a_bias_that_moved_too_far_is_no_lock(
    s: State,
    summary: SummaryView,
    c: CandidateView,
    coarse: int,
    a: Stamp,
    b: Stamp,
    p: Bias,
    w: int,
)
    requires
        s.valid(),
        s.asking is VerifySummary,
        s.candidate == Some(c),
        s.coarse == Some(coarse),
        s.ep.anchor == Some(a),
        s.rf.anchor == Some(b),
        s.proven == Some(p),
        p.kinds.endpoint == a.kind && p.kinds.reference == b.kind,
        window_width(s, a.kind, b.kind, w),
        c.ev.verdict(summary, limits_of(s)) is Accept,
        625 * c.offset - coarse - p.bias > 625 * w || 625 * c.offset - coarse - p.bias < -625 * w,
    ensures
        ({
            let t = s.summarized(summary);
            &&& t.phase is Failed
            &&& t.locks == s.locks
            &&& t.proven == s.proven
            &&& t.emitted == s.emitted
            &&& t.reason == reasons::moved(625 * c.offset - coarse - p.bias, w)
        }),
{
    lemma_window(s, a.kind, b.kind, w);
    lemma_lock(s, summary);
    reveal(State::put_out);
}

/// A candidate that the evidence rejects is dropped as a mismatch; one that stays undecided for as many
/// sub-blocks of evidence as are allowed is dropped too, but is no mismatch; any other is kept, and its
/// next sub-block is asked for where it can be measured. A search begins behind the audio that the
/// dropped candidate has used. Neither is a lock.
pub proof fn a_candidate_that_is_not_accepted_is_dropped_or_kept(s: State, summary: SummaryView, c: CandidateView)
    requires
        s.valid(),
        s.asking is VerifySummary,
        s.candidate == Some(c),
        !(c.ev.verdict(summary, limits_of(s)) is Accept),
    ensures
        ({
            let t = s.summarized(summary);
            let rejected = c.ev.verdict(summary, limits_of(s)) is Reject;
            let given_up = !rejected && c.valid >= s.cfg.max_verify_sub_blocks;
            let against = s.mismatches + if rejected { 1int } else { 0 };
            let spent = s.active_unlocked > s.cfg.align_timeout_frames;
            let delivered = c.next + s.cfg.sub_block_frames <= s.ep.log.len() && c.next + c.offset
                + s.cfg.sub_block_frames + 1 <= s.rf.log.len();
            &&& t.locks == s.locks
            &&& t.proven == s.proven
            &&& t.offset == s.offset
            &&& !(t.phase is Running)
            &&& t.mismatches == against
            &&& rejected || given_up ==> {
                &&& t.candidate is None
                &&& t.rejected == s.rejected + 1
                &&& t.next_calib == if c.next > s.next_calib { c.next } else { s.next_calib }
                &&& t.last_reject == Some(
                    if rejected {
                        reasons::failed_unity(c.offset, summary.text)
                    } else {
                        reasons::inconclusive(c.offset, summary.text)
                    },
                )
                &&& t.phase is Aligning && !spent ==> t.reason == "not locked: "@ + t.last_reject->0
                &&& t.phase is Aligning && spent ==> t.reason == reasons::still_unlocked(
                    s.active_unlocked as nat,
                    t.last_reject->0,
                )
                &&& spent && against >= 2 ==> t.reason == reasons::unverifiable(
                    s.active_unlocked as nat,
                    t.last_reject->0,
                )
            }
            &&& spent && against >= 2 ==> t.phase is Failed
            &&& !(spent && against >= 2) ==> t.active_unlocked == if spent { 0 } else { s.active_unlocked }
            &&& !(spent && against >= 2) && t.phase is Failed ==> t.ep.log.len() - t.emitted.len()
                > s.cfg.max_pending_frames
            &&& !rejected && !given_up && !(spent && against >= 2) ==> {
                &&& measurable(s, c.next, c.offset) ==> t.candidate == Some(c) && t.asking is VerifyFit
                    && t.rejected == s.rejected
                &&& !delivered && !(t.phase is Failed) ==> t.candidate == Some(c) && t.asking is Nothing
                    && t.rejected == s.rejected
                &&& delivered && !measurable(s, c.next, c.offset) ==> t.candidate is None && t.rejected
                    == s.rejected + 1
            }
        }),
{
    reveal(State::judged);
    reveal(State::verify);
    let l = s.with_estimates(c.ev, summary);
    match c.ev.verdict(summary, limits_of(s)) {
        Verdict::Accept => {},
        Verdict::Reject => {
            let d = l.dropped_candidate(reasons::failed_unity(c.offset, summary.text), true).timed();
            lemma_put_out_drop(d);
            lemma_put_out_steady(d);
        },
        Verdict::Inconclusive => if c.valid >= s.cfg.max_verify_sub_blocks {
            let d = l.dropped_candidate(reasons::inconclusive(c.offset, summary.text), false).timed();
            lemma_put_out_drop(d);
            lemma_put_out_steady(d);
        } else {
            let u = l.unasked().timed();
            if !(u.phase is Failed) {
                let d = u.dropped_candidate(reasons::history_lost(), false).timed();
                lemma_put_out_drop(u);
                lemma_put_out_drop(d);
                lemma_verify_steady(u);
            }
        },
    }
}

/// While a candidate is under verification, a packet makes the session ask for its next sub-block as
/// soon as that can be measured, and no sooner; and where the histories have lost it the candidate is
/// dropped.
pub proof fn a_candidate_is_measured_as_soon_as_its_audio_is_there(
    s: State,
    leg: Leg,
    info: PacketInfo,
    samples: Option<Seq<Single>>,
    c: CandidateView,
)
    requires
        s.valid(),
        s.asking is Nothing,
        s.phase is Aligning,
        s.candidate == Some(c),
        info.frames > 0,
        info.silent || (samples matches Some(d) && d.len() == 2 * info.frames && forall|j: int|
            0 <= j < d.len() ==> (#[trigger] d[j]).bits / 0x80_0000 % 0x100 != 0xff),
        s.push(leg, info, samples).generation == s.generation,
    ensures
        ({
            let t = s.push(leg, info, samples);
            let delivered = c.next + s.cfg.sub_block_frames <= t.ep.log.len() && c.next + c.offset
                + s.cfg.sub_block_frames + 1 <= t.rf.log.len();
            &&& measurable(t, c.next, c.offset) ==> t.candidate == Some(c) && t.asking is VerifyFit
            &&& !delivered && !(t.phase is Failed) ==> t.candidate == Some(c) && t.asking is Nothing
            &&& delivered && !measurable(t, c.next, c.offset) ==> t.candidate is None && t.rejected == s.rejected
                + 1 && t.mismatches == s.mismatches
        }),
{
    if !info.silent {
        a_packet_is_taken_where_every_sample_is_finite(samples->0, info.frames as nat);
    }
    validity::lemma_checked(s, leg, info);
    validity::lemma_checked_breaks(s, leg, info);
    let u = s.checked(leg, info).taken_in(leg, info, State::payload(info, samples));
    lemma_advance_steady(u);
    reveal(State::checked);
    reveal(State::reset);
    reveal(State::delivered);
    reveal(State::advance);
    reveal(State::calibrate);
    reveal(State::verify);
    let v = u.with_coarse();
    lemma_put_out_drop(v.dropped_candidate(reasons::history_lost(), false).timed());
    lemma_put_out_drop(v);
}

/// What is shown of the estimates after a summary: the mean of each window, by kind and channel, and
/// none of an empty window. The windows are those of the candidate while one is verified, and those of
/// the monitor while the session runs.
pub proof fn the_latest_estimates_are_shown(s: State, summary: SummaryView)
    requires
        s.valid(),
        s.asking is VerifySummary || s.asking is MonitorSummary,
    ensures
        ({
            let t = s.summarized(summary);
            let w = if s.asking is VerifySummary { s.candidate->0.ev } else { s.monitor };
            &&& t.gain.left == if w.gain_left.len() == 0 { None } else { Some(summary.gain_left.mean) }
            &&& t.gain.right == if w.gain_right.len() == 0 { None } else { Some(summary.gain_right.mean) }
            &&& t.delay.left == if w.delay_left.len() == 0 { None } else { Some(summary.delay_left.mean) }
            &&& t.delay.right == if w.delay_right.len() == 0 { None } else { Some(summary.delay_right.mean) }
        }),
{
    if s.asking is VerifySummary {
        let c = s.candidate->0;
        reveal(State::judged);
        reveal(State::verify);
        let l = s.with_estimates(c.ev, summary);
        match c.ev.verdict(summary, s.cfg.spec_limits()) {
            Verdict::Accept => lemma_put_out_steady(l.locked(summary.text)),
            Verdict::Reject => lemma_put_out_steady(
                l.dropped_candidate(reasons::failed_unity(c.offset, summary.text), true).timed(),
            ),
            Verdict::Inconclusive => if c.valid >= s.cfg.max_verify_sub_blocks {
                lemma_put_out_steady(
                    l.dropped_candidate(reasons::inconclusive(c.offset, summary.text), false).timed(),
                );
            } else {
                let u = l.unasked().timed();
                if !(u.phase is Failed) {
                    lemma_verify_steady(u);
                }
            },
        }
    } else {
        crate::running::lemma_monitor_judged_steady(s, summary);
    }
}

/// Behind a rejected search the next block is searched at once where both legs have delivered it: the
/// session asks for the energy of the reference there, and for nothing else.
pub proof fn a_rejected_search_is_followed_by_the_next(
    s: State,
    reason: Seq<char>,
    mismatch: bool,
    start: int,
    center: int,
)
    requires
        s.valid(),
        s.asking is Nothing,
        s.phase is Aligning,
        s.in_flight is Some,
        s.coarse is Some,
        centred(s, center),
        start >= s.next_calib && start >= s.ep.start && start + center - s.cfg.search_radius >= s.rf.start,
        start == s.next_calib || start == s.ep.start || start + center - s.cfg.search_radius == s.rf.start,
        s.active_unlocked <= s.cfg.align_timeout_frames,
        s.rf.anchor is Some,
    ensures
        ({
            let t = s.complete_job(
                s.in_flight->0,
                s.generation,
                (OutcomeView::Rejected { reason, mismatch }),
            );
            if start + s.cfg.calib_frames <= s.ep.log.len() && start + center + s.cfg.calib_frames
                + s.cfg.search_radius <= s.rf.log.len() {
                t.asking == (AskView::Energy { start, center })
            } else {
                t.asking is Nothing
            }
        }),
{
    let u = State {
        in_flight: None,
        rejected: s.rejected + 1,
        mismatches: s.mismatches + if mismatch { 1int } else { 0int },
        reason: reasons::not_locked(reason),
        last_reject: Some(reason),
        ..s
    }.timed();
    reveal(State::advance);
    reveal(State::calibrate);
    reveal(State::seek);
    lemma_center(s, center);
    assert(u.with_coarse().center() == Some(center));
    lemma_put_out_drop(u.with_coarse());
}

/// Behind a quiet stretch the search goes on at once where both legs have delivered the next block.
pub proof fn a_quiet_stretch_is_followed_by_the_next_block(
    s: State,
    left: Double,
    right: Double,
    threshold: Double,
    start: int,
)
    requires
        s.valid(),
        s.asking is Energy,
        threshold.above(left) && threshold.above(right),
        ({
            let next = s.asking->start + s.cfg.calib_frames as int / 2;
            let low = s.rf.start - s.asking->center + s.cfg.search_radius;
            &&& start >= next && start >= s.ep.start && start >= low
            &&& start == next || start == s.ep.start || start == low
        }),
    ensures
        ({
            let t = s.weighed(left, right, threshold);
            let center = s.asking->center;
            if start + s.cfg.calib_frames <= s.ep.log.len() && start + center + s.cfg.calib_frames
                + s.cfg.search_radius <= s.rf.log.len() {
                t.asking == (AskView::Energy { start, center })
            } else {
                t.asking is Nothing
            }
        }),
{
    reveal(State::seek);
    lemma_put_out_outbox(s.slid(s.asking->start));
}

} // verus!
