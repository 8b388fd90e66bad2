//! What a packet does to a session: how lost frames are seen, what begins with them, and what a
//! packet leaves behind on its leg.

use crate::ieee::Single;
use crate::laws;
use crate::packet::{Leg, OutFrame, PacketInfo, Phase, Stamp, TimeKind};
use crate::ring::{acceptable, a_packet_is_taken_where_every_sample_is_finite};
use crate::state::State;
use crate::validity;
use vstd::prelude::*;

verus! {

/// What going on within a generation leaves alone.
pub open spec fn steady(s: State, t: State) -> bool {
    &&& t.cfg == s.cfg
    &&& t.ep == s.ep
    &&& t.rf == s.rf
    &&& t.generation == s.generation
    &&& t.gain == s.gain
    &&& t.delay == s.delay
    &&& t.locks == s.locks
    &&& t.discontinuities == s.discontinuities
    &&& t.timeline_gaps == s.timeline_gaps
    &&& t.proven == s.proven
    &&& t.offset == s.offset
    &&& t.in_flight == s.in_flight
    &&& t.next_job_id == s.next_job_id
    &&& t.monitor == s.monitor
    &&& t.monitor_fresh == s.monitor_fresh
    &&& t.monitor_rejects == s.monitor_rejects
    &&& t.phase == s.phase || t.phase is Failed
    &&& s.emitted.is_prefix_of(t.emitted)
    &&& s.coarse is Some ==> t.coarse == s.coarse
    &&& t.outbox == s.outbox || t.phase is Failed && t.outbox is None
}

/// What going on leaves alone where no candidate is under verification.
pub open spec fn unspent(s: State, t: State) -> bool {
    &&& t.candidate is None
    &&& t.active_unlocked == s.active_unlocked
    &&& t.mismatches == s.mismatches
    &&& t.rejected == s.rejected
    &&& t.next_calib == s.next_calib
    &&& t.last_reject == s.last_reject
}

pub proof fn lemma_watched_steady(s: State)
    requires
        s.asking is Nothing,
    ensures
        steady(s, s.watched()),
        s.watched().emitted == s.emitted,
        s.watched().coarse == s.coarse,
        s.candidate is None ==> unspent(s, s.watched()),
{
    reveal(State::watched);
    laws::lemma_watch_keeps(s);
}

pub proof fn lemma_put_out_steady(s: State)
    requires
        s.asking is Nothing,
    ensures
        steady(s, s.put_out()),
        s.put_out().coarse == s.coarse,
        s.candidate is None ==> unspent(s, s.put_out()),
{
    reveal(State::put_out);
    match s.phase {
        Phase::Failed => {},
        Phase::Aligning => {
            reveal(State::emit_aligning);
        },
        Phase::Running => {
            reveal(State::emit_running);
            let u = s.emit_running();
            assert(s.emitted.is_prefix_of(u.emitted));
            if !(u.phase is Failed) {
                lemma_watched_steady(u);
            }
        },
    }
}

pub proof fn lemma_verify_steady(s: State)
    requires
        s.asking is Nothing,
        s.phase is Aligning,
    ensures
        steady(s, s.verify()),
        s.verify().coarse == s.coarse,
        s.candidate is None ==> unspent(s, s.verify()),
{
    reveal(State::verify);
    match s.candidate {
        None => lemma_put_out_steady(s),
        Some(c) => match s.ready(c.next, c.offset) {
            None => lemma_put_out_steady(s),
            Some(false) => lemma_put_out_steady(
                s.dropped_candidate(crate::reasons::history_lost(), false).timed(),
            ),
            Some(true) => {},
        },
    }
}

pub proof fn lemma_advance_steady(s: State)
    requires
        s.asking is Nothing,
    ensures
        steady(s, s.advance()),
        s.advance().coarse == s.with_coarse().coarse,
        s.candidate is None ==> unspent(s, s.advance()),
{
    reveal(State::advance);
    reveal(State::calibrate);
    reveal(State::seek);
    let t = s.with_coarse();
    match t.phase {
        Phase::Aligning => if !(t.rf.anchor is None && t.ep.end() - t.ep.gen_start
            > t.cfg.reference_absent_frames) {
            if t.candidate is Some || t.in_flight is Some {
                lemma_verify_steady(t);
            } else {
                match t.center() {
                    None => lemma_put_out_steady(
                        State { reason: crate::reasons::waiting_for_packets(), ..t },
                    ),
                    Some(center) => if !t.covered(t.block_start(center), center) {
                        lemma_put_out_steady(t);
                    },
                }
            }
        },
        _ => lemma_put_out_steady(t),
    }
}

/// The state in which a packet has come to its leg, before the session goes on.
spec fn arrived(s: State, leg: Leg, info: PacketInfo, samples: Option<Seq<Single>>) -> State {
    let data = State::payload(info, samples);
    if acceptable(data, info.frames as nat) {
        s.checked(leg, info).taken_in(leg, info, data)
    } else {
        s.checked(leg, info).noted(leg, info)
    }
}

proof fn lemma_push_steady(s: State, leg: Leg, info: PacketInfo, samples: Option<Seq<Single>>)
    requires
        s.valid(),
        s.asking is Nothing,
        !(s.phase is Failed),
        info.frames > 0,
        info.silent || (samples matches Some(d) && d.len() == 2 * info.frames),
    ensures
        steady(arrived(s, leg, info, samples), s.push(leg, info, samples)),
        s.checked(leg, info).candidate is None ==> unspent(s.checked(leg, info), s.push(leg, info, samples)),
        acceptable(State::payload(info, samples), info.frames as nat) ==> s.push(leg, info, samples).coarse
            == arrived(s, leg, info, samples).with_coarse().coarse,
{
    validity::lemma_checked(s, leg, info);
    reveal(State::delivered);
    if acceptable(State::payload(info, samples), info.frames as nat) {
        lemma_advance_steady(arrived(s, leg, info, samples));
    }
}

/// What a new generation begins with: what still waited is muted, nothing of the search, the candidate
/// or the lock is left, and no spent audio or evidence is carried over. What the last lock has proven
/// is kept.
pub open spec fn begins_anew(s: State, t: State) -> bool {
    &&& t.generation == s.generation + 1
    &&& t.phase is Aligning || t.phase is Failed
    &&& t.offset is None
    &&& t.candidate is None
    &&& t.in_flight is None
    &&& t.outbox is None
    &&& t.next_job_id == s.next_job_id
    &&& t.proven == s.proven
    &&& t.locks == s.locks
    &&& t.gain == s.gain
    &&& t.delay == s.delay
    &&& t.last_reject == s.last_reject
    &&& t.active_unlocked == 0
    &&& t.mismatches == 0
    &&& t.rejected == s.rejected
    &&& t.next_calib == s.ep.log.len()
    &&& t.monitor_fresh == 0
    &&& t.monitor_rejects == 0
    &&& t.monitor.cap == s.monitor.cap
    &&& t.monitor.gain_left.len() == 0 && t.monitor.gain_right.len() == 0
    &&& t.monitor.delay_left.len() == 0 && t.monitor.delay_right.len() == 0
    &&& t.ep.gen_start == s.ep.log.len()
    &&& t.rf.gen_start == s.rf.log.len()
    &&& t.ep.start >= s.ep.log.len()
    &&& t.rf.start >= s.rf.log.len()
    &&& t.emitted.len() >= s.ep.log.len()
    &&& t.emitted.take(s.emitted.len() as int) == s.emitted
    &&& forall|k: int| s.emitted.len() <= k < s.ep.log.len() ==> (#[trigger] t.emitted[k]) is Muted
}

proof fn lemma_begins_anew(s: State, leg: Leg, info: PacketInfo, samples: Option<Seq<Single>>, why: Seq<char>)
    requires
        s.valid(),
        s.asking is Nothing,
        !(s.phase is Failed),
        info.frames > 0,
        info.silent || (samples matches Some(d) && d.len() == 2 * info.frames),
        ({
            let c = s.checked(leg, info);
            &&& c == (State { discontinuities: c.discontinuities, timeline_gaps: c.timeline_gaps, ..s }).reset(why)
        }),
    ensures
        begins_anew(s, s.push(leg, info, samples)),
        s.push(leg, info, samples).timeline_gaps == s.checked(leg, info).timeline_gaps,
        s.push(leg, info, samples).discontinuities == s.checked(leg, info).discontinuities,
{
    lemma_push_steady(s, leg, info, samples);
    reveal(State::reset);
    let c = s.checked(leg, info);
    let t = s.push(leg, info, samples);
    assert(c.emitted == s.emitted + Seq::new(s.buffered() as nat, |k: int| OutFrame::Muted));
    assert forall|k: int| s.emitted.len() <= k < s.ep.log.len() implies (#[trigger] t.emitted[k]) is Muted by {
        assert(t.emitted[k] == c.emitted[k]);
    }
    assert(t.emitted.take(s.emitted.len() as int) =~= s.emitted);
}

/// A packet by the audio engine's clock ends the generation where the previous packet of its leg was
/// stamped by that clock too, and the time between the two differs from the frames between them by
/// more than that clock's tolerance, either way. A frame lasts 625 thirds of 100 ns. This is the one
/// sign of packets that were lost without a word.
pub proof fn lost_packets_are_seen_by_engine_time(
    s: State,
    leg: Leg,
    info: PacketInfo,
    samples: Option<Seq<Single>>,
    last: Stamp,
    t: u64,
)
    requires
        s.valid(),
        s.asking is Nothing,
        !(s.phase is Failed),
        info.frames > 0,
        info.silent || (samples matches Some(d) && d.len() == 2 * info.frames),
        !info.discontinuity,
        info.engine_qpc_100ns == Some(t),
        match leg {
            Leg::Endpoint => s.ep.last == Some(last),
            Leg::Reference => s.rf.last == Some(last),
        },
        last.kind is Engine,
        ({
            let index = match leg {
                Leg::Endpoint => s.ep.log.len(),
                Leg::Reference => s.rf.log.len(),
            };
            let late = 3 * (t - last.t) - 625 * (index - last.index);
            late > 3 * s.cfg.gap_tolerance_engine_100ns || late < -3 * s.cfg.gap_tolerance_engine_100ns
        }),
    ensures
        s.push(leg, info, samples).timeline_gaps == s.timeline_gaps + 1,
        s.push(leg, info, samples).generation == s.generation + 1,
        s.push(leg, info, samples).discontinuities == s.discontinuities,
        begins_anew(s, s.push(leg, info, samples)),
{
    reveal(State::checked);
    reveal(State::reset);
    let now = crate::state::stamped(info, s.leg(leg).end());
    lemma_begins_anew(
        s,
        leg,
        info,
        samples,
        crate::reasons::jumped(leg, crate::state::lateness(last, now)),
    );
}

/// The same by the host's clock, where neither the packet nor the previous one of its leg has an
/// engine time: then the tolerance is the one of read times.
pub proof fn lost_packets_are_seen_by_read_time(
    s: State,
    leg: Leg,
    info: PacketInfo,
    samples: Option<Seq<Single>>,
    last: Stamp,
)
    requires
        s.valid(),
        s.asking is Nothing,
        !(s.phase is Failed),
        info.frames > 0,
        info.silent || (samples matches Some(d) && d.len() == 2 * info.frames),
        !info.discontinuity,
        info.engine_qpc_100ns is None,
        match leg {
            Leg::Endpoint => s.ep.last == Some(last),
            Leg::Reference => s.rf.last == Some(last),
        },
        last.kind is Read,
        ({
            let index = match leg {
                Leg::Endpoint => s.ep.log.len(),
                Leg::Reference => s.rf.log.len(),
            };
            let late = 3 * (info.read_qpc_100ns - last.t) - 625 * (index - last.index);
            late > 3 * s.cfg.gap_tolerance_read_100ns || late < -3 * s.cfg.gap_tolerance_read_100ns
        }),
    ensures
        s.push(leg, info, samples).timeline_gaps == s.timeline_gaps + 1,
        s.push(leg, info, samples).generation == s.generation + 1,
        s.push(leg, info, samples).discontinuities == s.discontinuities,
        begins_anew(s, s.push(leg, info, samples)),
{
    reveal(State::checked);
    reveal(State::reset);
    let now = crate::state::stamped(info, s.leg(leg).end());
    lemma_begins_anew(
        s,
        leg,
        info,
        samples,
        crate::reasons::jumped(leg, crate::state::lateness(last, now)),
    );
}

/// A packet that is flagged to come behind lost frames ends the generation, whatever its time says.
pub proof fn a_flagged_loss_ends_the_generation(
    s: State,
    leg: Leg,
    info: PacketInfo,
    samples: Option<Seq<Single>>,
)
    requires
        s.valid(),
        s.asking is Nothing,
        !(s.phase is Failed),
        info.frames > 0,
        info.silent || (samples matches Some(d) && d.len() == 2 * info.frames),
        info.discontinuity,
    ensures
        s.push(leg, info, samples).discontinuities == s.discontinuities + 1,
        s.push(leg, info, samples).generation == s.generation + 1,
        s.push(leg, info, samples).timeline_gaps == s.timeline_gaps,
        begins_anew(s, s.push(leg, info, samples)),
{
    reveal(State::checked);
    reveal(State::reset);
    lemma_begins_anew(s, leg, info, samples, crate::reasons::discontinuity(leg));
}

/// Any other packet keeps the generation: the first of its leg, one by another clock than the previous
/// one, or one whose time is within the tolerance of their clock. The counts of losses, the lock and
/// what it has proven stay, and so does where the generation began.
pub proof fn a_packet_in_time_keeps_the_generation(
    s: State,
    leg: Leg,
    info: PacketInfo,
    samples: Option<Seq<Single>>,
)
    requires
        s.valid(),
        s.asking is Nothing,
        !(s.phase is Failed),
        info.frames > 0,
        info.silent || (samples matches Some(d) && d.len() == 2 * info.frames),
        !info.discontinuity,
        ({
            let (index, before) = match leg {
                Leg::Endpoint => (s.ep.log.len(), s.ep.last),
                Leg::Reference => (s.rf.log.len(), s.rf.last),
            };
            match before {
                None => true,
                Some(last) => match (last.kind, info.engine_qpc_100ns) {
                    (TimeKind::Engine, Some(t)) => {
                        let late = 3 * (t - last.t) - 625 * (index - last.index);
                        -3 * s.cfg.gap_tolerance_engine_100ns <= late <= 3 * s.cfg.gap_tolerance_engine_100ns
                    },
                    (TimeKind::Read, None) => {
                        let late = 3 * (info.read_qpc_100ns - last.t) - 625 * (index - last.index);
                        -3 * s.cfg.gap_tolerance_read_100ns <= late <= 3 * s.cfg.gap_tolerance_read_100ns
                    },
                    _ => true,
                },
            }
        }),
    ensures
        ({
            let t = s.push(leg, info, samples);
            &&& t.timeline_gaps == s.timeline_gaps
            &&& t.discontinuities == s.discontinuities
            &&& t.generation == s.generation
            &&& t.offset == s.offset
            &&& t.proven == s.proven
            &&& t.locks == s.locks
            &&& t.in_flight == s.in_flight
            &&& t.phase == s.phase || t.phase is Failed
            &&& t.monitor == s.monitor
            &&& t.monitor_fresh == s.monitor_fresh
            &&& t.monitor_rejects == s.monitor_rejects
            &&& t.ep.gen_start == s.ep.gen_start
            &&& t.rf.gen_start == s.rf.gen_start
            &&& s.ep.anchor is Some ==> t.ep.anchor == s.ep.anchor
            &&& s.rf.anchor is Some ==> t.rf.anchor == s.rf.anchor
            &&& s.coarse is Some ==> t.coarse == s.coarse
            &&& s.emitted.is_prefix_of(t.emitted)
            &&& t.outbox == s.outbox || t.phase is Failed
            &&& t.next_job_id == s.next_job_id
            &&& t.gain == s.gain && t.delay == s.delay
            &&& s.candidate is None ==> {
                &&& t.candidate is None
                &&& t.next_calib == s.next_calib
                &&& t.active_unlocked == s.active_unlocked
                &&& t.mismatches == s.mismatches
                &&& t.rejected == s.rejected
                &&& t.last_reject == s.last_reject
            }
        }),
{
    reveal(State::checked);
    lemma_push_steady(s, leg, info, samples);
}

/// A packet that is not flagged silent, and with frames, is malformed where it has no samples or not
/// two for each frame: it ends the session, and nothing of it is kept.
pub proof fn a_malformed_packet_ends_the_session(
    s: State,
    leg: Leg,
    info: PacketInfo,
    samples: Option<Seq<Single>>,
)
    requires
        !(s.phase is Failed),
        info.frames > 0,
        !info.silent,
        samples is None || samples->0.len() != 2 * info.frames,
    ensures
        ({
            let t = s.push(leg, info, samples);
            &&& t.phase is Failed
            &&& t.reason == "malformed "@ + match leg {
                Leg::Endpoint => "endpoint"@,
                Leg::Reference => "reference"@,
            } + " packet"@
            &&& t.ep == s.ep && t.rf == s.rf && t.emitted == s.emitted && t.generation == s.generation
        }),
{
}

/// A packet with a sample whose exponent field is full, an infinity or a NaN, ends the session; its
/// frames are not kept.
pub proof fn a_sample_that_is_not_finite_ends_the_session(
    s: State,
    leg: Leg,
    info: PacketInfo,
    d: Seq<Single>,
    i: int,
)
    requires
        s.valid(),
        s.asking is Nothing,
        !(s.phase is Failed),
        info.frames > 0,
        !info.silent,
        d.len() == 2 * info.frames,
        0 <= i < d.len(),
        d[i].bits / 0x80_0000 % 0x100 == 0xff,
    ensures
        ({
            let t = s.push(leg, info, Some(d));
            &&& t.phase is Failed
            &&& t.reason == "non-finite samples on the "@ + match leg {
                Leg::Endpoint => "endpoint"@,
                Leg::Reference => "reference"@,
            } + " leg"@
            &&& t.ep.log == s.ep.log && t.rf.log == s.rf.log
        }),
{
    a_packet_is_taken_where_every_sample_is_finite(d, info.frames as nat);
    validity::lemma_checked(s, leg, info);
    validity::lemma_checked_breaks(s, leg, info);
    reveal(State::delivered);
}

/// A packet without frames, and any packet behind a failure, changes nothing.
pub proof fn an_empty_packet_changes_nothing(s: State, leg: Leg, info: PacketInfo, samples: Option<Seq<Single>>)
    requires
        s.phase is Failed || info.frames == 0,
    ensures
        s.push(leg, info, samples) == s,
{
}

/// The samples of a packet that is flagged silent mean nothing.
pub proof fn a_silent_packet_has_no_samples(
    s: State,
    leg: Leg,
    info: PacketInfo,
    a: Option<Seq<Single>>,
    b: Option<Seq<Single>>,
)
    requires
        info.silent,
    ensures
        s.push(leg, info, a) == s.push(leg, info, b),
{
}

/// What a good packet leaves on its leg: its frames behind the ones before, sample by sample, zeros
/// where it is silent; the stamp of its first frame, by the audio engine's clock where that gave a
/// time and by the host's clock else; and a history of the last frames, as many as the limit says. The
/// other leg keeps its frames and its last stamp.
pub proof fn a_packet_is_kept_on_its_leg(
    s: State,
    leg: Leg,
    info: PacketInfo,
    samples: Option<Seq<Single>>,
    i: int,
)
    requires
        s.valid(),
        s.asking is Nothing,
        !(s.phase is Failed),
        info.frames > 0,
        info.silent || (samples matches Some(d) && d.len() == 2 * info.frames && forall|j: int|
            0 <= j < d.len() ==> (#[trigger] d[j]).bits / 0x80_0000 % 0x100 != 0xff),
        0 <= i < info.frames,
    ensures
        ({
            let t = s.push(leg, info, samples);
            let (was, now, other_was, other_now) = match leg {
                Leg::Endpoint => (s.ep, t.ep, s.rf, t.rf),
                Leg::Reference => (s.rf, t.rf, s.ep, t.ep),
            };
            let n = was.log.len() as int;
            &&& now.log.len() == n + info.frames
            &&& now.log.take(n) == was.log
            &&& info.silent ==> now.log[n + i].left.bits == 0 && now.log[n + i].right.bits == 0
            &&& !info.silent ==> now.log[n + i].left == samples->0[2 * i] && now.log[n + i].right == samples->0[2
                * i + 1]
            &&& now.last == Some(
                match info.engine_qpc_100ns {
                    Some(time) => Stamp { index: n as u64, t: time, kind: TimeKind::Engine },
                    None => Stamp { index: n as u64, t: info.read_qpc_100ns, kind: TimeKind::Read },
                },
            )
            &&& now.anchor is Some
            &&& (t.generation == s.generation && was.anchor is Some) || now.anchor == now.last
            &&& now.start == if n + info.frames - s.cfg.history_frames > was.start && t.generation == s.generation {
                n + info.frames - s.cfg.history_frames
            } else if t.generation == s.generation {
                was.start
            } else if info.frames > s.cfg.history_frames {
                n + info.frames - s.cfg.history_frames
            } else {
                n
            }
            &&& other_now.log == other_was.log
            &&& other_now.last == other_was.last
            &&& t.generation == s.generation ==> other_now == other_was
            &&& t.generation != s.generation ==> other_now.anchor is None && other_now.start == other_was.log.len()
        }),
{
    let data = State::payload(info, samples);
    if !info.silent {
        a_packet_is_taken_where_every_sample_is_finite(samples->0, info.frames as nat);
    }
    lemma_push_steady(s, leg, info, samples);
    reveal(State::checked);
    reveal(State::reset);
    let t = s.push(leg, info, samples);
    let (was, now) = match leg {
        Leg::Endpoint => (s.ep, t.ep),
        Leg::Reference => (s.rf, t.rf),
    };
    assert(now.log.take(was.log.len() as int) =~= was.log);
}

/// As soon as both legs have delivered a packet in a generation, packet timing gives the offset: the
/// distance of the two first packets in frames, plus the distance of their times, in 625ths of a frame.
/// Before that it gives none.
pub proof fn packet_timing_gives_the_coarse_offset(
    s: State,
    leg: Leg,
    info: PacketInfo,
    samples: Option<Seq<Single>>,
)
    requires
        s.valid(),
        s.asking is Nothing,
        !(s.phase is Failed),
        info.frames > 0,
        info.silent || (samples matches Some(d) && d.len() == 2 * info.frames && forall|j: int|
            0 <= j < d.len() ==> (#[trigger] d[j]).bits / 0x80_0000 % 0x100 != 0xff),
    ensures
        ({
            let t = s.push(leg, info, samples);
            match (t.ep.anchor, t.rf.anchor) {
                (Some(a), Some(b)) => t.coarse == Some(625 * (b.index - a.index) + 3 * (a.t - b.t)),
                _ => t.coarse is None,
            }
        }),
{
    if !info.silent {
        a_packet_is_taken_where_every_sample_is_finite(samples->0, info.frames as nat);
    }
    lemma_push_steady(s, leg, info, samples);
    validity::lemma_checked(s, leg, info);
    reveal(State::checked);
    reveal(State::reset);
}

/// A session that takes no packet of the reference for more endpoint frames of a generation than its
/// limit is ended by the endpoint packet that goes beyond it, and says so.
pub proof fn a_reference_that_never_comes_ends_the_session(s: State, info: PacketInfo, samples: Option<Seq<Single>>)
    requires
        s.valid(),
        s.asking is Nothing,
        s.phase is Aligning,
        s.rf.anchor is None,
        info.frames > 0,
        info.silent || (samples matches Some(d) && d.len() == 2 * info.frames && forall|j: int|
            0 <= j < d.len() ==> (#[trigger] d[j]).bits / 0x80_0000 % 0x100 != 0xff),
    ensures
        ({
            let t = s.push(Leg::Endpoint, info, samples);
            let since = s.ep.log.len() + info.frames - t.ep.gen_start;
            &&& since > s.cfg.reference_absent_frames ==> t.phase is Failed && t.reason
                == "reference leg delivered no packets for "@ + crate::text::one_decimal(
                crate::text::tenths(s.cfg.reference_absent_frames as nat, 48_000),
            ) + " s of endpoint audio (missing packets are not silence)"@
            &&& since <= s.cfg.reference_absent_frames && t.phase is Failed ==> t.ep.log.len() - t.emitted.len()
                > s.cfg.max_pending_frames || s.candidate is Some
        }),
{
    if !info.silent {
        a_packet_is_taken_where_every_sample_is_finite(samples->0, info.frames as nat);
    }
    lemma_push_steady(s, Leg::Endpoint, info, samples);
    validity::lemma_checked(s, Leg::Endpoint, info);
    reveal(State::checked);
    reveal(State::reset);
    reveal(State::delivered);
    reveal(State::advance);
    reveal(State::calibrate);
    reveal(State::seek);
    reveal(State::verify);
    reveal(State::put_out);
    reveal(State::emit_aligning);
}

/// Counters that are not exhausted and indices that stay below 2^60 suffice for a packet of the
/// reference; a packet of the endpoint needs besides that the history holds what waits together with
/// it.
pub proof fn ordinary_packets_are_admitted(s: State, leg: Leg, info: PacketInfo, samples: Option<Seq<Single>>)
    requires
        s.valid(),
        s.asking is Nothing,
        s.generation < u32::MAX && s.locks < u32::MAX && s.rejected < u32::MAX,
        s.discontinuities < u64::MAX && s.timeline_gaps < u64::MAX && s.next_job_id < u64::MAX,
        match leg {
            Leg::Endpoint => s.ep.log.len() + info.frames <= 0x1000_0000_0000_0000 && s.ep.log.len()
                - s.emitted.len() + info.frames <= s.cfg.history_frames,
            Leg::Reference => s.rf.log.len() + info.frames <= 0x1000_0000_0000_0000,
        },
    ensures
        s.admits(leg, info, samples),
{
    if !(s.phase is Failed) {
        validity::lemma_checked(s, leg, info);
    }
}

/// A good packet ends a session that searches, or that it makes search again, only where the reference
/// never came, where more frames are left waiting than is allowed, or where it drops a candidate whose
/// audio is lost behind too much own audio and two mismatches.
#[verifier::rlimit(40)]
pub proof fn a_good_packet_ends_a_search_only_for_cause(
    s: State,
    leg: Leg,
    info: PacketInfo,
    samples: Option<Seq<Single>>,
)
    requires
        s.valid(),
        s.asking is Nothing,
        !(s.phase is Failed),
        s.phase is Aligning || s.push(leg, info, samples).generation != s.generation,
        info.frames > 0,
        info.silent || (samples matches Some(d) && d.len() == 2 * info.frames && forall|j: int|
            0 <= j < d.len() ==> (#[trigger] d[j]).bits / 0x80_0000 % 0x100 != 0xff),
        s.push(leg, info, samples).phase is Failed,
    ensures
        ({
            let t = s.push(leg, info, samples);
            ||| t.rf.anchor is None && t.ep.log.len() - t.ep.gen_start > s.cfg.reference_absent_frames
            ||| t.ep.log.len() - t.emitted.len() > s.cfg.max_pending_frames
            ||| s.candidate is Some && s.active_unlocked > s.cfg.align_timeout_frames && s.mismatches >= 2
        }),
{
    if !info.silent {
        a_packet_is_taken_where_every_sample_is_finite(samples->0, info.frames as nat);
    }
    lemma_push_steady(s, leg, info, samples);
    validity::lemma_checked(s, leg, info);
    validity::lemma_checked_breaks(s, leg, info);
    reveal(State::checked);
    reveal(State::reset);
    reveal(State::delivered);
    reveal(State::advance);
    reveal(State::calibrate);
    reveal(State::seek);
    reveal(State::verify);
    reveal(State::put_out);
    reveal(State::emit_aligning);
}

/// Until both legs have delivered a packet in a generation, a session that searches says that it waits
/// for them.
pub proof fn a_session_says_that_it_waits_for_both_legs(
    s: State,
    leg: Leg,
    info: PacketInfo,
    samples: Option<Seq<Single>>,
)
    requires
        s.valid(),
        s.asking is Nothing,
        !(s.phase is Failed),
        info.frames > 0,
        info.silent || (samples matches Some(d) && d.len() == 2 * info.frames && forall|j: int|
            0 <= j < d.len() ==> (#[trigger] d[j]).bits / 0x80_0000 % 0x100 != 0xff),
        s.push(leg, info, samples).phase is Aligning,
        s.push(leg, info, samples).coarse is None,
    ensures
        s.push(leg, info, samples).reason == "waiting for packets on both legs"@,
{
    if !info.silent {
        a_packet_is_taken_where_every_sample_is_finite(samples->0, info.frames as nat);
    }
    lemma_push_steady(s, leg, info, samples);
    validity::lemma_checked(s, leg, info);
    validity::lemma_checked_breaks(s, leg, info);
    reveal(State::checked);
    reveal(State::reset);
    reveal(State::delivered);
    reveal(State::advance);
    reveal(State::calibrate);
    reveal(State::put_out);
    reveal(State::emit_aligning);
}

/// Whatever happens: a session that goes on, with nothing asked of the host, keeps no more endpoint
/// frames waiting than its limit.
pub proof fn no_more_frames_wait_than_is_allowed(s: State, e: laws::Event)
    requires
        s.valid(),
        s.patient(),
        s.accepts(e),
        s.after(e).asking is Nothing,
        !(s.after(e).phase is Failed),
    ensures
        s.after(e).ep.log.len() - s.after(e).emitted.len() <= s.cfg.max_pending_frames,
        s.after(e).emitted.len() <= s.after(e).ep.log.len(),
{
    laws::every_event_keeps_a_session_sound(s, e);
    reveal(State::leads_to);
}

/// An answer to a question that was not asked changes nothing.
pub proof fn an_answer_that_was_not_asked_for_changes_nothing(
    s: State,
    a: crate::ieee::Double,
    b: crate::ieee::Double,
    c: crate::ieee::Double,
    left: crate::stats::Projection,
    right: crate::stats::Projection,
    summary: crate::stats::SummaryView,
)
    ensures
        !(s.asking is Energy) ==> s.weighed(a, b, c) == s,
        !(s.asking is VerifyFit || s.asking is MonitorFit) ==> s.fitted(left, right) == s,
        !(s.asking is VerifySummary || s.asking is MonitorSummary) ==> s.summarized(summary) == s,
{
}

} // verus!
