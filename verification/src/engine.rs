//! The paired-capture engine: packets in, endpoint minus reference out.
//!
//! Every method is proven to do to the engine what the event of the same name does to its
//! [`State`]. Where sums over samples are needed the engine asks the host: [`Engine::query`] says
//! for what, and the answer goes to [`Engine::weighed`], [`Engine::fitted`] or
//! [`Engine::summarized`]. Packets and job results are taken while nothing is asked.

use crate::align::{AlignJob, AlignOutcome, AlignParams, AlignResult};
use crate::config::{Config, MAX_FRAMES};
use crate::ieee::{Double, Frame, Single};
use crate::leg::LegState;
use crate::output::{every_frame_is_counted_once, Output};
use crate::packet::{Fault, Kinds, Leg, OutFrame, PacketInfo, Phase, Stamp, TimeKind};
use crate::reasons;
use crate::ring::is_all_finite;
use crate::state::{
    lateness, muted_in, passed_in, stamped, subtracted_in, AskView, Bias, CandidateView, Estimates, State,
};
use crate::stats::{Projection, StereoEvidence, StereoView, Summary, Verdict};
use crate::text::round_625ths;
use crate::validity;
use vstd::prelude::*;
use vstd::string::*;

verus! {

struct ProvenBias {
    /// Verified offset minus the timing estimate, in 625ths of a frame.
    bias: i128,
    kinds: Kinds,
}

struct Candidate {
    offset: i64,
    next: u64,
    valid: usize,
    ev: StereoEvidence,
}

impl Candidate {
    spec fn view(self) -> CandidateView {
        CandidateView {
            offset: self.offset as int,
            next: self.next as int,
            valid: self.valid as int,
            ev: self.ev@,
        }
    }
}

#[derive(Clone, Copy)]
enum Asking {
    Nothing,
    Energy { start: u64, center: i64 },
    VerifyFit,
    VerifySummary,
    MonitorFit,
    MonitorSummary,
}

impl Asking {
    spec fn view(self) -> AskView {
        match self {
            Asking::Nothing => AskView::Nothing,
            Asking::Energy { start, center } => AskView::Energy {
                start: start as int,
                center: center as int,
            },
            Asking::VerifyFit => AskView::VerifyFit,
            Asking::VerifySummary => AskView::VerifySummary,
            Asking::MonitorFit => AskView::MonitorFit,
            Asking::MonitorSummary => AskView::MonitorSummary,
        }
    }
}

pub struct Engine {
    cfg: Config,
    ep: LegState,
    rf: LegState,
    out: Output,
    phase: Phase,
    reason: String,
    generation: u32,
    gain: Estimates,
    delay: Estimates,
    locks: u32,
    rejected: u32,
    discontinuities: u64,
    timeline_gaps: u64,
    coarse: Option<i128>,
    proven: Option<ProvenBias>,
    offset: Option<i64>,
    candidate: Option<Candidate>,
    outbox: Option<AlignJob>,
    in_flight: Option<u64>,
    next_job_id: u64,
    next_calib: u64,
    active_unlocked: u64,
    /// Conclusive evidence, this generation, that the endpoint does not carry the reference.
    mismatches: u32,
    last_reject: Option<String>,
    monitor_next: u64,
    monitor: StereoEvidence,
    monitor_fresh: usize,
    monitor_rejects: u32,
    asking: Asking,
}

/// What the host is asked to compute.
pub enum Query {
    /// The energies of the two channels of `reference`, and the energy of `frames` frames at
    /// `min_ref_rms`: for [`Engine::weighed`].
    Energy { reference: Vec<Frame>, frames: usize, min_ref_rms: Double },
    /// The projections of `endpoint` on `reference`, which begins one frame before and ends one
    /// frame behind the frames that it is compared with: for [`Engine::fitted`].
    Fit { endpoint: Vec<Frame>, reference: Vec<Frame>, min_ref_rms: Double },
    /// Means, and intervals of half-width `z` standard errors, gains about one and delays about
    /// zero: for [`Engine::summarized`].
    Summary {
        gain_left: Vec<Double>,
        gain_right: Vec<Double>,
        delay_left: Vec<Double>,
        delay_right: Vec<Double>,
        z: Double,
    },
}

impl Query {
    /// The frames of the sub-block at `start`, and its reference frames.
    pub open spec fn is_fit(self, s: State, start: int, offset: int) -> bool {
        let len = s.cfg.sub_block_frames;
        self matches Query::Fit { endpoint, reference, min_ref_rms } && {
            &&& endpoint@ == s.ep.log.subrange(start, start + len)
            &&& reference@ == s.rf.log.subrange(start + offset - 1, start + offset + len + 1)
            &&& min_ref_rms == s.cfg.min_ref_rms
        }
    }

    pub open spec fn is_summary(self, ev: StereoView, at: Double) -> bool {
        self matches Query::Summary { gain_left, gain_right, delay_left, delay_right, z } && {
            &&& gain_left@ == ev.gain_left
            &&& gain_right@ == ev.gain_right
            &&& delay_left@ == ev.delay_left
            &&& delay_right@ == ev.delay_right
            &&& z == at
        }
    }

    /// This is what the session asks for.
    pub open spec fn asked_by(self, s: State) -> bool {
        match s.asking {
            AskView::Nothing => false,
            AskView::Energy { start, center } => {
                let n = s.cfg.calib_frames;
                let b = s.cfg.search_radius;
                self matches Query::Energy { reference, frames, min_ref_rms } && {
                    &&& reference@ == s.rf.log.subrange(start + center - b, start + center + n + b)
                    &&& frames == n
                    &&& min_ref_rms == s.cfg.min_ref_rms
                }
            },
            AskView::VerifyFit => self.is_fit(s, s.candidate->0.next, s.candidate->0.offset),
            AskView::VerifySummary => self.is_summary(s.candidate->0.ev, s.cfg.verify_z),
            AskView::MonitorFit => self.is_fit(s, s.monitor_next, s.offset->0),
            AskView::MonitorSummary => self.is_summary(s.monitor, s.cfg.monitor_z),
        }
    }
}

/// What a session shows of itself.
#[derive(Clone, Debug)]
pub struct Status {
    pub phase: Phase,
    pub reason: String,
    /// Verified offset (reference index minus endpoint index) while running.
    pub offset_frames: Option<i64>,
    /// Endpoint frames captured but not yet put out.
    pub buffered_frames: u64,
    pub generation: u32,
    /// The offset that packet timing gives, in 625ths of a frame.
    pub coarse_offset_625ths: Option<i128>,
    pub candidate_offset_frames: Option<i64>,
    /// Latest unity-gain estimates (verification or monitor).
    pub gain: Estimates,
    /// Latest fractional-delay estimates (samples).
    pub fractional_delay: Estimates,
    pub endpoint_frames: u64,
    pub reference_frames: u64,
    pub subtracted_frames: u64,
    pub passthrough_frames: u64,
    pub muted_frames: u64,
    pub locks: u32,
    pub rejected_candidates: u32,
    pub discontinuities: u64,
    pub timeline_gaps: u64,
    pub dropped_chunks: u64,
}

impl Status {
    pub open spec fn shows(self, s: State) -> bool {
        &&& self.phase == s.phase
        &&& self.reason@ == s.reason
        &&& match self.offset_frames {
            Some(o) => s.phase is Running && s.offset == Some(o as int),
            None => !(s.phase is Running) || s.offset is None,
        }
        &&& self.buffered_frames == s.buffered()
        &&& self.generation == s.generation
        &&& s.coarse == (match self.coarse_offset_625ths {
            Some(c) => Some(c as int),
            None => None,
        })
        &&& match self.candidate_offset_frames {
            Some(o) => s.candidate matches Some(c) && c.offset == o,
            None => s.candidate is None,
        }
        &&& self.gain == s.gain
        &&& self.fractional_delay == s.delay
        &&& self.endpoint_frames == s.ep.end()
        &&& self.reference_frames == s.rf.end()
        &&& self.subtracted_frames == subtracted_in(s.emitted)
        &&& self.passthrough_frames == passed_in(s.emitted)
        &&& self.muted_frames == muted_in(s.emitted)
        &&& self.locks == s.locks
        &&& self.rejected_candidates == s.rejected
        &&& self.discontinuities == s.discontinuities
        &&& self.timeline_gaps == s.timeline_gaps
        &&& self.dropped_chunks == s.dropped
    }
}

impl Default for Status {
    /// Before a session has begun.
    fn default() -> (r: Status)
        ensures
            r.phase is Aligning,
            r.reason@ == reasons::starting(),
            r.offset_frames is None,
            r.buffered_frames == 0,
            r.generation == 0,
            r.coarse_offset_625ths is None,
            r.candidate_offset_frames is None,
            r.gain == (Estimates { left: None, right: None }),
            r.fractional_delay == (Estimates { left: None, right: None }),
            r.endpoint_frames == 0,
            r.reference_frames == 0,
            r.subtracted_frames == 0,
            r.passthrough_frames == 0,
            r.muted_frames == 0,
            r.locks == 0,
            r.rejected_candidates == 0,
            r.discontinuities == 0,
            r.timeline_gaps == 0,
            r.dropped_chunks == 0,
    {
        Status {
            phase: Phase::Aligning,
            reason: "starting".to_owned(),
            offset_frames: None,
            buffered_frames: 0,
            generation: 0,
            coarse_offset_625ths: None,
            candidate_offset_frames: None,
            gain: Estimates { left: None, right: None },
            fractional_delay: Estimates { left: None, right: None },
            endpoint_frames: 0,
            reference_frames: 0,
            subtracted_frames: 0,
            passthrough_frames: 0,
            muted_frames: 0,
            locks: 0,
            rejected_candidates: 0,
            discontinuities: 0,
            timeline_gaps: 0,
            dropped_chunks: 0,
        }
    }
}

/// The samples of a packet, left out where it is silent, are as many as its frames need.
fn is_well_sized(info: &PacketInfo, data: Option<&[Single]>) -> (r: bool)
    requires
        info.silent ==> data is None,
    ensures
        r == (info.silent || (data matches Some(d) && d@.len() == 2 * info.frames)),
{
    match data {
        Some(d) => d.len() % 2 == 0 && d.len() / 2 == info.frames as usize,
        None => info.silent,
    }
}

/// Puts out endpoint frames up to `upto` as they come out before a lock.
fn put_unlocked(
    out: &mut Output,
    ep: &LegState,
    rf: &LegState,
    window: Option<(i64, i128)>,
    upto: u64,
    Ghost(s): Ghost<State>,
)
    requires
        old(out).wf(),
        ep.wf(),
        rf.wf(),
        s.valid(),
        ep@ == s.ep,
        rf@ == s.rf,
        old(out).emitted() == s.emitted,
        s.quiet_window() == (match window {
            Some((c, ws)) => Some((c as int, ws as int)),
            None => None,
        }),
        window matches Some((c, ws)) ==> 0 <= ws <= i64::MAX,
        window is Some ==> s.ep.start <= s.emitted.len(),
        upto == s.decidable(),
    ensures
        old(out).grows(s.unlocked_frames(s.emitted.len() as int, upto as int), *final(out)),
{
    let from: u64 = out.next();
    let mut i: u64 = from;
    proof {
        out.lemma_grows_nothing();
        assert(s.unlocked_frames(from as int, from as int) =~= Seq::empty());
    }
    while i < upto
        invariant
            from <= i <= upto,
            upto == s.decidable(),
            upto <= MAX_FRAMES,
            from == s.emitted.len(),
            old(out).emitted() == s.emitted,
            ep.wf(),
            rf.wf(),
            ep@ == s.ep,
            rf@ == s.rf,
            s.valid(),
            s.quiet_window() == (match window {
                Some((c, ws)) => Some((c as int, ws as int)),
                None => None,
            }),
            window matches Some((c, ws)) ==> 0 <= ws <= i64::MAX,
            window is Some ==> s.ep.start <= s.emitted.len(),
            old(out).grows(s.unlocked_frames(from as int, i as int), *out),
        decreases upto - i,
    {
        let frame = match window {
            None => OutFrame::Muted,
            Some((center, ws)) => {
                let a: i128 = i as i128 + center as i128 - ws;
                let b: i128 = i as i128 + center as i128 + ws + 1;
                if a >= rf.start() as i128 && rf.silent(a as u64, b as u64) {
                    OutFrame::Passed { endpoint: ep.frame(i) }
                } else {
                    OutFrame::Muted
                }
            },
        };
        assert(frame == s.unlocked_frame(i as int));
        let ghost mid = *out;
        out.emit(frame);
        proof {
            let done = s.unlocked_frames(from as int, i as int);
            old(out).lemma_grows(done, mid, seq![frame], *out);
            assert(done + seq![frame] =~= s.unlocked_frames(from as int, i + 1));
        }
        i = i + 1;
    }
}

/// Puts out endpoint frames up to `upto`, each minus its reference frame.
fn put_differences(
    out: &mut Output,
    ep: &LegState,
    rf: &LegState,
    offset: i64,
    upto: u64,
    Ghost(s): Ghost<State>,
)
    requires
        old(out).wf(),
        ep.wf(),
        rf.wf(),
        s.valid(),
        ep@ == s.ep,
        rf@ == s.rf,
        old(out).emitted() == s.emitted,
        -MAX_FRAMES <= offset <= MAX_FRAMES,
        s.emitted.len() <= upto <= s.ep.end(),
        s.emitted.len() < upto ==> upto + offset <= s.rf.end() && s.rf.start <= s.emitted.len() + offset,
        s.ep.start <= s.emitted.len(),
    ensures
        old(out).grows(s.differences(s.emitted.len() as int, upto as int, offset as int), *final(out)),
{
    let from: u64 = out.next();
    let mut i: u64 = from;
    proof {
        out.lemma_grows_nothing();
        assert(s.differences(from as int, from as int, offset as int) =~= Seq::empty());
    }
    while i < upto
        invariant
            from <= i <= upto,
            from == s.emitted.len(),
            old(out).emitted() == s.emitted,
            ep.wf(),
            rf.wf(),
            ep@ == s.ep,
            rf@ == s.rf,
            s.valid(),
            -MAX_FRAMES <= offset <= MAX_FRAMES,
            upto <= s.ep.end(),
            from < upto ==> upto + offset <= s.rf.end() && s.rf.start <= from + offset,
            s.ep.start <= from,
            old(out).grows(s.differences(from as int, i as int, offset as int), *out),
        decreases upto - i,
    {
        let j: u64 = (i as i128 + offset as i128) as u64;
        let frame = OutFrame::Difference { endpoint: ep.frame(i), reference: rf.frame(j) };
        assert(frame == s.difference(i as int, offset as int));
        let ghost mid = *out;
        out.emit(frame);
        proof {
            let done = s.differences(from as int, i as int, offset as int);
            old(out).lemma_grows(done, mid, seq![frame], *out);
            assert(done + seq![frame] =~= s.differences(from as int, i + 1, offset as int));
        }
        i = i + 1;
    }
}

impl Engine {
    pub closed spec fn view(self) -> State {
        State {
            cfg: self.cfg,
            ep: self.ep@,
            rf: self.rf@,
            phase: self.phase,
            reason: self.reason@,
            generation: self.generation as int,
            gain: self.gain,
            delay: self.delay,
            locks: self.locks as int,
            rejected: self.rejected as int,
            discontinuities: self.discontinuities as int,
            timeline_gaps: self.timeline_gaps as int,
            emitted: self.out.emitted(),
            taken: self.out.taken(),
            dropped: self.out.dropped(),
            coarse: match self.coarse {
                Some(c) => Some(c as int),
                None => None,
            },
            proven: match self.proven {
                Some(p) => Some(Bias { bias: p.bias as int, kinds: p.kinds }),
                None => None,
            },
            offset: match self.offset {
                Some(o) => Some(o as int),
                None => None,
            },
            candidate: match self.candidate {
                Some(c) => Some(c@),
                None => None,
            },
            outbox: match self.outbox {
                Some(j) => Some(j@),
                None => None,
            },
            in_flight: match self.in_flight {
                Some(id) => Some(id as int),
                None => None,
            },
            next_job_id: self.next_job_id as int,
            next_calib: self.next_calib as int,
            active_unlocked: self.active_unlocked as int,
            mismatches: self.mismatches as int,
            last_reject: match self.last_reject {
                Some(r) => Some(r@),
                None => None,
            },
            monitor_next: self.monitor_next as int,
            monitor: self.monitor@,
            monitor_fresh: self.monitor_fresh as int,
            monitor_rejects: self.monitor_rejects as int,
            asking: self.asking@,
        }
    }

    /// The parts are well-formed and sized by the limits.
    pub closed spec fn intact(self) -> bool {
        &&& self.ep.wf()
        &&& self.rf.wf()
        &&& self.out.wf()
        &&& self.monitor.wf()
        &&& self.candidate matches Some(c) ==> c.ev.wf()
        &&& self.ep.capacity() == self.cfg.history_frames
        &&& self.rf.capacity() == self.cfg.history_frames
        &&& self.out.capacity() == self.cfg.max_output_chunks
    }

    pub open spec fn wf(self) -> bool {
        &&& self.intact()
        &&& self@.valid()
        &&& self@.patient()
    }

    /// A session that has not read a packet yet.
    pub fn new(cfg: Config) -> (r: Engine)
        requires
            cfg.sound(),
        ensures
            r.wf(),
            r@ == State::initial(cfg),
    {
        proof {
            validity::lemma_initial(cfg);
        }
        Engine {
            ep: LegState::new(cfg.history_frames),
            rf: LegState::new(cfg.history_frames),
            out: Output::new(cfg.max_output_chunks),
            phase: Phase::Aligning,
            reason: "waiting for both capture legs".to_owned(),
            generation: 0,
            gain: Estimates { left: None, right: None },
            delay: Estimates { left: None, right: None },
            locks: 0,
            rejected: 0,
            discontinuities: 0,
            timeline_gaps: 0,
            coarse: None,
            proven: None,
            offset: None,
            candidate: None,
            outbox: None,
            in_flight: None,
            next_job_id: 1,
            next_calib: 0,
            active_unlocked: 0,
            mismatches: 0,
            last_reject: None,
            monitor_next: 0,
            monitor: StereoEvidence::new(cfg.monitor_window),
            monitor_fresh: 0,
            monitor_rejects: 0,
            asking: Asking::Nothing,
            cfg,
        }
    }

    pub fn config(&self) -> (r: &Config)
        ensures
            *r == self@.cfg,
    {
        &self.cfg
    }

    fn fail(&mut self, why: String)
        requires
            old(self).intact(),
        ensures
            final(self).intact(),
            final(self)@ == old(self)@.failed(why@),
    {
        if self.phase != Phase::Failed {
            self.phase = Phase::Failed;
            self.reason = why;
            self.outbox = None;
            self.candidate = None;
            self.asking = Asking::Nothing;
        }
    }

    fn kinds(&self) -> (r: Option<Kinds>)
        ensures
            r == self@.kinds(),
    {
        match (self.ep.anchor(), self.rf.anchor()) {
            (Some(a), Some(b)) => Some(Kinds { endpoint: a.kind, reference: b.kind }),
            _ => None,
        }
    }

    fn applicable(&self) -> (r: Option<i128>)
        ensures
            self@.applicable() == (match r {
                Some(b) => Some(b as int),
                None => None,
            }),
    {
        match (&self.proven, self.kinds()) {
            (Some(p), Some(k)) => if p.kinds == k {
                Some(p.bias)
            } else {
                None
            },
            _ => None,
        }
    }

    fn search_center(&self) -> (r: Option<i64>)
        requires
            self@.valid(),
        ensures
            self@.center() == (match r {
                Some(c) => Some(c as int),
                None => None,
            }),
            r matches Some(c) ==> -0x7000_0000_0000_0000 <= c <= 0x7000_0000_0000_0000,
    {
        match self.coarse {
            Some(c) => {
                let bias: i128 = match self.applicable() {
                    Some(b) => b,
                    None => 0,
                };
                Some(round_625ths(c + bias) as i64)
            },
            None => None,
        }
    }

    fn emit_aligning(&mut self)
        requires
            old(self).intact(),
            old(self)@.valid(),
            old(self)@.phase is Aligning,
        ensures
            final(self).intact(),
            final(self)@ == old(self)@.emit_aligning(),
    {
        let ghost s = self@;
        let window = match (self.applicable(), self.search_center(), self.kinds()) {
            (Some(_), Some(center), Some(kinds)) => Some((center, self.cfg.passthrough_window(kinds))),
            _ => None,
        };
        let from: u64 = self.out.next();
        let end: u64 = self.ep.end();
        let upto: u64 = match window {
            None => end,
            Some((center, ws)) => {
                let limit: i128 = self.rf.end() as i128 - center as i128 - ws;
                if limit <= from as i128 {
                    from
                } else if limit < end as i128 {
                    limit as u64
                } else {
                    end
                }
            },
        };
        put_unlocked(&mut self.out, &self.ep, &self.rf, window, upto, Ghost(s));
        proof {
            reveal(State::emit_aligning);
        }
    }

    fn emit_running(&mut self)
        requires
            old(self).intact(),
            old(self)@.valid(),
            old(self)@.phase is Running,
        ensures
            final(self).intact(),
            final(self)@ == old(self)@.emit_running(),
    {
        let ghost s = self@;
        proof {
            reveal(State::emit_running);
        }
        if let Some(offset) = self.offset {
            let from: u64 = self.out.next();
            let end: u64 = self.ep.end();
            let needed: i128 = from as i128 + offset as i128;
            if from < end && needed < self.rf.start() as i128 {
                let why = reasons::write_overrun(needed, self.rf.start());
                self.fail(why);
                return;
            }
            let limit: i128 = self.rf.end() as i128 - offset as i128;
            let upto: u64 = if limit <= from as i128 {
                from
            } else if limit < end as i128 {
                limit as u64
            } else {
                end
            };
            put_differences(&mut self.out, &self.ep, &self.rf, offset, upto, Ghost(s));
        }
    }

    fn overflow_check(&mut self)
        requires
            old(self).intact(),
            old(self)@.valid(),
        ensures
            final(self).intact(),
            final(self)@ == old(self)@.overflow_check(),
    {
        let pending: u64 = self.ep.end() - self.out.next();
        if pending > self.cfg.max_pending_frames as u64 {
            let why = reasons::write_overflow(pending, self.cfg.max_pending_frames as u64);
            self.fail(why);
        }
    }

    fn reset_generation(&mut self, why: String)
        requires
            old(self).intact(),
            old(self)@.valid(),
            old(self)@.generation < u32::MAX,
        ensures
            final(self).intact(),
            final(self)@ == old(self)@.reset(why@),
    {
        // Frames still waiting can no longer be proven against a valid mapping.
        let waiting: u64 = self.ep.end() - self.out.next();
        self.out.mute(waiting);
        self.generation = self.generation + 1;
        self.phase = Phase::Aligning;
        self.reason = why;
        self.offset = None;
        self.candidate = None;
        self.outbox = None;
        self.in_flight = None;
        self.coarse = None;
        self.ep.cut();
        self.rf.cut();
        self.next_calib = self.ep.end();
        self.active_unlocked = 0;
        self.mismatches = 0;
        self.monitor.clear();
        self.monitor_fresh = 0;
        self.monitor_rejects = 0;
        proof {
            reveal(State::reset);
        }
    }

    /// Whether the sub-block at `start` is inside both histories: `None` where it was not delivered
    /// yet, `Some(false)` where it is lost.
    fn sub_block_ready(&self, start: u64, offset: i64) -> (r: Option<bool>)
        requires
            self.intact(),
        ensures
            r == self@.ready(start as int, offset as int),
    {
        let len: i128 = self.cfg.sub_block_frames as i128;
        let at: i128 = start as i128 + offset as i128;
        if start as i128 + len > self.ep.end() as i128 || at + len + 1 > self.rf.end() as i128 {
            return None;
        }
        Some(start >= self.ep.start() && at - 1 >= self.rf.start() as i128)
    }

    /// Moves the monitor to the next sub-block that can be measured.
    fn watch(&mut self)
        requires
            old(self).intact(),
            old(self)@.valid(),
            old(self)@.phase is Running,
            old(self)@.asking is Nothing,
        ensures
            final(self).intact(),
            final(self)@ == old(self)@.watch(),
    {
        if let Some(offset) = self.offset {
            let len: u64 = self.cfg.sub_block_frames as u64;
            let next: u64 = self.out.next();
            while len <= next && self.monitor_next <= next - len
                invariant
                    self.intact(),
                    self@.valid(),
                    self@.phase is Running,
                    self@.asking is Nothing,
                    self@.watch() == old(self)@.watch(),
                    self.offset == Some(offset),
                    len == self.cfg.sub_block_frames,
                    next == self@.emitted.len(),
                decreases next - self.monitor_next,
            {
                let ghost before = self@;
                match self.sub_block_ready(self.monitor_next, offset) {
                    None => {
                        return;
                    },
                    Some(true) => {
                        self.asking = Asking::MonitorFit;
                        return;
                    },
                    Some(false) => {
                        if len == 0 {
                            return;
                        }
                        self.monitor_next = self.monitor_next + len;
                        proof {
                            validity::lemma_same_output(before, self@);
                        }
                    },
                }
            }
        }
    }

    fn watched(&mut self)
        requires
            old(self).intact(),
            old(self)@.valid(),
            old(self)@.phase is Running,
            old(self)@.asking is Nothing,
        ensures
            final(self).intact(),
            final(self)@ == old(self)@.watched(),
    {
        proof {
            validity::lemma_watch(self@);
            reveal(State::watched);
        }
        self.watch();
        match self.asking {
            Asking::Nothing => self.overflow_check(),
            _ => {},
        }
    }

    /// Puts out what can be decided, and lets the monitor look at what was subtracted.
    fn put_out(&mut self)
        requires
            old(self).intact(),
            old(self)@.valid(),
            old(self)@.asking is Nothing,
        ensures
            final(self).intact(),
            final(self)@ == old(self)@.put_out(),
    {
        proof {
            reveal(State::put_out);
        }
        match self.phase {
            Phase::Failed => {},
            Phase::Aligning => {
                proof {
                    validity::lemma_emit_aligning(self@);
                }
                self.emit_aligning();
                self.overflow_check();
            },
            Phase::Running => {
                proof {
                    validity::lemma_emit_running(self@);
                }
                self.emit_running();
                if self.phase != Phase::Failed {
                    self.watched();
                }
            },
        }
    }

    fn drop_candidate(&mut self, why: String, mismatch: bool)
        requires
            old(self).intact(),
            old(self)@.valid(),
            old(self)@.candidate is Some,
            old(self)@.rejected < u32::MAX,
        ensures
            final(self).intact(),
            final(self)@ == old(self)@.dropped_candidate(why@, mismatch),
    {
        if let Some(c) = self.candidate.take() {
            if c.next > self.next_calib {
                self.next_calib = c.next;
            }
        }
        self.rejected = self.rejected + 1;
        if mismatch {
            self.mismatches = self.mismatches + 1;
        }
        self.reason = reasons::write_not_locked(why.as_str());
        self.last_reject = Some(why);
        self.asking = Asking::Nothing;
    }

    /// After `align_timeout_frames` of own audio without a lock: evidence that the endpoint does not
    /// carry the reference is a fault; without it the session stays muted and keeps trying.
    fn check_align_timeout(&mut self)
        requires
            old(self).intact(),
            old(self)@.valid(),
        ensures
            final(self).intact(),
            final(self)@ == old(self)@.timed(),
    {
        if self.active_unlocked <= self.cfg.align_timeout_frames {
            return;
        }
        let last: String = match &self.last_reject {
            Some(r) => r.clone(),
            None => "no candidate".to_owned(),
        };
        if self.mismatches >= 2 {
            let why = reasons::write_unverifiable(self.active_unlocked, last.as_str());
            self.fail(why);
        } else {
            self.reason = reasons::write_still_unlocked(self.active_unlocked, last.as_str());
            self.active_unlocked = 0;
        }
    }

    /// Drops the candidate, and goes on without it.
    fn give_up(&mut self, why: String, mismatch: bool)
        requires
            old(self).intact(),
            old(self)@.valid(),
            old(self)@.phase is Aligning,
            old(self)@.candidate is Some,
            old(self)@.rejected < u32::MAX,
        ensures
            final(self).intact(),
            final(self)@ == old(self)@.dropped_candidate(why@, mismatch).timed().put_out(),
    {
        proof {
            validity::lemma_dropped_candidate(self@, why@, mismatch);
            validity::lemma_timed(self@.dropped_candidate(why@, mismatch));
        }
        self.drop_candidate(why, mismatch);
        self.check_align_timeout();
        self.put_out();
    }

    fn poll_verification(&mut self)
        requires
            old(self).intact(),
            old(self)@.valid(),
            old(self)@.phase is Aligning,
            old(self)@.asking is Nothing,
            old(self)@.candidate is Some ==> old(self)@.rejected < u32::MAX,
        ensures
            final(self).intact(),
            final(self)@ == old(self)@.verify(),
    {
        proof {
            reveal(State::verify);
        }
        let at = match &self.candidate {
            Some(c) => Some((c.next, c.offset)),
            None => None,
        };
        match at {
            None => self.put_out(),
            Some((next, offset)) => match self.sub_block_ready(next, offset) {
                None => self.put_out(),
                Some(false) => self.give_up(
                    "held-out history was lost before verification finished".to_owned(),
                    false,
                ),
                Some(true) => {
                    self.asking = Asking::VerifyFit;
                },
            },
        }
    }

    fn seek(&mut self, center: i64)
        requires
            old(self).intact(),
            old(self)@.valid(),
            old(self)@.asking is Nothing,
            -0x7000_0000_0000_0000 <= center <= 0x7000_0000_0000_0000,
        ensures
            final(self).intact(),
            final(self)@ == old(self)@.seek(center as int),
    {
        proof {
            reveal(State::seek);
        }
        let n: i128 = self.cfg.calib_frames as i128;
        let b: i128 = self.cfg.search_radius as i128;
        let behind: i128 = self.rf.start() as i128 - center as i128 + b;
        let mut start: i128 = self.next_calib as i128;
        if start < self.ep.start() as i128 {
            start = self.ep.start() as i128;
        }
        if start < behind {
            start = behind;
        }
        if start + n <= self.ep.end() as i128 && start + center as i128 + n + b <= self.rf.end() as i128 {
            self.asking = Asking::Energy { start: start as u64, center };
        } else {
            self.put_out();
        }
    }

    fn poll_calibration(&mut self)
        requires
            old(self).intact(),
            old(self)@.valid(),
            old(self)@.phase is Aligning,
            old(self)@.asking is Nothing,
            old(self)@.candidate is Some ==> old(self)@.rejected < u32::MAX,
        ensures
            final(self).intact(),
            final(self)@ == old(self)@.calibrate(),
    {
        proof {
            reveal(State::calibrate);
        }
        if self.candidate.is_some() || self.in_flight.is_some() {
            self.poll_verification();
            return;
        }
        match self.search_center() {
            None => {
                self.reason = "waiting for packets on both legs".to_owned();
                proof {
                    validity::lemma_same_output(old(self)@, self@);
                }
                self.put_out();
            },
            Some(center) => self.seek(center),
        }
    }

    fn advance(&mut self)
        requires
            old(self).intact(),
            old(self)@.valid(),
            old(self)@.asking is Nothing,
            old(self)@.candidate is Some ==> old(self)@.rejected < u32::MAX,
        ensures
            final(self).intact(),
            final(self)@ == old(self)@.advance(),
    {
        proof {
            reveal(State::advance);
        }
        if self.coarse.is_none() {
            if let (Some(a), Some(b)) = (self.ep.anchor(), self.rf.anchor()) {
                self.coarse = Some(
                    625 * (b.index as i128 - a.index as i128) + 3 * (a.t as i128 - b.t as i128),
                );
            }
        }
        proof {
            validity::lemma_same_output(old(self)@, self@);
            assert(self@ == old(self)@.with_coarse());
            assert(self@.valid());
        }
        if self.phase == Phase::Aligning {
            if self.rf.anchor().is_none() && self.ep.end() - self.ep.gen_start()
                > self.cfg.reference_absent_frames {
                let why = reasons::write_absent(self.cfg.reference_absent_frames);
                self.fail(why);
            } else {
                self.poll_calibration();
            }
        } else {
            self.put_out();
        }
    }

    /// The result of an event: a fault where the session has failed.
    fn outcome(&self) -> (r: Result<(), Fault>)
        ensures
            r is Err <==> self@.phase is Failed,
            r matches Err(f) ==> f.0@ == self@.reason,
    {
        if self.phase == Phase::Failed {
            Err(Fault(self.reason.clone()))
        } else {
            Ok(())
        }
    }

    /// Nothing is asked of the host.
    pub fn settled(&self) -> (r: bool)
        ensures
            r == (self@.asking is Nothing),
    {
        match self.asking {
            Asking::Nothing => true,
            _ => false,
        }
    }

    /// Whether the counters can take one more event.
    pub fn has_room(&self) -> (r: bool)
        ensures
            r == self@.room(),
    {
        self.generation < u32::MAX && self.locks < u32::MAX && self.rejected < u32::MAX
            && self.discontinuities < u64::MAX && self.timeline_gaps < u64::MAX && self.next_job_id
            < u64::MAX
    }

    /// The time of a packet of `leg`, with the index of its first frame.
    fn stamp(&self, leg: Leg, info: &PacketInfo) -> (r: Stamp)
        requires
            self.intact(),
            self@.valid(),
        ensures
            r == stamped(*info, self@.leg(leg).end()),
    {
        let index: u64 = match leg {
            Leg::Endpoint => self.ep.end(),
            Leg::Reference => self.rf.end(),
        };
        match info.engine_qpc_100ns {
            Some(t) => Stamp { index, t, kind: TimeKind::Engine },
            None => Stamp { index, t: info.read_qpc_100ns, kind: TimeKind::Read },
        }
    }

    /// How late the packet stamped `now` is, where that is more than its clock allows.
    fn jump(&self, leg: Leg, now: Stamp) -> (r: Option<i128>)
        ensures
            r is Some <==> self@.jumps(leg, now),
            r matches Some(late) ==> late == lateness(self@.leg(leg).last->0, now),
    {
        let last = match leg {
            Leg::Endpoint => self.ep.last(),
            Leg::Reference => self.rf.last(),
        };
        match last {
            Some(last) => {
                if last.kind != now.kind {
                    return None;
                }
                let late: i128 = 3 * (now.t as i128 - last.t as i128) - 625 * (now.index as i128
                    - last.index as i128);
                let bound: i128 = 3 * (self.cfg.tolerance(now.kind) as i128);
                if late > bound || -late > bound {
                    Some(late)
                } else {
                    None
                }
            },
            None => None,
        }
    }

    /// No bias applies behind an endpoint packet stamped `now` that continues its leg.
    fn stays_muted(&self, now: Stamp) -> (r: bool)
        ensures
            r == (match (self@.proven, self@.rf.anchor) {
                (Some(p), Some(b)) => p.kinds != (Kinds {
                    endpoint: match self@.ep.anchor {
                        Some(a) => a.kind,
                        None => now.kind,
                    },
                    reference: b.kind,
                }),
                _ => true,
            }),
    {
        match (&self.proven, self.rf.anchor()) {
            (Some(p), Some(b)) => {
                let endpoint = match self.ep.anchor() {
                    Some(a) => a.kind,
                    None => now.kind,
                };
                p.kinds != Kinds { endpoint, reference: b.kind }
            },
            _ => true,
        }
    }

    /// Whether a packet can be pushed.
    pub fn can_take(&self, leg: Leg, info: &PacketInfo, samples: Option<&[Single]>) -> (r: bool)
        requires
            self.wf(),
        ensures
            r == self@.admits(
                leg,
                *info,
                match samples {
                    Some(d) => Some(d@),
                    None => None,
                },
            ),
    {
        let data = if info.silent {
            None
        } else {
            samples
        };
        if self.phase == Phase::Failed || info.frames == 0 || !is_well_sized(info, data) {
            return true;
        }
        let now = self.stamp(leg, info);
        let broken = info.discontinuity || self.jump(leg, now).is_some();
        proof {
            validity::lemma_checked_breaks(self@, leg, *info);
        }
        if !self.has_room() || now.index + info.frames as u64 > MAX_FRAMES {
            return false;
        }
        if leg == Leg::Reference || broken {
            return true;
        }
        let waiting: u64 = self.ep.end() - self.out.next();
        if waiting + info.frames as u64 <= self.cfg.history_frames as u64 {
            return true;
        }
        if self.phase == Phase::Aligning && self.candidate.is_none() && self.stays_muted(now) {
            return true;
        }
        match data {
            Some(d) => !is_all_finite(d),
            None => false,
        }
    }

    /// Ends the generation where the packet tells of lost frames, or its time disagrees with the
    /// previous packet of its leg.
    fn check_timeline(&mut self, leg: Leg, info: &PacketInfo, now: Stamp)
        requires
            old(self).intact(),
            old(self)@.valid(),
            old(self)@.room(),
            old(self)@.asking is Nothing,
            now == stamped(*info, old(self)@.leg(leg).end()),
        ensures
            final(self).intact(),
            final(self)@ == old(self)@.checked(leg, *info),
    {
        proof {
            reveal(State::checked);
        }
        if info.discontinuity {
            self.discontinuities = self.discontinuities + 1;
            proof {
                validity::lemma_same_output(old(self)@, self@);
            }
            self.reset_generation(reasons::write_discontinuity(leg));
            return;
        }
        if let Some(late) = self.jump(leg, now) {
            self.timeline_gaps = self.timeline_gaps + 1;
            proof {
                validity::lemma_same_output(old(self)@, self@);
            }
            self.reset_generation(reasons::write_jumped(leg, late));
        }
    }

    /// Takes the packet into its leg, and goes on.
    fn deliver(&mut self, leg: Leg, info: &PacketInfo, data: Option<&[Single]>, now: Stamp)
        requires
            old(self).intact(),
            old(self)@.valid(),
            old(self)@.rejected < u32::MAX,
            old(self)@.asking is Nothing,
            !(old(self)@.phase is Failed),
            old(self)@.ep.start <= old(self)@.emitted.len(),
            old(self)@.takes(
                leg,
                *info,
                match data {
                    Some(d) => Some(d@),
                    None => None,
                },
            ),
            now == stamped(*info, old(self)@.leg(leg).end()),
        ensures
            final(self).intact(),
            final(self)@ == old(self)@.delivered(
                leg,
                *info,
                match data {
                    Some(d) => Some(d@),
                    None => None,
                },
            ),
    {
        let ghost brought = match data {
            Some(d) => Some(d@),
            None => None,
        };
        let ghost s = self@;
        proof {
            reveal(State::delivered);
        }
        let taken = match leg {
            Leg::Endpoint => self.ep.take_in(now, data, info.frames as usize),
            Leg::Reference => self.rf.take_in(now, data, info.frames as usize),
        };
        if taken.is_err() {
            self.fail(reasons::write_non_finite(leg));
            return;
        }
        proof {
            validity::lemma_taken_in(s, leg, *info, brought);
        }
        self.advance();
    }

    /// Feeds one packet. `samples` holds left and right in turn, and is needed unless the packet is
    /// silent.
    pub fn push(&mut self, leg: Leg, info: &PacketInfo, samples: Option<&[Single]>) -> (r: Result<(), Fault>)
        requires
            old(self).wf(),
            old(self)@.asking is Nothing,
            old(self)@.admits(
                leg,
                *info,
                match samples {
                    Some(d) => Some(d@),
                    None => None,
                },
            ),
        ensures
            final(self).wf(),
            final(self)@ == old(self)@.push(
                leg,
                *info,
                match samples {
                    Some(d) => Some(d@),
                    None => None,
                },
            ),
            r is Err <==> final(self)@.phase is Failed,
            r matches Err(f) ==> f.0@ == final(self)@.reason,
    {
        let ghost s = self@;
        let ghost given = match samples {
            Some(d) => Some(d@),
            None => None,
        };
        proof {
            validity::lemma_push(s, leg, *info, given);
        }
        if self.phase == Phase::Failed || info.frames == 0 {
            return self.outcome();
        }
        let data = if info.silent {
            None
        } else {
            samples
        };
        if !is_well_sized(info, data) {
            self.fail(reasons::write_malformed(leg));
            return self.outcome();
        }
        let now = self.stamp(leg, info);
        proof {
            validity::lemma_checked(s, leg, *info);
        }
        self.check_timeline(leg, info, now);
        self.deliver(leg, info, data, now);
        self.outcome()
    }

    /// Returns a finished search job. A result that is not awaited is ignored.
    pub fn complete_job(&mut self, result: AlignResult) -> (r: Result<(), Fault>)
        requires
            old(self).wf(),
            old(self)@.asking is Nothing,
            old(self)@.phase is Failed || old(self)@.room(),
        ensures
            final(self).wf(),
            final(self)@ == old(self)@.complete_job(
                result.id as int,
                result.generation as int,
                result.outcome@,
            ),
            r is Err <==> final(self)@.phase is Failed,
            r matches Err(f) ==> f.0@ == final(self)@.reason,
    {
        let ghost s = self@;
        proof {
            validity::lemma_complete_job(
                s,
                result.id as int,
                result.generation as int,
                result.outcome@,
            );
        }
        let awaited = match self.in_flight {
            Some(id) => id == result.id,
            None => false,
        };
        if self.phase == Phase::Failed || result.generation != self.generation || !awaited {
            return self.outcome();
        }
        self.in_flight = None;
        match result.outcome {
            AlignOutcome::Candidate { offset, peak, runner_up } => {
                self.reason = reasons::write_verifying(
                    offset,
                    peak.text.as_str(),
                    runner_up.text.as_str(),
                );
                self.candidate = Some(
                    Candidate {
                        offset,
                        next: self.next_calib,
                        valid: 0,
                        ev: StereoEvidence::new(self.cfg.max_verify_sub_blocks),
                    },
                );
                proof {
                    validity::lemma_same_output(s, self@);
                }
                self.advance();
            },
            AlignOutcome::Rejected { reason, mismatch } => {
                self.rejected = self.rejected + 1;
                if mismatch {
                    self.mismatches = self.mismatches + 1;
                }
                self.reason = reasons::write_not_locked(reason.as_str());
                self.last_reject = Some(reason);
                proof {
                    validity::lemma_same_output(s, self@);
                    validity::lemma_timed(self@);
                }
                self.check_align_timeout();
                if self.phase != Phase::Failed {
                    self.advance();
                }
            },
        }
        self.outcome()
    }

    /// What the host is asked to compute, where the session waits for it.
    pub fn query(&self) -> (r: Option<Query>)
        requires
            self.wf(),
        ensures
            r is Some <==> !(self@.asking is Nothing),
            r matches Some(q) ==> q.asked_by(self@),
    {
        match self.asking {
            Asking::Nothing => None,
            Asking::Energy { start, center } => {
                let n: i128 = self.cfg.calib_frames as i128;
                let b: i128 = self.cfg.search_radius as i128;
                let from: i128 = start as i128 + center as i128 - b;
                let to: i128 = start as i128 + center as i128 + n + b;
                Some(
                    Query::Energy {
                        reference: self.rf.frames(from as u64, to as u64),
                        frames: self.cfg.calib_frames,
                        min_ref_rms: self.cfg.min_ref_rms,
                    },
                )
            },
            Asking::VerifyFit => match &self.candidate {
                Some(c) => Some(self.fit_query(c.next, c.offset)),
                None => None,
            },
            Asking::VerifySummary => match &self.candidate {
                Some(c) => Some(self.summary_query(&c.ev, self.cfg.verify_z)),
                None => None,
            },
            Asking::MonitorFit => match self.offset {
                Some(offset) => Some(self.fit_query(self.monitor_next, offset)),
                None => None,
            },
            Asking::MonitorSummary => Some(self.summary_query(&self.monitor, self.cfg.monitor_z)),
        }
    }

    fn fit_query(&self, start: u64, offset: i64) -> (r: Query)
        requires
            self.intact(),
            self@.valid(),
            self@.ready(start as int, offset as int) == Some(true),
        ensures
            r.is_fit(self@, start as int, offset as int),
    {
        let len: u64 = self.cfg.sub_block_frames as u64;
        let at: i128 = start as i128 + offset as i128;
        Query::Fit {
            endpoint: self.ep.frames(start, start + len),
            reference: self.rf.frames((at - 1) as u64, (at + len as i128 + 1) as u64),
            min_ref_rms: self.cfg.min_ref_rms,
        }
    }

    fn summary_query(&self, ev: &StereoEvidence, z: Double) -> (r: Query)
        ensures
            r.is_summary(ev@, z),
    {
        let (gain_left, gain_right, delay_left, delay_right) = ev.values();
        Query::Summary { gain_left, gain_right, delay_left, delay_right, z }
    }

    /// Sends the search job on the block at `start`.
    fn post(&mut self, start: u64, center: i64)
        requires
            old(self).intact(),
            old(self)@.valid(),
            old(self)@.next_job_id < u64::MAX,
            old(self)@.asking == (AskView::Energy { start: start as int, center: center as int }),
        ensures
            final(self).intact(),
            final(self)@ == old(self)@.posted(start as int, center as int),
    {
        let n: u64 = self.cfg.calib_frames as u64;
        let b: i128 = self.cfg.search_radius as i128;
        let from: i128 = start as i128 + center as i128 - b;
        let to: i128 = start as i128 + center as i128 + n as i128 + b;
        proof {
            self.ep.lemma_wf();
            self.rf.lemma_wf();
        }
        let id: u64 = self.next_job_id;
        self.outbox = Some(
            AlignJob {
                id,
                generation: self.generation,
                endpoint_start: start,
                base_offset: (center as i128 - b) as i64,
                endpoint: self.ep.samples(start, start + n),
                reference: self.rf.samples(from as u64, to as u64),
                params: AlignParams {
                    ambiguity_ratio: self.cfg.ambiguity_ratio,
                    min_peak_correlation: self.cfg.min_peak_correlation,
                    lobe_guard: self.cfg.lobe_guard,
                    edge_guard: self.cfg.edge_guard,
                },
            },
        );
        self.next_job_id = id + 1;
        self.in_flight = Some(id);
        self.active_unlocked = self.active_unlocked + n;
        // Held-out verification starts behind the block: disjoint audio.
        self.next_calib = start + n;
        self.reason = "searching for the integer offset".to_owned();
        self.asking = Asking::Nothing;
    }

    /// Answers an energy query: the energies of the two reference channels, and the threshold, which
    /// is the energy of the queried number of frames at the least RMS.
    pub fn weighed(&mut self, left: Double, right: Double, threshold: Double) -> (r: Result<(), Fault>)
        requires
            old(self).wf(),
            old(self)@.phase is Failed || old(self)@.room(),
        ensures
            final(self).wf(),
            final(self)@ == old(self)@.weighed(left, right, threshold),
            r is Err <==> final(self)@.phase is Failed,
            r matches Err(f) ==> f.0@ == final(self)@.reason,
    {
        let ghost s = self@;
        proof {
            validity::lemma_weighed(s, left, right, threshold);
        }
        if let Asking::Energy { start, center } = self.asking {
            if threshold.gt(left) && threshold.gt(right) {
                // Nothing to align on here: slide on without spending the timeout.
                self.next_calib = start + (self.cfg.calib_frames / 2) as u64;
                if !reasons::starts_with(self.reason.as_str(), "not locked") {
                    self.reason = "waiting for own audio to align on (reference silent)".to_owned();
                }
                self.asking = Asking::Nothing;
                proof {
                    assert(self@ == s.slid(start as int));
                    validity::lemma_same_output(s, self@);
                }
                self.seek(center);
            } else {
                self.post(start, center);
                proof {
                    validity::lemma_same_output(s, self@);
                }
                self.put_out();
            }
        }
        self.outcome()
    }

    fn fit_candidate(&mut self, left: &Projection, right: &Projection)
        requires
            old(self).intact(),
            old(self)@.valid(),
            old(self)@.asking is VerifyFit,
        ensures
            final(self).intact(),
            final(self)@ == old(self)@.measured(*left, *right),
    {
        if let Some(mut c) = self.candidate.take() {
            let len: u64 = self.cfg.sub_block_frames as u64;
            c.next = c.next + len;
            if c.ev.push(&left.fit(), &right.fit()) {
                c.valid = c.valid + 1;
                self.active_unlocked = self.active_unlocked + len;
            }
            self.candidate = Some(c);
            self.asking = Asking::VerifySummary;
        }
    }

    fn fit_monitor(&mut self, left: &Projection, right: &Projection)
        requires
            old(self).intact(),
            old(self)@.valid(),
            old(self)@.asking is MonitorFit,
        ensures
            final(self).intact(),
            final(self)@ == old(self)@.monitored(*left, *right),
    {
        proof {
            reveal(State::monitored);
        }
        self.monitor_next = self.monitor_next + self.cfg.sub_block_frames as u64;
        if self.monitor.push(&left.fit(), &right.fit()) {
            self.asking = Asking::MonitorSummary;
        } else {
            self.asking = Asking::Nothing;
            proof {
                validity::lemma_same_output(old(self)@, self@);
            }
            self.watched();
        }
    }

    /// Answers a fit query with the projections of the two channels.
    pub fn fitted(&mut self, left: &Projection, right: &Projection) -> (r: Result<(), Fault>)
        requires
            old(self).wf(),
        ensures
            final(self).wf(),
            final(self)@ == old(self)@.fitted(*left, *right),
            r is Err <==> final(self)@.phase is Failed,
            r matches Err(f) ==> f.0@ == final(self)@.reason,
    {
        proof {
            validity::lemma_fitted(self@, *left, *right);
        }
        match self.asking {
            Asking::VerifyFit => self.fit_candidate(left, right),
            Asking::MonitorFit => self.fit_monitor(left, right),
            _ => {},
        }
        self.outcome()
    }

    /// Locks at the offset of the candidate.
    fn lock(&mut self, estimates: &str)
        requires
            old(self).intact(),
            old(self)@.valid(),
            old(self)@.asking is VerifySummary,
            old(self)@.locks < u32::MAX,
        ensures
            final(self).intact(),
            final(self)@ == old(self)@.locked(estimates@),
    {
        let applicable = self.applicable();
        if let (Some(c), Some(coarse), Some(kinds)) = (&self.candidate, self.coarse, self.kinds()) {
            let offset: i64 = c.offset;
            let bias: i128 = 625 * (offset as i128) - coarse;
            if let Some(was) = applicable {
                let bound: i128 = self.cfg.passthrough_window(kinds);
                if bias - was > 625 * bound || was - bias > 625 * bound {
                    let why = reasons::write_moved(bias - was, bound);
                    self.fail(why);
                    return;
                }
            }
            self.candidate = None;
            self.proven = Some(ProvenBias { bias, kinds });
            self.offset = Some(offset);
            self.phase = Phase::Running;
            self.locks = self.locks + 1;
            self.reason = reasons::write_locked(offset, bias, estimates);
            self.monitor_next = self.out.next();
            self.monitor.clear();
            self.monitor_fresh = 0;
            self.monitor_rejects = 0;
            self.asking = Asking::Nothing;
        }
    }

    fn judge_candidate(&mut self, summary: &Summary)
        requires
            old(self).intact(),
            old(self)@.valid(),
            old(self)@.asking is VerifySummary,
            old(self)@.room(),
        ensures
            final(self).intact(),
            final(self)@ == old(self)@.judged(summary@),
    {
        let ghost s = self@;
        proof {
            reveal(State::judged);
            validity::lemma_with_estimates(s, s.candidate->0.ev, summary@);
        }
        if let Some(c) = &self.candidate {
            let offset: i64 = c.offset;
            let full = c.valid >= self.cfg.max_verify_sub_blocks;
            let verdict = c.ev.verdict(summary, &self.cfg.limits());
            let (gain_left, gain_right) = c.ev.gains(summary);
            let (delay_left, delay_right) = c.ev.delays(summary);
            self.gain = Estimates { left: gain_left, right: gain_right };
            self.delay = Estimates { left: delay_left, right: delay_right };
            let text = summary.text.as_str();
            match verdict {
                Verdict::Accept => {
                    proof {
                        validity::lemma_locked(self@, text@);
                    }
                    self.lock(text);
                    self.put_out();
                },
                Verdict::Reject => self.give_up(reasons::write_failed_unity(offset, text), true),
                Verdict::Inconclusive => {
                    if full {
                        self.give_up(reasons::write_inconclusive(offset, text), false);
                    } else {
                        proof {
                            validity::lemma_unasked(self@);
                            validity::lemma_timed(self@.unasked());
                        }
                        self.asking = Asking::Nothing;
                        self.check_align_timeout();
                        if self.phase != Phase::Failed {
                            self.poll_verification();
                        }
                    }
                },
            }
        }
    }

    fn judge_monitor(&mut self, summary: &Summary)
        requires
            old(self).intact(),
            old(self)@.valid(),
            old(self)@.asking is MonitorSummary,
        ensures
            final(self).intact(),
            final(self)@ == old(self)@.monitor_judged(summary@),
    {
        let ghost s = self@;
        proof {
            reveal(State::monitor_judged);
        }
        let (gain_left, gain_right) = self.monitor.gains(summary);
        let (delay_left, delay_right) = self.monitor.delays(summary);
        self.gain = Estimates { left: gain_left, right: gain_right };
        self.delay = Estimates { left: delay_left, right: delay_right };
        self.asking = Asking::Nothing;
        if self.monitor_fresh + 1 < self.cfg.monitor_window {
            self.monitor_fresh = self.monitor_fresh + 1;
            proof {
                validity::lemma_same_output(s, self@);
            }
            self.watched();
            return;
        }
        // Windows do not overlap: judge this one, then start another.
        let verdict = self.monitor.verdict(summary, &self.cfg.limits());
        self.monitor.clear();
        self.monitor_fresh = 0;
        if verdict == Verdict::Reject {
            self.monitor_rejects = self.monitor_rejects + 1;
            if self.monitor_rejects >= self.cfg.monitor_consecutive {
                if let Some(offset) = self.offset {
                    let why = reasons::write_lost_lock(offset, summary.text.as_str());
                    self.fail(why);
                }
                return;
            }
        } else {
            self.monitor_rejects = 0;
        }
        proof {
            validity::lemma_same_output(s, self@);
        }
        self.watched();
    }

    /// Answers a summary query.
    pub fn summarized(&mut self, summary: &Summary) -> (r: Result<(), Fault>)
        requires
            old(self).wf(),
            old(self)@.phase is Failed || old(self)@.room(),
        ensures
            final(self).wf(),
            final(self)@ == old(self)@.summarized(summary@),
            r is Err <==> final(self)@.phase is Failed,
            r matches Err(f) ==> f.0@ == final(self)@.reason,
    {
        proof {
            validity::lemma_summarized(self@, summary@);
        }
        match self.asking {
            Asking::VerifySummary => self.judge_candidate(summary),
            Asking::MonitorSummary => self.judge_monitor(summary),
            _ => {},
        }
        self.outcome()
    }

    /// The search job that waits, for the host to run and to return by [`Engine::complete_job`].
    pub fn take_job(&mut self) -> (r: Option<AlignJob>)
        requires
            old(self).wf(),
        ensures
            final(self).wf(),
            final(self)@ == old(self)@.job_taken(),
            old(self)@.outbox == (match r {
                Some(j) => Some(j@),
                None => None,
            }),
    {
        let job = self.outbox.take();
        proof {
            validity::lemma_same_output(old(self)@, self@);
        }
        job
    }

    /// The next chunk, in endpoint order: output frame `k` always stands for endpoint frame `k`.
    pub fn pop_chunk(&mut self) -> (r: Option<Vec<OutFrame>>)
        requires
            old(self).wf(),
        ensures
            final(self).wf(),
            final(self)@ == old(self)@.chunk_taken(),
            match r {
                Some(c) => old(self)@.taken < old(self)@.chunks_made() && c@ == old(self)@.chunk(
                    old(self)@.taken,
                ),
                None => old(self)@.taken == old(self)@.chunks_made(),
            },
    {
        let chunk = self.out.pop();
        proof {
            validity::lemma_chunk_taken(old(self)@);
        }
        chunk
    }

    /// Fails the session for a reason that it cannot see: a changed route, a lost device.
    pub fn fail_external(&mut self, why: String) -> (r: Fault)
        requires
            old(self).wf(),
        ensures
            final(self).wf(),
            final(self)@ == old(self)@.failed(why@),
            r.0@ == final(self)@.reason,
    {
        proof {
            validity::lemma_failed(self@, why@);
        }
        self.fail(why);
        Fault(self.reason.clone())
    }

    pub fn status(&self) -> (r: Status)
        requires
            self.wf(),
        ensures
            r.shows(self@),
            r.endpoint_frames == r.subtracted_frames + r.passthrough_frames + r.muted_frames
                + r.buffered_frames,
    {
        proof {
            every_frame_is_counted_once(self.out.emitted());
        }
        Status {
            phase: self.phase,
            reason: self.reason.clone(),
            offset_frames: if self.phase == Phase::Running {
                self.offset
            } else {
                None
            },
            buffered_frames: self.ep.end() - self.out.next(),
            generation: self.generation,
            coarse_offset_625ths: self.coarse,
            candidate_offset_frames: match &self.candidate {
                Some(c) => Some(c.offset),
                None => None,
            },
            gain: self.gain,
            fractional_delay: self.delay,
            endpoint_frames: self.ep.end(),
            reference_frames: self.rf.end(),
            subtracted_frames: self.out.subtracted(),
            passthrough_frames: self.out.passed(),
            muted_frames: self.out.muted(),
            locks: self.locks,
            rejected_candidates: self.rejected,
            discontinuities: self.discontinuities,
            timeline_gaps: self.timeline_gaps,
            dropped_chunks: self.out.dropped_chunks(),
        }
    }
}

/// What the host is handed with each question, frame by frame. For the energy: the reference over the
/// block and the search on both sides. For a fit: the endpoint frames of the sub-block, and the
/// reference frames at the offset, one more on either side. For a summary: the four windows, and the
/// multiplier of the verification or of the monitor.
pub proof fn the_host_is_handed_what_it_is_asked_about(q: Query, s: State, i: int)
    requires
        s.valid(),
        q.asked_by(s),
    ensures
        match s.asking {
            AskView::Nothing => false,
            AskView::Energy { start, center } => {
                &&& q is Energy
                &&& q->frames == s.cfg.calib_frames
                &&& q->Energy_min_ref_rms == s.cfg.min_ref_rms
                &&& q->Energy_reference@.len() == s.cfg.calib_frames + 2 * s.cfg.search_radius
                &&& 0 <= i < q->Energy_reference@.len() ==> q->Energy_reference@[i] == s.rf.log[start + center
                    - s.cfg.search_radius + i]
            },
            AskView::VerifyFit => {
                let c = s.candidate->0;
                &&& q is Fit
                &&& q->Fit_min_ref_rms == s.cfg.min_ref_rms
                &&& q->endpoint@.len() == s.cfg.sub_block_frames
                &&& 0 <= i < q->endpoint@.len() ==> q->endpoint@[i] == s.ep.log[c.next + i]
                &&& q->Fit_reference@.len() == s.cfg.sub_block_frames + 2
                &&& 0 <= i < q->Fit_reference@.len() ==> q->Fit_reference@[i] == s.rf.log[c.next + c.offset - 1 + i]
            },
            AskView::MonitorFit => {
                &&& q is Fit
                &&& q->Fit_min_ref_rms == s.cfg.min_ref_rms
                &&& q->endpoint@.len() == s.cfg.sub_block_frames
                &&& 0 <= i < q->endpoint@.len() ==> q->endpoint@[i] == s.ep.log[s.monitor_next + i]
                &&& q->Fit_reference@.len() == s.cfg.sub_block_frames + 2
                &&& 0 <= i < q->Fit_reference@.len() ==> q->Fit_reference@[i] == s.rf.log[s.monitor_next
                    + s.offset->0 - 1 + i]
            },
            AskView::VerifySummary => {
                let w = s.candidate->0.ev;
                &&& q is Summary
                &&& q->gain_left@ == w.gain_left && q->gain_right@ == w.gain_right
                &&& q->delay_left@ == w.delay_left && q->delay_right@ == w.delay_right
                &&& q->z == s.cfg.verify_z
            },
            AskView::MonitorSummary => {
                let w = s.monitor;
                &&& q is Summary
                &&& q->gain_left@ == w.gain_left && q->gain_right@ == w.gain_right
                &&& q->delay_left@ == w.delay_left && q->delay_right@ == w.delay_right
                &&& q->z == s.cfg.monitor_z
            },
        },
{
}

/// A status shows the session as it is: its phase and reason, the verified offset while it runs and no
/// other, how many frames came, came out and wait, and each count under its own name.
pub proof fn a_status_shows_the_session(r: Status, s: State)
    requires
        s.valid(),
        r.shows(s),
    ensures
        r.phase == s.phase,
        r.reason@ == s.reason,
        s.phase is Running ==> r.offset_frames is Some && r.offset_frames->0 == s.offset->0,
        !(s.phase is Running) ==> r.offset_frames is None,
        r.endpoint_frames == s.ep.log.len(),
        r.reference_frames == s.rf.log.len(),
        r.buffered_frames == s.ep.log.len() - s.emitted.len(),
        r.subtracted_frames == subtracted_in(s.emitted),
        r.passthrough_frames == passed_in(s.emitted),
        r.muted_frames == muted_in(s.emitted),
        r.endpoint_frames == r.subtracted_frames + r.passthrough_frames + r.muted_frames + r.buffered_frames,
        s.coarse is None <==> r.coarse_offset_625ths is None,
        s.coarse matches Some(c) ==> r.coarse_offset_625ths->0 == c,
        s.candidate is None <==> r.candidate_offset_frames is None,
        s.candidate matches Some(c) ==> r.candidate_offset_frames->0 == c.offset,
        r.gain == s.gain && r.fractional_delay == s.delay,
        r.generation == s.generation && r.locks == s.locks && r.rejected_candidates == s.rejected,
        r.discontinuities == s.discontinuities && r.timeline_gaps == s.timeline_gaps,
        r.dropped_chunks == s.dropped,
{
    every_frame_is_counted_once(s.emitted);
}

} // verus!
