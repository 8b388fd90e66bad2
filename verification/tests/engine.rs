//! Sessions with small limits, driven by answers made up for the purpose.

use wasapi_loopback::align::{AlignJob, AlignOutcome, AlignResult, Score};
use wasapi_loopback::config::Config;
use wasapi_loopback::engine::{Engine, Query, Status};
use wasapi_loopback::ieee::{Double, Frame, Single};
use wasapi_loopback::packet::{Fault, Leg, OutFrame, PacketInfo, Phase};
use wasapi_loopback::stats::{Projection, Spread, Summary};

fn double(v: f64) -> Double {
    Double { bits: v.to_bits() }
}

fn single(v: f32) -> Single {
    Single { bits: v.to_bits() }
}

fn frame(v: f32) -> Frame {
    Frame { left: single(v), right: single(-v) }
}

/// A history of 64 frames, blocks of 4 with a search of 2 on either side, sub-blocks of 2, and a
/// passthrough window of 5 frames on either side.
fn small() -> Config {
    Config {
        history_frames: 64,
        max_pending_frames: 20,
        search_radius: 2,
        calib_frames: 4,
        sub_block_frames: 2,
        min_sub_blocks: 2,
        max_verify_sub_blocks: 3,
        monitor_window: 2,
        monitor_consecutive: 2,
        gap_tolerance_engine_100ns: 208,
        gap_tolerance_read_100ns: 208,
        passthrough_margin_frames: 1,
        align_timeout_frames: 1_000,
        reference_absent_frames: 4_800,
        max_output_chunks: 64,
        ..Config::default()
    }
}

struct Rig {
    engine: Engine,
    ep: u64,
    rf: u64,
    /// Added to packet times, to break the timeline or to move one leg against the other.
    skew: [u64; 2],
}

impl Rig {
    fn new(cfg: Config) -> Rig {
        assert!(cfg.is_sound());
        Rig { engine: Engine::new(cfg), ep: 0, rf: 0, skew: [0, 0] }
    }

    /// The next packet of `leg`.
    fn packet(&self, leg: Leg, n: u32, sounds: bool) -> PacketInfo {
        let (at, skew) = match leg {
            Leg::Endpoint => (self.ep, self.skew[0]),
            Leg::Reference => (self.rf, self.skew[1]),
        };
        assert_eq!(at % 3, 0, "packet times are exact at every third frame");
        PacketInfo {
            frames: n,
            silent: !sounds,
            discontinuity: false,
            engine_qpc_100ns: Some(1_000_000 + skew + at * 625 / 3),
            read_qpc_100ns: 0,
        }
    }

    /// Whether `n` silent frames of `leg` would be taken.
    fn fits(&self, leg: Leg, n: u32) -> bool {
        self.engine.can_take(leg, &self.packet(leg, n, false), None)
    }

    /// Pushes `n` frames of `leg`, counted from one, or silence.
    fn feed(&mut self, leg: Leg, n: u32, sounds: bool) -> Result<(), Fault> {
        let at = match leg {
            Leg::Endpoint => self.ep,
            Leg::Reference => self.rf,
        };
        let info = self.packet(leg, n, sounds);
        let data: Vec<Single> = (0..u64::from(n))
            .flat_map(|k| {
                let f = frame((at + k + 1) as f32);
                [f.left, f.right]
            })
            .collect();
        match leg {
            Leg::Endpoint => self.ep += u64::from(n),
            Leg::Reference => self.rf += u64::from(n),
        }
        let samples = if sounds { Some(data.as_slice()) } else { None };
        assert!(self.engine.settled() && self.engine.can_take(leg, &info, samples));
        self.engine.push(leg, &info, samples)
    }

    fn loud(&mut self) -> Result<(), Fault> {
        assert!(matches!(self.engine.query(), Some(Query::Energy { .. })));
        self.engine.weighed(double(1.0), double(0.0), double(0.5))
    }

    fn quiet(&mut self) -> Result<(), Fault> {
        assert!(matches!(self.engine.query(), Some(Query::Energy { .. })));
        self.engine.weighed(double(0.25), double(0.0), double(0.5))
    }

    fn done(&mut self, outcome: AlignOutcome) -> Result<(), Fault> {
        let job = self.engine.take_job().expect("a job waits");
        self.engine.complete_job(AlignResult { id: job.id, generation: job.generation, outcome })
    }

    fn fit(&mut self) -> Result<(), Fault> {
        assert!(matches!(self.engine.query(), Some(Query::Fit { .. })));
        let p = Projection {
            energy: double(1.0),
            min_energy: double(0.5),
            gain: double(1.0),
            slope: double(1.0),
            min_slope: double(0.5),
            delay: double(0.0),
        };
        self.engine.fitted(&p, &p)
    }

    fn judge(&mut self, upper: f64, lower: f64) -> Result<(), Fault> {
        assert!(matches!(self.engine.query(), Some(Query::Summary { .. })));
        let s = Spread { mean: double(1.25), upper: double(upper), lower: double(lower) };
        let all = Summary { gain_left: s, gain_right: s, delay_left: s, delay_right: s, text: "estimates".to_string() };
        self.engine.summarized(&all)
    }

    fn status(&self) -> Status {
        self.engine.status()
    }

    /// Locks at `offset`, with thirty reference frames and twelve muted endpoint frames.
    fn lock(&mut self, offset: i64) {
        self.feed(Leg::Reference, 30, true).unwrap();
        self.feed(Leg::Endpoint, 12, true).unwrap();
        self.loud().unwrap();
        self.done(candidate(offset)).unwrap();
        self.verify();
        assert_eq!(self.status().phase, Phase::Running);
    }

    fn verify(&mut self) {
        self.fit().unwrap();
        self.judge(0.0, 0.0).unwrap();
        self.fit().unwrap();
        self.judge(0.0, 0.0).unwrap();
    }

    /// Answers the monitor with a window that accepts, until it asks no more.
    fn content(&mut self) {
        while let Some(q) = self.engine.query() {
            match q {
                Query::Fit { .. } => self.fit().unwrap(),
                _ => self.judge(0.0, 0.0).unwrap(),
            }
        }
    }
}

fn candidate(offset: i64) -> AlignOutcome {
    AlignOutcome::Candidate {
        offset,
        peak: Score { value: double(0.5), text: "0.500".to_string() },
        runner_up: Score { value: double(0.0), text: "0.000".to_string() },
    }
}

fn rejected(mismatch: bool) -> AlignOutcome {
    AlignOutcome::Rejected { reason: "nothing there".to_string(), mismatch }
}

fn text(r: Result<(), Fault>) -> String {
    r.unwrap_err().0
}

fn frames(e: &mut Engine) -> Vec<OutFrame> {
    let mut out = Vec::new();
    while let Some(c) = e.pop_chunk() {
        assert_eq!(c.len(), 480);
        out.extend(c);
    }
    out
}

#[test]
fn a_new_session_waits_for_both_legs() {
    let mut r = Rig::new(small());
    let s = r.status();
    assert_eq!((s.phase, s.reason.as_str()), (Phase::Aligning, "waiting for both capture legs"));
    assert!(r.engine.settled() && r.engine.query().is_none() && r.engine.pop_chunk().is_none());
    assert!(r.engine.take_job().is_none());
    assert_eq!(r.engine.config().history_frames, 64);
    r.feed(Leg::Endpoint, 3, false).unwrap();
    assert_eq!(r.status().reason, "waiting for packets on both legs");
    assert_eq!((r.status().muted_frames, r.status().endpoint_frames), (3, 3));
}

#[test]
fn limits_that_do_not_fit_each_other_are_told_apart() {
    assert!(Config::default().is_sound());
    assert!(!Config { max_pending_frames: 64, ..small() }.is_sound());
    assert!(!Config { calib_frames: 60, ..small() }.is_sound());
    assert!(Config { calib_frames: 59, ..small() }.is_sound());
    assert!(!Config { history_frames: usize::MAX, ..small() }.is_sound());
    assert!(!Config { passthrough_margin_frames: usize::MAX, ..small() }.is_sound());
}

#[test]
fn an_empty_packet_is_nothing_and_a_bad_one_ends_the_session() {
    let mut r = Rig::new(small());
    let empty = PacketInfo::default();
    assert!(r.engine.push(Leg::Endpoint, &empty, None).is_ok());
    let info = PacketInfo { frames: 2, ..empty };
    assert_eq!(text(r.engine.push(Leg::Endpoint, &info, None)), "malformed endpoint packet");
    assert_eq!(text(r.engine.push(Leg::Endpoint, &empty, None)), "malformed endpoint packet");
    assert_eq!(r.status().phase, Phase::Failed);

    let mut r = Rig::new(small());
    let three = [single(0.0); 3];
    assert_eq!(text(r.engine.push(Leg::Reference, &info, Some(&three))), "malformed reference packet");

    let mut r = Rig::new(small());
    let bad = [single(0.0), single(0.0), single(0.0), single(f32::NAN)];
    assert_eq!(text(r.engine.push(Leg::Reference, &info, Some(&bad))), "non-finite samples on the reference leg");
    assert_eq!(r.status().reference_frames, 0);
}

#[test]
fn failure_is_final_and_keeps_its_first_reason() {
    let mut r = Rig::new(small());
    r.feed(Leg::Endpoint, 480, false).unwrap();
    assert_eq!(r.engine.fail_external("unplugged".to_string()), Fault("unplugged".to_string()));
    assert_eq!(r.engine.fail_external("again".to_string()), Fault("unplugged".to_string()));
    assert_eq!(text(r.feed(Leg::Endpoint, 3, false)), "unplugged");
    let late = AlignResult { id: 1, generation: 0, outcome: rejected(true) };
    assert_eq!(text(r.engine.complete_job(late)), "unplugged");
    let s = r.status();
    assert_eq!((s.phase, s.endpoint_frames, s.rejected_candidates), (Phase::Failed, 480, 0));
    assert_eq!(frames(&mut r.engine).len(), 480);
}

#[test]
fn a_reference_without_packets_ends_the_session() {
    let mut r = Rig::new(small());
    r.feed(Leg::Endpoint, 4_800, false).unwrap();
    assert_eq!(
        text(r.feed(Leg::Endpoint, 3, false)),
        "reference leg delivered no packets for 0.1 s of endpoint audio (missing packets are not silence)"
    );
}

#[test]
fn a_search_covers_the_block_and_the_radius_around_it() {
    let mut r = Rig::new(small());
    r.feed(Leg::Reference, 30, true).unwrap();
    r.feed(Leg::Endpoint, 12, true).unwrap();
    match r.engine.query() {
        Some(Query::Energy { reference, frames, min_ref_rms }) => {
            assert_eq!(reference, (1..=8).map(|k| frame(k as f32)).collect::<Vec<_>>());
            assert_eq!((frames, min_ref_rms), (4, double(1e-3)));
        }
        _ => panic!("no energy query"),
    }
    r.loud().unwrap();
    assert_eq!(r.status().reason, "searching for the integer offset");
    let job: AlignJob = r.engine.take_job().unwrap();
    assert_eq!((job.id, job.generation, job.endpoint_start, job.base_offset), (1, 0, 2, -2));
    assert_eq!((job.endpoint.len(), job.reference.len()), (8, 16));
    assert_eq!((job.endpoint[0], job.reference[0]), (single(3.0), single(1.0)));
    assert!(r.engine.take_job().is_none());
}

#[test]
fn a_quiet_reference_slides_the_search_on() {
    let mut r = Rig::new(small());
    r.feed(Leg::Reference, 9, true).unwrap();
    r.feed(Leg::Endpoint, 9, true).unwrap();
    r.quiet().unwrap();
    assert!(r.engine.settled());
    assert_eq!(r.status().reason, "waiting for own audio to align on (reference silent)");
    r.feed(Leg::Reference, 3, true).unwrap();
    r.loud().unwrap();
    // The first block began at frame 2, the next one half a block further.
    assert_eq!(r.engine.take_job().unwrap().endpoint_start, 4);
}

#[test]
fn a_lock_subtracts_at_the_verified_offset() {
    let mut r = Rig::new(Config { max_pending_frames: 63, ..small() });
    r.lock(1);
    let s = r.status();
    assert_eq!((s.offset_frames, s.locks, s.muted_frames, s.buffered_frames), (Some(1), 1, 12, 0));
    assert_eq!(s.reason, "locked at offset 1 frames (content vs packet timing +1); estimates");
    assert_eq!((s.gain.left, s.fractional_delay.right), (Some(double(1.25)), Some(double(1.25))));
    r.content();
    for _ in 0..60 {
        r.feed(Leg::Reference, 9, true).unwrap();
        r.feed(Leg::Endpoint, 9, true).unwrap();
        r.content();
    }
    let out = frames(&mut r.engine);
    assert_eq!(out.len(), 480);
    for (k, f) in out.iter().enumerate() {
        let want = OutFrame::Difference { endpoint: frame((k + 1) as f32), reference: frame((k + 2) as f32) };
        assert_eq!(*f, if k < 12 { OutFrame::Muted } else { want });
    }
}

#[test]
fn verification_reads_only_audio_behind_the_search_block() {
    let mut r = Rig::new(small());
    r.feed(Leg::Reference, 30, true).unwrap();
    r.feed(Leg::Endpoint, 12, true).unwrap();
    r.loud().unwrap();
    r.done(candidate(1)).unwrap();
    assert_eq!(
        r.status().reason,
        "verifying candidate offset 1 on held-out audio (correlation 0.500, runner-up 0.000)"
    );
    match r.engine.query() {
        Some(Query::Fit { endpoint, reference, .. }) => {
            // The block was frames 2 to 5.
            assert_eq!(endpoint, vec![frame(7.0), frame(8.0)]);
            assert_eq!(reference, vec![frame(7.0), frame(8.0), frame(9.0), frame(10.0)]);
        }
        _ => panic!("no fit query"),
    }
}

#[test]
fn a_slow_search_still_leaves_the_audio_behind_its_block_for_verification() {
    let mut r = Rig::new(small());
    r.feed(Leg::Reference, 30, true).unwrap();
    r.feed(Leg::Endpoint, 12, true).unwrap();
    r.loud().unwrap();
    let job = r.engine.take_job().unwrap();
    for _ in 0..3 {
        r.feed(Leg::Reference, 6, true).unwrap();
        r.feed(Leg::Endpoint, 6, true).unwrap();
        assert!(r.engine.settled() && r.engine.take_job().is_none(), "one search at a time");
    }
    r.engine.complete_job(AlignResult { id: job.id, generation: 0, outcome: candidate(0) }).unwrap();
    match r.engine.query() {
        Some(Query::Fit { endpoint, .. }) => assert_eq!(endpoint, vec![frame(7.0), frame(8.0)]),
        _ => panic!("no fit query"),
    }
}

#[test]
fn a_candidate_that_fails_the_check_is_dropped() {
    let mut r = Rig::new(small());
    r.feed(Leg::Reference, 30, true).unwrap();
    r.feed(Leg::Endpoint, 12, true).unwrap();
    r.loud().unwrap();
    r.done(candidate(0)).unwrap();
    r.fit().unwrap();
    r.judge(9.0, -9.0).unwrap();
    r.fit().unwrap();
    r.judge(9.0, 9.0).unwrap();
    let s = r.status();
    assert_eq!(s.reason, "not locked: candidate offset 0 failed the unity check on held-out audio (estimates)");
    assert_eq!((s.rejected_candidates, s.candidate_offset_frames, s.locks), (1, None, 0));
}

#[test]
fn a_candidate_without_a_verdict_is_dropped_too() {
    let mut r = Rig::new(small());
    r.feed(Leg::Reference, 30, true).unwrap();
    r.feed(Leg::Endpoint, 12, true).unwrap();
    r.loud().unwrap();
    r.done(candidate(0)).unwrap();
    for _ in 0..3 {
        assert_eq!(r.status().candidate_offset_frames, Some(0));
        r.fit().unwrap();
        r.judge(9.0, -9.0).unwrap();
    }
    assert_eq!(r.status().reason, "not locked: candidate offset 0 stayed inconclusive (estimates)");
}

#[test]
fn history_that_is_gone_drops_the_candidate() {
    let mut r = Rig::new(small());
    r.feed(Leg::Reference, 30, true).unwrap();
    r.feed(Leg::Endpoint, 12, true).unwrap();
    r.loud().unwrap();
    r.done(candidate(-20)).unwrap();
    assert_eq!(
        r.status().reason,
        "not locked: held-out history was lost before verification finished"
    );
}

#[test]
fn a_timeout_needs_two_mismatches_to_end_the_session() {
    for mismatches in 0..3 {
        let mut r = Rig::new(Config { align_timeout_frames: 15, ..small() });
        r.feed(Leg::Reference, 60, true).unwrap();
        r.feed(Leg::Endpoint, 60, true).unwrap();
        let mut last = Ok(());
        for k in 0..4 {
            r.loud().unwrap();
            last = r.done(rejected(k < mismatches));
        }
        let s = r.status();
        assert_eq!(s.rejected_candidates, 4);
        if mismatches < 2 {
            last.unwrap();
            let want = "not locked after 0.0 s of own audio without conclusive evidence; share audio stays muted. Last: nothing there";
            assert_eq!((s.phase, s.reason.as_str()), (Phase::Aligning, want));
        } else {
            let want = "no unity-gain integer offset could be verified in 0.0 s of own audio; the endpoint does not carry a sample-identical copy of the reference (format/DSP/route mismatch). Last: nothing there";
            assert_eq!(text(last), want);
        }
    }
}

#[test]
fn results_that_are_not_awaited_change_nothing() {
    let mut r = Rig::new(small());
    r.feed(Leg::Reference, 30, true).unwrap();
    r.feed(Leg::Endpoint, 12, true).unwrap();
    r.loud().unwrap();
    let job = r.engine.take_job().unwrap();
    let other = AlignResult { id: job.id + 1, generation: 0, outcome: candidate(3) };
    r.engine.complete_job(other).unwrap();
    assert_eq!(r.status().candidate_offset_frames, None);
    // A new generation begins: its packets are a second late.
    r.skew[0] = 10_000_000;
    r.feed(Leg::Endpoint, 3, true).unwrap();
    assert_eq!((r.status().generation, r.status().timeline_gaps), (1, 1));
    let stale = AlignResult { id: job.id, generation: 0, outcome: candidate(3) };
    r.engine.complete_job(stale).unwrap();
    assert_eq!(r.status().candidate_offset_frames, None);
}

#[test]
fn a_broken_timeline_mutes_what_waits() {
    let mut r = Rig::new(small());
    r.lock(0);
    r.content();
    r.feed(Leg::Endpoint, 30, true).unwrap();
    r.content();
    assert_eq!((r.status().subtracted_frames, r.status().buffered_frames), (18, 12));
    let info = PacketInfo { frames: 3, silent: true, discontinuity: true, engine_qpc_100ns: None, read_qpc_100ns: 5 };
    r.engine.push(Leg::Reference, &info, None).unwrap();
    let s = r.status();
    assert_eq!((s.generation, s.discontinuities, s.muted_frames, s.buffered_frames), (1, 1, 24, 0));
    assert_eq!((s.phase, s.offset_frames), (Phase::Aligning, None));
}

#[test]
fn packets_within_the_tolerance_of_their_clock_continue_the_generation() {
    let mut r = Rig::new(small());
    r.feed(Leg::Endpoint, 3, true).unwrap();
    r.skew[0] = 208;
    r.feed(Leg::Endpoint, 3, true).unwrap();
    assert_eq!(r.status().timeline_gaps, 0);
    r.skew[0] = 208 + 209;
    r.feed(Leg::Endpoint, 3, true).unwrap();
    assert_eq!(r.status().timeline_gaps, 1);
    // Another clock cannot be held against the last packet.
    let read = PacketInfo { frames: 3, silent: true, discontinuity: false, engine_qpc_100ns: None, read_qpc_100ns: 1 };
    r.engine.push(Leg::Endpoint, &read, None).unwrap();
    assert_eq!(r.status().timeline_gaps, 1);
}

#[test]
fn frames_that_wait_too_long_end_the_session() {
    let mut r = Rig::new(small());
    r.lock(0);
    r.content();
    r.feed(Leg::Endpoint, 36, true).unwrap();
    r.content();
    assert_eq!(r.status().buffered_frames, 18);
    assert_eq!(
        text(r.feed(Leg::Endpoint, 3, true)),
        "overflow: 21 endpoint frames waiting for reference audio that has not arrived (cap 20); the reference leg stalled"
    );
}

#[test]
fn a_reference_that_ran_away_ends_the_session() {
    let mut r = Rig::new(small());
    r.lock(0);
    r.content();
    r.feed(Leg::Reference, 60, true).unwrap();
    assert_eq!(
        text(r.feed(Leg::Endpoint, 3, true)),
        "reference history overrun: frame 12 needed but the ring starts at 26"
    );
}

#[test]
fn a_lock_is_lost_by_rejecting_windows_in_a_row() {
    let mut r = Rig::new(Config { max_pending_frames: 63, ..small() });
    r.lock(0);
    r.feed(Leg::Endpoint, 15, true).unwrap();
    // Fifteen frames were subtracted: seven sub-blocks, three windows of two and a half one.
    let windows = [(9.0, 9.0), (0.0, 0.0), (9.0, 9.0)];
    for w in windows {
        r.fit().unwrap();
        r.judge(0.0, 0.0).unwrap();
        r.fit().unwrap();
        r.judge(w.0, w.1).unwrap();
    }
    r.fit().unwrap();
    r.judge(0.0, 0.0).unwrap();
    assert_eq!(r.status().phase, Phase::Running);
    r.feed(Leg::Reference, 3, true).unwrap();
    assert!(r.engine.settled());
    r.feed(Leg::Endpoint, 3, true).unwrap();
    r.fit().unwrap();
    assert_eq!(
        text(r.judge(9.0, 9.0)),
        "lost lock at offset 0: the endpoint no longer carries the reference at unity gain (estimates)"
    );
}

#[test]
fn a_proven_bias_passes_the_endpoint_over_a_silent_reference() {
    let mut r = Rig::new(Config { max_pending_frames: 63, ..small() });
    r.lock(0);
    r.content();
    // The endpoint is idle for a while, and its packets come back later.
    r.skew[0] = 1_000_000;
    r.skew[1] = 1_000_000;
    r.feed(Leg::Endpoint, 12, true).unwrap();
    assert_eq!(r.status().generation, 1);
    r.feed(Leg::Reference, 18, false).unwrap();
    assert_eq!(r.status().generation, 2);
    r.feed(Leg::Endpoint, 24, true).unwrap();
    while r.engine.query().is_some() {
        r.quiet().unwrap();
    }
    // The new generation begins at endpoint frame 24 and reference frame 30, at offset zero. The
    // reference is silent up to frame 47, so the window of five frames on either side is covered
    // and silent for endpoint frames 35 to 42; frame 43 waits for one more reference frame.
    let s = r.status();
    assert_eq!((s.phase, s.generation, s.coarse_offset_625ths), (Phase::Aligning, 2, Some(0)));
    assert_eq!((s.passthrough_frames, s.muted_frames, s.buffered_frames), (8, 35, 5));
    r.feed(Leg::Reference, 12, true).unwrap();
    while r.engine.query().is_some() {
        r.quiet().unwrap();
    }
    // The reference sounds from frame 48 on, which lies in every window that was waited for.
    let s = r.status();
    assert_eq!((s.passthrough_frames, s.muted_frames, s.buffered_frames), (8, 40, 0));
    assert_eq!((s.subtracted_frames, s.endpoint_frames), (0, 48));
}

#[test]
fn a_moved_bias_ends_the_session() {
    let mut r = Rig::new(Config { max_pending_frames: 63, ..small() });
    r.lock(0);
    r.content();
    r.skew[0] = 1_000_000;
    r.feed(Leg::Endpoint, 3, true).unwrap();
    r.skew[1] = 1_000_000;
    r.feed(Leg::Reference, 30, true).unwrap();
    r.feed(Leg::Endpoint, 3, true).unwrap();
    r.feed(Leg::Endpoint, 27, true).unwrap();
    assert_eq!(r.status().generation, 2);
    r.loud().unwrap();
    let job = r.engine.take_job().unwrap();
    // Packet timing puts the content at the middle of the search.
    let moved = job.base_offset + 2 + 6;
    r.engine.complete_job(AlignResult { id: job.id, generation: 2, outcome: candidate(moved) }).unwrap();
    r.fit().unwrap();
    r.judge(0.0, 0.0).unwrap();
    r.fit().unwrap();
    assert_eq!(
        text(r.judge(0.0, 0.0)),
        "content offset moved +6 frames against packet timing between generations (bound ±5); the silent-reference passthrough assumption is violated"
    );
}

#[test]
fn the_oldest_chunk_is_dropped_where_too_many_wait() {
    let mut r = Rig::new(Config { max_output_chunks: 1, ..small() });
    r.feed(Leg::Endpoint, 1_500, true).unwrap();
    let s = r.status();
    assert_eq!((s.muted_frames, s.dropped_chunks, s.buffered_frames), (1_500, 2, 0));
    assert_eq!(frames(&mut r.engine), vec![OutFrame::Muted; 480]);
    assert_eq!(r.status().dropped_chunks, 2);
}

#[test]
fn fetched_queued_and_dropped_chunks_add_up() {
    let mut r = Rig::new(Config { max_output_chunks: 2, ..small() });
    let mut fetched = 0;
    for n in [1_500, 480, 960, 3] {
        r.feed(Leg::Endpoint, n, true).unwrap();
        fetched += u64::from(r.engine.pop_chunk().is_some());
    }
    // 2943 frames make six chunks: one is dropped by the first packet, and one by the third.
    let dropped = r.status().dropped_chunks;
    let queued = frames(&mut r.engine).len() as u64 / 480;
    assert_eq!((fetched, dropped, queued), (4, 2, 0));
    assert_eq!(fetched + dropped + queued, r.status().muted_frames / 480);
}

#[test]
fn a_failed_session_holds_no_job() {
    let mut r = Rig::new(small());
    r.feed(Leg::Reference, 30, true).unwrap();
    r.feed(Leg::Endpoint, 12, true).unwrap();
    r.loud().unwrap();
    assert_eq!(r.engine.fail_external("unplugged".to_string()), Fault("unplugged".to_string()));
    assert!(r.engine.take_job().is_none() && r.engine.query().is_none() && r.engine.settled());
}

#[test]
fn nothing_waits_before_the_first_lock() {
    let mut r = Rig::new(small());
    for n in [3, 30, 66] {
        r.feed(Leg::Endpoint, n, true).unwrap();
        assert_eq!(r.status().buffered_frames, 0);
    }
    r.feed(Leg::Reference, 99, true).unwrap();
    // The answer comes first: until then the block of the search still waits.
    while r.engine.query().is_some() {
        r.loud().unwrap();
    }
    r.feed(Leg::Endpoint, 12, true).unwrap();
    while r.engine.query().is_some() {
        r.loud().unwrap();
    }
    let s = r.status();
    assert_eq!((s.phase, s.locks, s.buffered_frames), (Phase::Aligning, 0, 0));
    assert_eq!((s.muted_frames, s.endpoint_frames), (111, 111));
}

#[test]
fn a_packet_longer_than_the_history_is_taken_only_where_it_can_be_muted() {
    let mut r = Rig::new(small());
    assert!(r.fits(Leg::Endpoint, 66) && r.fits(Leg::Reference, 66));
    r.lock(0);
    r.content();
    assert!(r.fits(Leg::Endpoint, 64) && !r.fits(Leg::Endpoint, 65) && r.fits(Leg::Reference, 65));
    // Nothing is read of a packet that ends the session.
    let info = r.packet(Leg::Endpoint, 66, true);
    assert!(r.engine.can_take(Leg::Endpoint, &info, None));
    assert!(!r.engine.can_take(Leg::Endpoint, &info, Some(&[single(0.0); 132])));
    assert!(r.engine.can_take(Leg::Endpoint, &info, Some(&[single(f32::NAN); 132])));
    // Nor of one that begins a generation, which has no reference yet.
    assert!(r.engine.can_take(Leg::Endpoint, &PacketInfo { discontinuity: true, silent: true, ..info }, None));
    r.skew[0] = 1_000_000;
    r.feed(Leg::Endpoint, 66, true).unwrap();
    r.feed(Leg::Endpoint, 66, true).unwrap();
    let s = r.status();
    assert_eq!((s.generation, s.muted_frames, s.buffered_frames), (1, 144, 0));
    // With the reference the proven bias applies, and frames may pass.
    r.feed(Leg::Reference, 30, true).unwrap();
    assert!(r.fits(Leg::Endpoint, 64) && !r.fits(Leg::Endpoint, 65));
}

#[test]
fn a_bias_of_other_clocks_lets_long_packets_be_muted() {
    let mut r = Rig::new(small());
    r.lock(0);
    r.content();
    r.skew[0] = 1_000_000;
    r.feed(Leg::Endpoint, 3, true).unwrap();
    let info = PacketInfo {
        engine_qpc_100ns: None,
        read_qpc_100ns: 1_000_000_000,
        ..r.packet(Leg::Reference, 30, false)
    };
    r.engine.push(Leg::Reference, &info, None).unwrap();
    assert!(r.engine.settled() && r.fits(Leg::Endpoint, 66));
    r.feed(Leg::Endpoint, 66, true).unwrap();
    let s = r.status();
    assert_eq!((s.generation, s.muted_frames, s.passthrough_frames, s.buffered_frames), (1, 81, 0, 0));
}
