use wasapi_loopback::engine::Status;
use wasapi_loopback::packet::{PacketInfo, Phase};
use wasapi_loopback::timing::{
    packet_info, qpc_to_100ns, CaptureStats, PacketTiming, SubtractionStatus, TimingSnapshot, E_FAIL,
    FLAG_DATA_DISCONTINUITY, FLAG_SILENT, FLAG_TIMESTAMP_ERROR,
};

#[test]
fn captured_frames_count_every_packet_including_silent_and_untimed() {
    let mut s = TimingSnapshot::default();
    s.record_packet(480, 0, 0, 1_000);
    s.record_packet(441, FLAG_SILENT, 0, 1_100);
    s.record_packet(480, FLAG_TIMESTAMP_ERROR, 0, 0);
    assert_eq!(s.captured_frames, 480 + 441 + 480);
    assert_eq!(s.packets, 3);
    assert_eq!(s.silent_packets, 1);
    assert_eq!(s.timestamp_errors, 1);
    assert_eq!(s.last_packet_frames, 480);
}

#[test]
fn timestamp_error_keeps_the_previous_valid_pair() {
    let mut s = TimingSnapshot::default();
    s.record_packet(480, 0, 0, 5_000);
    s.record_packet(480, FLAG_TIMESTAMP_ERROR, 0, 9_999);
    assert!(s.timing_valid);
    assert_eq!((s.timing_frame, s.timing_qpc_100ns), (0, 5_000));
    s.record_packet(480, 0, 0, 5_200);
    assert_eq!((s.timing_frame, s.timing_qpc_100ns), (960, 5_200));
}

#[test]
fn a_device_position_that_never_moves_is_reported_as_unusable() {
    let mut s = TimingSnapshot::default();
    for i in 0..10 {
        s.record_packet(480, 0, 0, 1_000 + i * 100);
    }
    assert_eq!(s.device_position_advances, 0);
    let mut t = TimingSnapshot::default();
    for i in 0..10u64 {
        t.record_packet(480, 0, i * 480, 1_000 + i * 100);
    }
    assert_eq!(t.device_position_advances, 9);
}

#[test]
fn zero_qpc_is_not_a_timing_sample_and_every_update_bumps_sequence() {
    let mut s = TimingSnapshot::default();
    s.record_packet(480, 0, 0, 0);
    assert!(!s.timing_valid);
    s.record_chunk(true);
    s.record_chunk(false);
    s.finish(Some(E_FAIL));
    assert_eq!(s.sequence, 4);
    assert_eq!((s.delivered_chunks, s.dropped_chunks), (1, 1));
    assert!(!s.running);
    assert_eq!(s.error_hresult, E_FAIL);
}

#[test]
fn the_shown_stats_are_those_of_the_snapshot() {
    let mut s = TimingSnapshot::default();
    s.record_packet(480, FLAG_DATA_DISCONTINUITY | FLAG_SILENT, 7, 1_000);
    s.record_packet(100, 0, 9, 2_000);
    s.finish(None);
    let c = CaptureStats::from(s);
    assert_eq!((c.device_position, c.qpc_position100ns, c.timing_frame), (9, 2_000, 480));
    assert_eq!((c.packets, c.captured_frames, c.last_packet_frames), (2, 580, 100));
    assert_eq!((c.discontinuities, c.silent_packets, c.device_position_advances), (1, 1, 1));
    assert_eq!((c.sequence, c.error_hresult, c.running, c.timing_valid), (3, 0, false, true));
}

#[test]
fn packet_flags_decide_what_the_engine_sees() {
    let p = PacketTiming { frames: 5, flags: 0, device_position: 0, qpc_position: 77 };
    let plain = PacketInfo {
        frames: 5,
        silent: false,
        discontinuity: false,
        engine_qpc_100ns: Some(77),
        read_qpc_100ns: 99,
    };
    assert_eq!(packet_info(p, true, 99), plain);
    assert_eq!(packet_info(p, false, 99), PacketInfo { silent: true, ..plain });
    let lost = PacketTiming { flags: FLAG_DATA_DISCONTINUITY | FLAG_TIMESTAMP_ERROR, ..p };
    assert_eq!(packet_info(lost, true, 99), PacketInfo { discontinuity: true, engine_qpc_100ns: None, ..plain });
    let untimed = PacketTiming { qpc_position: 0, flags: FLAG_SILENT, ..p };
    assert_eq!(packet_info(untimed, true, 99), PacketInfo { silent: true, engine_qpc_100ns: None, ..plain });
}

#[test]
fn counter_values_become_hundreds_of_nanoseconds() {
    assert_eq!(qpc_to_100ns(10_000_000, 10_000_000), 10_000_000);
    assert_eq!(qpc_to_100ns(3, 2), 15_000_000);
    assert_eq!(qpc_to_100ns(1, 3), 3_333_333);
    assert_eq!(qpc_to_100ns(5, 0), 50_000_000);
    assert_eq!(qpc_to_100ns(-1, 3), (-3_333_333i64) as u64);
    assert_eq!(qpc_to_100ns(i64::MAX, 1), (i128::from(i64::MAX) * 10_000_000) as u64);
}

#[test]
fn a_status_without_a_lock_shows_offset_zero() {
    let shown = SubtractionStatus::from_status(&Status::default(), "{E}");
    assert_eq!((shown.state.as_str(), shown.reason.as_str()), ("aligning", "starting"));
    assert_eq!((shown.offset_frames, shown.locked, shown.endpoint_id.as_str()), (0, false, "{E}"));
    let running = Status { phase: Phase::Running, offset_frames: Some(-868), ..Status::default() };
    let shown = SubtractionStatus::from_status(&running, "{E}");
    assert_eq!((shown.state.as_str(), shown.offset_frames, shown.locked), ("running", -868, true));
}

#[test]
fn the_sequence_is_the_sum_of_packets_and_chunks() {
    let mut s = TimingSnapshot::default();
    for k in 0..7u64 {
        s.record_packet(480, if k % 2 == 0 { FLAG_SILENT } else { FLAG_TIMESTAMP_ERROR }, 0, k);
        if k != 3 {
            s.record_chunk(k < 5);
        }
    }
    assert_eq!((s.packets, s.delivered_chunks, s.dropped_chunks), (7, 4, 2));
    assert_eq!(s.sequence, 7 + 4 + 2);
}
