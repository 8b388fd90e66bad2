//! The capture loops, the session list, the device lists and the byte forms.

use wasapi_loopback::capture::{classify_wait, CaptureAction, CaptureLoop, Rechunker, Wait, CHUNK_BYTES};
use wasapi_loopback::devices::{
    build_wave_format, check_default_endpoint, check_endpoint_format, endpoint_entry, follows_default,
    has_channel_mask, process_basename, session_display_name, trim, AppList, MixFormat,
};
use wasapi_loopback::fft::{bit_reversal, stage, transform_size};
use wasapi_loopback::ieee::Single;
use wasapi_loopback::packet::{Fault, Leg};
use wasapi_loopback::pair::{
    after_chunks, after_failed_read, after_job, after_publish, after_read, after_result, after_route_check,
    after_size, after_stop_poll, after_wait, report_again, start_report, teardown, write_failure_report, PairStep,
    ResultPoll, Teardown,
};
use wasapi_loopback::samples::{channel, read_samples, write_samples};
use wasapi_loopback::sessions::Sessions;
use wasapi_loopback::timing::{PacketTiming, E_FAIL, FLAG_SILENT};

fn packet(frames: u32, flags: u32) -> PacketTiming {
    PacketTiming { frames, flags, device_position: 0, qpc_position: 1 }
}

#[test]
fn chunks_are_cut_across_packet_boundaries() {
    let mut r = Rechunker::new();
    let stream: Vec<u8> = (0..3 * CHUNK_BYTES).map(|i| (i % 251) as u8).collect();
    let mut out = Vec::new();
    for part in stream.chunks(441 * 8) {
        r.append(&packet((part.len() / 8) as u32, 0), Some(part));
        while let Some(c) = r.next_chunk() {
            assert_eq!(c.len(), 3840);
            out.extend(c);
        }
    }
    assert_eq!(out, stream[..out.len()]);
    assert_eq!(r.len(), stream.len() - out.len());
}

#[test]
fn silent_packets_keep_the_timeline_with_zeros() {
    let mut r = Rechunker::new();
    r.append(&packet(2, FLAG_SILENT), Some(&[7; 16]));
    r.append(&packet(478, 0), None);
    assert_eq!(r.next_chunk(), Some(vec![0; 3840]));
    assert_eq!(r.next_chunk(), None);
}

#[test]
fn the_capture_loop_goes_round_and_counts() {
    let mut l = CaptureLoop::new();
    assert!(l.snapshot().running && l.has_room(480));
    assert!(matches!(l.stop_polled(Wait::TimedOut), CaptureAction::WaitAudio));
    assert!(matches!(l.audio_waited(Wait::TimedOut), CaptureAction::AskSize));
    assert!(matches!(l.audio_waited(Wait::Signaled), CaptureAction::AskSize));
    assert!(matches!(l.sized(Ok(480)), CaptureAction::Read));
    assert!(matches!(l.sized(Ok(0)), CaptureAction::PollStop));
    assert!(matches!(l.read(&packet(500, 0), Some(&[1; 4000])), CaptureAction::Release { frames: 500 }));
    match l.released(Ok(())) {
        CaptureAction::Deliver { chunk } => assert_eq!(chunk, vec![1; 3840]),
        _ => panic!("a chunk is whole"),
    }
    assert!(matches!(l.delivered(false), CaptureAction::AskSize));
    let s = l.snapshot();
    assert_eq!((s.captured_frames, s.packets, s.dropped_chunks, s.sequence), (500, 1, 1, 2));
    assert_eq!(l.ended(None), None);
    assert!(!l.snapshot().running);
}

#[test]
fn the_capture_loop_ends_on_a_stop_or_an_error() {
    let mut l = CaptureLoop::new();
    assert!(matches!(l.stop_polled(Wait::Signaled), CaptureAction::End { failure: None }));
    assert!(matches!(l.stop_polled(Wait::Broken), CaptureAction::End { failure: None }));
    assert!(matches!(l.audio_waited(Wait::Broken), CaptureAction::End { failure: Some(E_FAIL) }));
    assert!(matches!(l.sized(Err(-5)), CaptureAction::End { failure: Some(-5) }));
    assert!(matches!(l.read_failed(-6), CaptureAction::End { failure: Some(-6) }));
    assert!(matches!(l.released(Err(-7)), CaptureAction::End { failure: Some(-7) }));
    let why = l.ended(Some(-2004287484)).unwrap();
    assert_eq!(why, "WASAPI capture stream ended: HRESULT 0x88890004");
    assert_eq!(l.snapshot().error_hresult, -2004287484);
}

#[test]
fn waits_are_told_apart() {
    assert_eq!([0, 258, 0xffff_ffff, 1].map(classify_wait), [Wait::Signaled, Wait::TimedOut, Wait::Broken, Wait::Broken]);
}

fn why(step: PairStep) -> (String, i32) {
    match step {
        PairStep::End { failure: Some(f) } => (f.why, f.hresult),
        _ => panic!("the loop goes on"),
    }
}

#[test]
fn the_owner_drains_the_endpoint_before_the_reference() {
    assert!(matches!(after_stop_poll(Wait::TimedOut), PairStep::WaitEvents));
    assert!(matches!(after_stop_poll(Wait::Signaled), PairStep::End { failure: None }));
    assert!(matches!(after_stop_poll(Wait::Broken), PairStep::End { failure: None }));
    assert!(matches!(after_wait(false), PairStep::AskSize { leg: Leg::Endpoint }));
    assert!(matches!(after_size(Leg::Endpoint, Ok(3)), PairStep::Read { leg: Leg::Endpoint }));
    assert!(matches!(after_read(Leg::Endpoint, Ok(()), Ok(())), PairStep::AskSize { leg: Leg::Endpoint }));
    assert!(matches!(after_size(Leg::Endpoint, Ok(0)), PairStep::AskSize { leg: Leg::Reference }));
    assert!(matches!(after_size(Leg::Reference, Ok(0)), PairStep::PollResult));
    assert!(matches!(after_result(ResultPoll::Completed { outcome: Ok(()) }), PairStep::PollResult));
    assert!(matches!(after_result(ResultPoll::Empty), PairStep::SendJob));
    assert!(matches!(after_job(false), PairStep::DeliverChunks));
    assert!(matches!(after_chunks(249), PairStep::Publish) && matches!(after_chunks(250), PairStep::CheckRoute));
    assert!(matches!(after_route_check(Ok(())), PairStep::Publish));
    assert!(matches!(after_publish(), PairStep::PollStop));
}

#[test]
fn the_owner_says_why_it_ends() {
    assert_eq!(why(after_wait(true)), ("waiting on the capture events failed".to_string(), E_FAIL));
    let size = why(after_size(Leg::Reference, Err(-2004287484)));
    assert_eq!(size, ("GetNextPacketSize failed on the Reference leg: HRESULT 0x88890004".to_string(), -2004287484));
    let read = why(after_failed_read(Leg::Endpoint, 1));
    assert_eq!(read, ("GetBuffer failed on the Endpoint leg: HRESULT 0x00000001".to_string(), 1));
    let released = why(after_read(Leg::Endpoint, Ok(()), Err(-1)));
    assert_eq!(released, ("ReleaseBuffer failed on the Endpoint leg: HRESULT 0xFFFFFFFF".to_string(), -1));
    let fault = || Fault("overflow".to_string());
    assert_eq!(why(after_read(Leg::Endpoint, Err(fault()), Err(-1))), ("overflow".to_string(), E_FAIL));
    assert_eq!(why(after_result(ResultPoll::Completed { outcome: Err(fault()) })), ("overflow".to_string(), E_FAIL));
    assert_eq!(why(after_result(ResultPoll::Disconnected)), ("alignment worker exited".to_string(), E_FAIL));
    assert_eq!(why(after_job(true)), ("alignment worker unavailable".to_string(), E_FAIL));
    assert_eq!(why(after_route_check(Err("elsewhere".to_string()))), ("elsewhere".to_string(), E_FAIL));
    assert_eq!(write_failure_report("x"), "endpoint-minus-self capture failed: x");
}

#[test]
fn the_last_message_is_offered_a_bounded_number_of_times() {
    assert!(report_again(1, true, Wait::TimedOut) && report_again(49, true, Wait::TimedOut));
    assert!(!report_again(50, true, Wait::TimedOut) && !report_again(1, false, Wait::TimedOut));
    assert!(!report_again(1, true, Wait::Signaled) && !report_again(1, true, Wait::Broken));
}

#[test]
fn a_refused_start_hands_back_zero_and_the_reason() {
    let ok = start_report(Ok(7));
    assert_eq!((ok.id, ok.last_error), (7, None));
    let refused = start_report(Err("no".to_string()));
    assert_eq!((refused.id, refused.last_error), (0, Some("no".to_string())));
}

#[test]
fn a_hung_thread_is_left_alone() {
    assert_eq!([teardown(true, 9_999), teardown(false, 1_499), teardown(false, 1_500)], [Teardown::Join, Teardown::Retry, Teardown::Detach]);
}

#[test]
fn sessions_are_numbered_from_one() {
    let mut s = Sessions::new();
    assert_eq!((s.insert("a"), s.insert("b"), s.insert("c")), (1, 2, 3));
    assert_eq!((s.get(2), s.get(0), s.get(4)), (Some(&"b"), None, None));
    assert_eq!((s.remove(2), s.remove(2)), (Some("b"), None));
    assert_eq!(s.insert("d"), 4);
    let mut all: Vec<(u32, &str)> = s.drain().into_iter().collect();
    all.sort();
    assert_eq!(all, vec![(1, "a"), (3, "c"), (4, "d")]);
    assert!(s.get(1).is_none() && s.insert("e") == 5);
}

#[test]
fn apps_are_listed_once_without_the_own_process() {
    let mut l = AppList::new(42);
    assert!(!l.wants(true, 7) && !l.wants(false, 0) && !l.wants(false, 42) && l.wants(false, 7));
    l.push(7, Some("  Player "), "player.exe".to_string());
    assert!(!l.wants(false, 7));
    l.push(8, Some("@%SystemRoot%\\x.dll,-101"), "svc.exe".to_string());
    l.push(9, None, "chrome.exe".to_string());
    let apps = l.into_apps();
    let names: Vec<(u32, &str, &str)> = apps.iter().map(|a| (a.process_id, a.display_name.as_str(), a.binary.as_str())).collect();
    assert_eq!(names, vec![(7, "Player", "player.exe"), (8, "svc.exe", "svc.exe"), (9, "chrome.exe", "chrome.exe")]);
}

#[test]
fn names_are_trimmed_as_text_is() {
    let odd = "\u{2003}\t x\u{a0}y \u{3000}\u{85}\r\n";
    assert_eq!((trim(odd), trim(" \u{200a}"), trim("")), (odd.trim().to_string(), String::new(), String::new()));
    let edges: String = (0..0x3100u32).filter_map(char::from_u32).collect();
    for c in edges.chars() {
        let s = format!("{c}a{c}");
        assert_eq!(trim(&s), s.trim(), "{:x}", c as u32);
    }
    assert_eq!((session_display_name(" @res "), session_display_name("  "), session_display_name("a@")), (None, None, Some("a@".to_string())));
}

#[test]
fn a_basename_is_what_follows_the_last_separator() {
    let cases = [("C:\\Program Files\\x\\chrome.exe", "chrome.exe"), ("a/b\\c/d.exe", "d.exe"), ("plain", "plain"), ("dir\\", ""), ("", "")];
    for (path, name) in cases {
        assert_eq!(process_basename(path), name);
    }
}

#[test]
fn endpoints_show_a_name_and_the_default() {
    let e = endpoint_entry("{E}".to_string(), Some(" Speakers "), Some("{E}"));
    assert_eq!((e.id.as_str(), e.name.as_str(), e.is_default), ("{E}", "Speakers", true));
    let e = endpoint_entry("{E}".to_string(), Some("  "), Some("{e}"));
    assert_eq!((e.name.as_str(), e.is_default), ("{E}", false));
    assert!(!endpoint_entry("{E}".to_string(), None, None).is_default);
    assert!(follows_default(None) && follows_default(Some("default")) && !follows_default(Some("Default")));
}

#[test]
fn a_moved_default_is_a_fault() {
    assert!(check_default_endpoint("{0.0.A}", Some("{0.0.a}")).is_ok());
    assert_eq!(
        check_default_endpoint("{E}", Some("{F}")).unwrap_err(),
        "default render endpoint changed ({E} -> {F}); restart the share to follow it"
    );
    assert_eq!(check_default_endpoint("{E}", None).unwrap_err(), "the default render endpoint disappeared");
}

#[test]
fn only_native_stereo_endpoints_are_accepted() {
    let good = MixFormat { rate: 48_000, channels: 2, mask: None };
    assert!(check_endpoint_format(&good).is_ok());
    assert!(check_endpoint_format(&MixFormat { mask: Some(3), ..good }).is_ok());
    assert_eq!(
        check_endpoint_format(&MixFormat { mask: Some(0), ..good }).unwrap_err(),
        "endpoint channel mask 0x0 is not plain front stereo"
    );
    assert_eq!(
        check_endpoint_format(&MixFormat { rate: 44_100, channels: 6, ..good }).unwrap_err(),
        "endpoint mixes at 44100 Hz; only 48000 Hz endpoints are supported (resampled taps are not sample-identical)"
    );
    assert_eq!(
        check_endpoint_format(&MixFormat { channels: 6, ..good }).unwrap_err(),
        "endpoint has 6 channels; only stereo endpoints are supported (downmixed taps are not sample-identical)"
    );
    assert_eq!(
        check_endpoint_format(&MixFormat { mask: Some(0x63f), ..good }).unwrap_err(),
        "endpoint channel mask 0x63F is not plain front stereo"
    );
    assert!(has_channel_mask(0xfffe, 22) && !has_channel_mask(0xfffe, 21) && !has_channel_mask(3, 22));
    let f = build_wave_format();
    assert_eq!((f.avg_bytes_per_sec, f.block_align, f.extra_size, f.channel_mask), (384_000, 8, 22, 3));
    assert_eq!(f.sub_format, 0x0000_0003_0000_0010_8000_00aa_0038_9b71);
}

#[test]
fn samples_read_back_from_their_bytes() {
    let v = [1.5f32, -0.0, f32::MIN_POSITIVE, 3e38];
    let s: Vec<Single> = v.iter().map(|x| Single { bits: x.to_bits() }).collect();
    let bytes = write_samples(&s);
    assert_eq!(bytes, v.iter().flat_map(|x| x.to_le_bytes()).collect::<Vec<u8>>());
    assert_eq!(read_samples(&bytes), s);
    assert_eq!(read_samples(&bytes[..7]), s[..1]);
    assert_eq!((channel(&s, 0), channel(&s[..3], 1)), (vec![s[0], s[2]], vec![s[1]]));
    assert!(channel(&[], 1).is_empty());
}

#[test]
fn transforms_visit_every_entry_once_per_stage() {
    assert_eq!(bit_reversal(8), vec![0, 4, 2, 6, 1, 5, 3, 7]);
    assert_eq!(bit_reversal(1), vec![0]);
    for half in [1, 2, 4] {
        let flies = stage(8, half);
        let mut seen: Vec<usize> = flies.iter().flat_map(|f| [f.a, f.b]).collect();
        seen.sort();
        assert_eq!(seen, (0..8).collect::<Vec<_>>());
        assert!(flies.iter().all(|f| f.b == f.a + half && f.twiddle < 4));
    }
    assert_eq!([0, 1, 2, 3, 4, 5, 420].map(transform_size), [2, 2, 2, 4, 4, 8, 512]);
}
