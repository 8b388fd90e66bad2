use wasapi_loopback::packet::{Leg, Phase};
use wasapi_loopback::reasons::{starts_with, write_absent, write_discontinuity, write_jumped, write_locked};
use wasapi_loopback::text::{
    push_decimal, push_hexadecimal, push_hexadecimal_padded, push_integer, push_one_decimal, push_sign, round_625ths,
};

fn one_decimal(num: u128, den: u64) -> String {
    let mut s = String::new();
    push_one_decimal(&mut s, num, den);
    s
}

#[test]
fn one_decimal_is_that_of_the_nearest_double() {
    for tenths in 0..4_000u64 {
        let hundredths = 10 * tenths + 5;
        assert_eq!(one_decimal(u128::from(hundredths), 100), format!("{:.1}", hundredths as f64 / 100.0));
    }
    assert_eq!((one_decimal(2_005, 100), one_decimal(2_015, 100)), ("20.1".to_string(), "20.1".to_string()));
    for frames in [0u64, 1, 2_399, 2_400, 2_401, 96_000, 962_400, 964_800] {
        assert_eq!(one_decimal(u128::from(frames), 48_000), format!("{:.1}", frames as f64 / 48_000.0));
    }
}

#[test]
fn numbers_are_written_as_usual() {
    let mut s = String::from("<");
    push_decimal(&mut s, u64::MAX);
    s.push(' ');
    push_integer(&mut s, i128::from(i64::MIN));
    s.push(' ');
    push_integer(&mut s, 0);
    s.push(' ');
    push_hexadecimal(&mut s, 0xbeef);
    s.push(' ');
    push_hexadecimal_padded(&mut s, 0xbeef, 8);
    s.push(' ');
    push_sign(&mut s, 0);
    push_sign(&mut s, -1);
    assert_eq!(s, format!("<{} {} 0 {:X} {:08X} +-", u64::MAX, i64::MIN, 0xbeef, 0xbeef));
}

#[test]
fn frames_in_625ths_round_to_the_nearest() {
    for n in -4_000i128..4_000 {
        assert_eq!(round_625ths(n), (n as f64 / 625.0).round() as i128);
    }
}

#[test]
fn messages_show_signed_jumps_and_biases() {
    assert_eq!(
        write_jumped(Leg::Reference, 3 * 20_500),
        format!("reference leg timeline jumped {:+.1} ms between packets (missing packets are not silence)", 2.05)
    );
    assert_eq!(
        write_jumped(Leg::Endpoint, -3 * 1_000_000),
        "endpoint leg timeline jumped -100.0 ms between packets (missing packets are not silence)"
    );
    assert_eq!(write_locked(-868, -200, "x"), format!("locked at offset -868 frames (content vs packet timing {:+.0}); x", -0.32));
    assert_eq!(write_discontinuity(Leg::Endpoint), "data discontinuity on the endpoint leg");
    assert!(write_absent(96_000).contains("for 2.0 s of"));
    assert_eq!([Phase::Aligning, Phase::Running, Phase::Failed].map(Phase::as_str), ["aligning", "running", "failed"]);
}

#[test]
fn a_beginning_is_found() {
    assert!(starts_with("not locked: x", "not locked") && starts_with("a", "") && starts_with("é", "é"));
    assert!(!starts_with("not", "not locked") && !starts_with("Not locked", "not locked"));
}
