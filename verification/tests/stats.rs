use wasapi_loopback::ieee::Double;
use wasapi_loopback::stats::{
    describe, ChannelFit, Evidence, Limits, Projection, Spread, StereoEvidence, Summary, Verdict,
};

fn double(v: f64) -> Double {
    Double { bits: v.to_bits() }
}

fn wide(d: Double) -> f64 {
    f64::from_bits(d.bits)
}

fn filled(vals: &[f64]) -> Evidence {
    let mut e = Evidence::new(64);
    vals.iter().for_each(|v| e.push(double(*v)));
    e
}

fn spread(vals: &[Double], target: f64, z: f64) -> Spread {
    let v: Vec<f64> = vals.iter().map(|d| wide(*d)).collect();
    let n = v.len();
    let mean = v.iter().sum::<f64>() / n as f64;
    let var = v.iter().map(|v| (v - mean).powi(2)).sum::<f64>() / (n as f64 - 1.0);
    let se = (var / n as f64).sqrt();
    let dev = (mean - target).abs();
    Spread { mean: double(mean), upper: double(dev + z * se), lower: double(dev - z * se) }
}

fn verdict(e: &Evidence, target: f64, tol: f64, z: f64, min_n: usize) -> Verdict {
    e.verdict(&spread(&e.values(), target, z), double(tol), min_n)
}

#[test]
fn exact_unity_accepts_and_a_clear_mismatch_rejects() {
    assert_eq!(verdict(&filled(&[1.0; 8]), 1.0, 0.02, 2.0, 8), Verdict::Accept);
    assert_eq!(verdict(&filled(&[0.8, 0.81, 0.79, 0.8, 0.8, 0.8, 0.8, 0.8]), 1.0, 0.02, 2.0, 8), Verdict::Reject);
}

#[test]
fn noisy_or_short_evidence_is_inconclusive_not_accepted() {
    assert_eq!(verdict(&filled(&[1.0; 7]), 1.0, 0.02, 2.0, 8), Verdict::Inconclusive);
    let noisy = [1.0, 1.1, 0.9, 1.05, 0.95, 1.08, 0.92, 1.0];
    assert_eq!(verdict(&filled(&noisy), 1.0, 0.02, 2.0, 8), Verdict::Inconclusive);
}

#[test]
fn window_is_bounded_and_ignores_non_finite_values() {
    let mut e = Evidence::new(3);
    for v in [5.0, f64::NAN, 1.0, 1.0, 1.0] {
        e.push(double(v));
    }
    assert_eq!(e.len(), 3);
    assert_eq!(e.mean(&spread(&e.values(), 0.0, 1.0)), Some(double(1.0)));
}

#[test]
fn an_empty_window_has_no_mean_and_a_window_of_none_holds_one() {
    let mut e = Evidence::new(0);
    assert_eq!(e.mean(&spread(&[], 0.0, 1.0)), None);
    e.push(double(2.0));
    e.push(double(3.0));
    assert_eq!(e.values(), vec![double(3.0)]);
    e.clear();
    assert_eq!(e.len(), 0);
}

#[test]
fn comparisons_follow_the_values_of_the_patterns() {
    let ordered = [f64::NEG_INFINITY, -2.0, -1e-300, 0.0, 5e-324, 1.0, f64::INFINITY];
    for (i, a) in ordered.iter().enumerate() {
        for (j, b) in ordered.iter().enumerate() {
            assert_eq!(double(*a).gt(double(*b)), i > j, "{a} > {b}");
            assert_eq!(double(*a).le(double(*b)), i <= j, "{a} <= {b}");
        }
        assert!(!double(*a).gt(double(f64::NAN)) && !double(f64::NAN).le(double(*a)));
    }
    assert!(!double(0.0).gt(double(-0.0)) && double(0.0).le(double(-0.0)));
}

fn projection(energy: f64, slope: f64) -> Projection {
    Projection {
        energy: double(energy),
        min_energy: double(1.0),
        gain: double(0.5),
        slope: double(slope),
        min_slope: double(0.1),
        delay: double(0.25),
    }
}

#[test]
fn a_quiet_reference_yields_nothing_and_a_flat_one_no_delay() {
    assert_eq!(projection(0.5, 1.0).fit(), ChannelFit { gain: None, delay: None });
    assert_eq!(projection(1.0, 0.1).fit(), ChannelFit { gain: Some(double(0.5)), delay: None });
    let full = ChannelFit { gain: Some(double(0.5)), delay: Some(double(0.25)) };
    assert_eq!(projection(1.0, 0.2).fit(), full);
}

#[test]
fn a_channel_without_evidence_does_not_stand_against_the_other() {
    let limits = Limits { gain_tolerance: double(0.03), delay_tolerance: double(0.05), min_sub_blocks: 2 };
    let mut ev = StereoEvidence::new(4);
    let some = ChannelFit { gain: Some(double(1.0)), delay: Some(double(0.0)) };
    let none = ChannelFit { gain: None, delay: None };
    assert!(!ev.push(&none, &none));
    assert!(ev.push(&some, &none) && ev.push(&some, &none));
    let good = Spread { mean: double(1.0), upper: double(0.0), lower: double(0.0) };
    let bad = Spread { mean: double(2.0), upper: double(1.0), lower: double(1.0) };
    let mut s = Summary { gain_left: good, gain_right: bad, delay_left: good, delay_right: bad, text: String::new() };
    assert_eq!(ev.verdict(&s, &limits), Verdict::Accept);
    s.delay_left = bad;
    assert_eq!(ev.verdict(&s, &limits), Verdict::Reject);
    assert_eq!(ev.gains(&s), (Some(double(1.0)), None));
}

#[test]
fn the_means_are_told_in_one_line() {
    assert_eq!(describe(Some("1.0000"), None, Some("0.0100"), None), "gain L 1.0000 R n/a, delay L 0.0100 R n/a");
}
