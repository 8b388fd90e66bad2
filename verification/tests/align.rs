use wasapi_loopback::align::{run_align_job, survey, AlignJob, AlignOutcome, AlignParams, Renderings, Survey};
use wasapi_loopback::ieee::{Double, Single};

fn double(v: f64) -> Double {
    Double { bits: v.to_bits() }
}

/// A job of two endpoint frames and `lags` lags, from offset -3 on.
fn job(lags: usize) -> AlignJob {
    AlignJob {
        id: 9,
        generation: 4,
        endpoint_start: 100,
        base_offset: -3,
        endpoint: vec![Single { bits: 1 }; 4],
        reference: vec![Single { bits: 1 }; 2 * (lags + 1)],
        params: AlignParams {
            ambiguity_ratio: double(0.9),
            min_peak_correlation: double(0.05),
            lobe_guard: 1,
            edge_guard: 1,
        },
    }
}

fn seen(rho: &[f64]) -> Survey {
    let bits: Vec<Double> = rho.iter().map(|v| double(*v)).collect();
    survey(&job(rho.len()), double(1.0), &bits)
}

fn shown() -> Renderings {
    Renderings { peak: "P".to_string(), runner_up: "R".to_string(), min_peak: "0.050".to_string() }
}

fn reason(s: &Survey, limit: f64) -> (String, bool) {
    match run_align_job(&job(5), s, double(limit), &shown()).outcome {
        AlignOutcome::Rejected { reason, mismatch } => (reason, mismatch),
        other => panic!("{other:?}"),
    }
}

#[test]
fn the_first_of_equal_peaks_is_taken() {
    let s = seen(&[0.1, 0.5, 0.2, 0.5, 0.1]);
    assert_eq!(s, Survey::Peak { best: 1, peak: double(0.5), runner_up: Some((3, double(0.5))) });
}

#[test]
fn the_lobe_of_the_peak_does_not_compete() {
    let s = seen(&[0.0, 0.3, 0.9, 0.8, 0.1, 0.2, 0.0]);
    assert_eq!(s, Survey::Peak { best: 2, peak: double(0.9), runner_up: Some((5, double(0.2))) });
    assert_eq!(seen(&[0.1, 0.9, 0.1]), Survey::Peak { best: 1, peak: double(0.9), runner_up: None });
}

#[test]
fn weak_peaks_and_peaks_at_the_boundary_are_told_apart() {
    assert_eq!(seen(&[0.0, 0.04, 0.0]), Survey::Weak);
    assert_eq!(seen(&[f64::NAN, f64::NAN, f64::NAN]), Survey::Weak);
    assert_eq!(seen(&[0.0, f64::INFINITY, 0.0]), Survey::Weak);
    assert_eq!(seen(&[0.5, 0.1, 0.2]), Survey::AtEdge { best: 0 });
    assert_eq!(seen(&[0.1, 0.2, 0.5]), Survey::AtEdge { best: 2 });
    assert_eq!(seen(&[f64::NAN, 0.05, f64::NAN]), Survey::Peak { best: 1, peak: double(0.05), runner_up: None });
}

#[test]
fn a_silent_endpoint_and_an_empty_job_are_seen_before_any_peak() {
    assert_eq!(survey(&job(3), double(0.0), &[double(0.9); 3]), Survey::SilentEndpoint);
    assert_eq!(survey(&job(3), double(-0.0), &[double(0.9); 3]), Survey::SilentEndpoint);
    let mut short = job(3);
    short.reference.truncate(2);
    assert_eq!((short.lags(), job(3).lags()), (None, Some(3)));
    assert_eq!(survey(&short, double(1.0), &[]), Survey::Empty);
}

#[test]
fn rejections_say_why_and_whether_the_endpoint_is_to_blame() {
    assert_eq!(reason(&Survey::Empty, 0.0), ("empty alignment job".to_string(), false));
    assert_eq!(
        reason(&Survey::SilentEndpoint, 0.0),
        ("endpoint block is digital silence while the reference is active".to_string(), true)
    );
    assert_eq!(
        reason(&Survey::Weak, 0.0),
        ("no correlation peak (best P < 0.050); own audio not found on the endpoint".to_string(), false)
    );
    assert_eq!(
        reason(&Survey::AtEdge { best: 1 }, 0.0),
        (
            "correlation peak at the search boundary (offset -2); the true offset may lie outside the window".to_string(),
            true
        )
    );
    // A competitor that reaches the limit is enough.
    for rival in [0.46, 0.45] {
        let two = Survey::Peak { best: 1, peak: double(0.5), runner_up: Some((4, double(rival))) };
        assert_eq!(
            reason(&two, 0.45),
            (
                "ambiguous correlation: peak P at offset -2 but R at offset 1 (periodic own audio cannot pin an integer offset)"
                    .to_string(),
                false
            )
        );
    }
}

#[test]
fn a_candidate_names_its_offset_and_a_runner_up_of_at_least_zero() {
    let peak = double(0.5);
    for (rival, value, text) in [(Some((4, double(0.44))), 0.44, "R"), (Some((4, double(-0.1))), 0.0, "0.000"), (None, 0.0, "0.000")] {
        let r = run_align_job(&job(5), &Survey::Peak { best: 2, peak, runner_up: rival }, double(0.45), &shown());
        assert_eq!((r.id, r.generation), (9, 4));
        match r.outcome {
            AlignOutcome::Candidate { offset, peak: p, runner_up } => {
                assert_eq!((offset, p.value, p.text.as_str()), (-1, peak, "P"));
                assert_eq!((runner_up.value, runner_up.text.as_str()), (double(value), text));
            }
            other => panic!("{other:?}"),
        }
    }
}
