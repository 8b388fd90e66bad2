use wasapi_loopback::ieee::{Frame, Single};
use wasapi_loopback::ring::FrameRing;

fn singles(v: &[f32]) -> Vec<Single> {
    v.iter().map(|x| Single { bits: x.to_bits() }).collect()
}

fn pair(f: Frame) -> [f32; 2] {
    [f32::from_bits(f.left.bits), f32::from_bits(f.right.bits)]
}

#[test]
fn stays_bounded_and_counts_nonzero_frames_across_wraparound() {
    let mut r = FrameRing::new(8);
    r.push(Some(&singles(&[1.0, 0.0, 0.0, 0.0, 0.0, -2.0])), 3).unwrap(); // frames 0..3: nz, z, nz
    r.push(None, 4).unwrap(); // frames 3..7 silent
    r.push(Some(&singles(&[0.5, 0.5, 0.0, 0.0, 0.0, 0.25])), 3).unwrap(); // frames 7..10: nz, z, nz
    assert_eq!((r.start(), r.end()), (2, 10));
    assert_eq!(r.nonzero_in(2, 10), 3); // frame 2, 7, 9
    assert_eq!(r.nonzero_in(3, 7), 0);
    assert_eq!(r.nonzero_in(8, 9), 0);
    assert_eq!(pair(r.frame(9)), [0.0, 0.25]);
    assert!(!r.contains(1, 4));
    assert!(r.contains(2, 10));
}

#[test]
fn rejects_non_finite_packets_without_appending() {
    let mut r = FrameRing::new(4);
    assert!(r.push(Some(&singles(&[0.0, f32::NAN])), 1).is_err());
    assert!(r.push(Some(&singles(&[0.0, 1.0, 2.0])), 1).is_err());
    assert_eq!(r.end(), 0);
}

#[test]
fn reset_empties_the_window_but_keeps_counting_indices() {
    let mut r = FrameRing::new(4);
    r.push(Some(&singles(&[1.0, 1.0, 1.0, 1.0])), 2).unwrap();
    r.reset(r.end());
    assert_eq!((r.start(), r.end()), (2, 2));
    r.push(None, 1).unwrap();
    assert_eq!(r.nonzero_in(2, 3), 0);
}

#[test]
fn negative_zero_is_silence_and_infinity_is_refused() {
    let mut r = FrameRing::new(4);
    r.push(Some(&singles(&[-0.0, 0.0, 0.0, f32::MIN_POSITIVE])), 2).unwrap();
    assert_eq!(r.nonzero_in(0, 1), 0);
    assert_eq!(r.nonzero_in(0, 2), 1);
    assert!(r.push(Some(&singles(&[f32::INFINITY, 0.0])), 1).is_err());
    assert!(r.push(Some(&singles(&[f32::NEG_INFINITY, 0.0])), 1).is_err());
    assert_eq!(r.end(), 2);
}

#[test]
fn interleaved_copies_read_back_as_the_frames() {
    let data = singles(&[1.0, 2.0, 3.0, 4.0, 5.0, 6.0]);
    let mut r = FrameRing::new(8);
    r.push(Some(&data), 3).unwrap();
    let mut out = singles(&[9.0]);
    r.copy_interleaved(1, 3, &mut out);
    assert_eq!(out, singles(&[9.0, 3.0, 4.0, 5.0, 6.0]));
    let back: Vec<[f32; 2]> = r.frames(0, 3).into_iter().map(pair).collect();
    assert_eq!(back, vec![[1.0, 2.0], [3.0, 4.0], [5.0, 6.0]]);
}
