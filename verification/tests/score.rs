use mcproxy::score::{score_at_least, score_passes, times_ten};

/// Scores of every exponent, of both signs, with fractions at the edges.
fn samples() -> Vec<f32> {
    let mut samples = vec![0.0, 0.1, 0.05, 0.3, 0.9, 1.0, 3.0, 0.7, 1e-45, 3.4e37, 3.5e37];
    for exponent in 0..=255u32 {
        for fraction in
            [0, 1, 2, 3, 0x19_9999, 0x19_999a, 0x33_3333, 0x4c_cccc, 0x4c_cccd, 0x7f_fffe, 0x7f_ffff]
        {
            samples.push(f32::from_bits(exponent << 23 | fraction));
        }
    }
    let mut state: u32 = 12345;
    for _ in 0..20_000 {
        state = state.wrapping_mul(1_664_525).wrapping_add(1_013_904_223);
        samples.push(f32::from_bits(state));
    }
    let negative: Vec<f32> = samples.iter().map(|score| -score).collect();
    samples.extend(negative);
    samples
}

#[test]
fn ten_times_a_score_is_what_floating_point_gives() {
    for score in samples() {
        let product = f32::from_bits(times_ten(score.to_bits()));
        let expected = score * 10.0;
        if expected.is_nan() {
            assert!(product.is_nan());
        } else {
            assert_eq!(product.to_bits(), expected.to_bits(), "{:e}", score);
        }
    }
}

#[test]
fn scores_are_compared_as_floating_point_does() {
    let samples: Vec<f32> = samples().into_iter().step_by(97).collect();
    for &a in &samples {
        for &b in &samples {
            assert_eq!(score_at_least(a.to_bits(), b.to_bits()), a >= b, "{:e} {:e}", a, b);
            assert_eq!(score_passes(a.to_bits(), b.to_bits()), a >= b * 10.0, "{:e} {:e}", a, b);
        }
    }
    assert!(score_at_least((-0.0f32).to_bits(), 0.0f32.to_bits()));
    assert!(!score_at_least(f32::NAN.to_bits(), f32::NAN.to_bits()));
}

#[test]
fn a_threshold_is_a_tenth_of_a_score() {
    assert!(score_passes(3.0f32.to_bits(), 0.3f32.to_bits()) == (3.0 >= 0.3f32 * 10.0));
    assert!(score_passes(1.0f32.to_bits(), 0.1f32.to_bits()));
    assert!(!score_passes(0.99f32.to_bits(), 0.1f32.to_bits()));
    assert!(!score_passes(f32::NAN.to_bits(), 0.1f32.to_bits()));
    assert!(!score_passes(1.0f32.to_bits(), f32::NAN.to_bits()));
    assert!(score_passes(f32::INFINITY.to_bits(), f32::MAX.to_bits()));
}

#[test]
fn what_passes_a_threshold_passes_each_lower_one() {
    let thresholds = [f32::NEG_INFINITY, -3.0, -0.0, 0.0, 1e-45, 0.05, 0.1, 0.3, 3.5e37, f32::INFINITY];
    for pair in thresholds.windows(2) {
        for score in samples() {
            if score_passes(score.to_bits(), pair[1].to_bits()) {
                assert!(score_passes(score.to_bits(), pair[0].to_bits()));
            }
            let lower = f32::from_bits(times_ten(pair[0].to_bits()));
            let higher = f32::from_bits(times_ten(pair[1].to_bits()));
            assert!(lower <= higher);
        }
    }
}
