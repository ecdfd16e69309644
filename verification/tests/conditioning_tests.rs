//! Behavior of the signal-conditioning stages on concrete bursts.

use channelizer::conditioning::{
    dc_offset_removal, frequency_derotation, gain_normalization, iq_imbalance_correction, isqrt,
    noise_smoothing,
};
use channelizer::sample::{scale_div, Sample, FIXED_ONE};

fn constant_burst(re: i64, im: i64, len: usize) -> Vec<Sample> {
    vec![Sample { re, im }; len]
}

#[test]
fn dc_removal_on_constant_burst_shrinks_residual() {
    let mut burst = constant_burst(10000, -5000, 2048);
    dc_offset_removal(&mut burst, 655);
    for i in 0..burst.len() - 1 {
        assert!(burst[i + 1].re.abs() <= burst[i].re.abs());
        assert!(burst[i + 1].im.abs() <= burst[i].im.abs());
        assert!(burst[i].re.abs() <= 10000);
        assert!(burst[i].im.abs() <= 5000);
    }
    // over a long burst the residual heads toward zero, settling within
    // one quantization step of the smoothing factor
    assert!(burst[2047].re.abs() <= 128);
    assert!(burst[2047].im.abs() <= 128);
}

#[test]
fn dc_removal_with_unit_alpha_cancels_after_first_sample() {
    let mut burst = constant_burst(FIXED_ONE, 0, 4);
    dc_offset_removal(&mut burst, FIXED_ONE);
    // first sample sees an estimate of zero, later ones the full value
    assert_eq!(burst[0], Sample { re: FIXED_ONE, im: 0 });
    assert_eq!(burst[1], Sample { re: 0, im: 0 });
    assert_eq!(burst[2], Sample { re: 0, im: 0 });
    assert_eq!(burst[3], Sample { re: 0, im: 0 });
}

#[test]
fn iq_correction_identity_when_gain_one_phase_zero() {
    let original = vec![
        Sample { re: 123, im: -456 },
        Sample { re: -32000, im: 17 },
        Sample { re: 0, im: 0 },
    ];
    let mut burst = original.clone();
    iq_imbalance_correction(&mut burst, FIXED_ONE, FIXED_ONE, 0);
    assert_eq!(burst, original);
}

#[test]
fn iq_correction_quarter_turn_mixes_components() {
    // gain 1, phase 90 degrees: cos = 0, sin = 1
    let mut burst = vec![Sample { re: 100, im: 200 }];
    iq_imbalance_correction(&mut burst, FIXED_ONE, 0, FIXED_ONE);
    assert_eq!(burst[0], Sample { re: -200, im: 100 });
}

#[test]
fn derotation_identity_with_zero_offset_step() {
    let original = vec![
        Sample { re: 4096, im: -8192 },
        Sample { re: -100, im: 250 },
        Sample { re: 65536, im: 65536 },
    ];
    let mut burst = original.clone();
    frequency_derotation(&mut burst, FIXED_ONE, 0);
    assert_eq!(burst, original);
}

#[test]
fn derotation_quarter_turn_rotates_by_index() {
    // step = i (90 degrees): rotator at index k is i^k
    let mut burst = vec![
        Sample { re: 1000, im: 0 },
        Sample { re: 1000, im: 0 },
        Sample { re: 1000, im: 0 },
        Sample { re: 1000, im: 0 },
    ];
    frequency_derotation(&mut burst, 0, FIXED_ONE);
    assert_eq!(burst[0], Sample { re: 1000, im: 0 });
    assert_eq!(burst[1], Sample { re: 0, im: 1000 });
    assert_eq!(burst[2], Sample { re: -1000, im: 0 });
    assert_eq!(burst[3], Sample { re: 0, im: -1000 });
}

#[test]
fn gain_normalization_leaves_zero_burst_unchanged() {
    let mut burst = constant_burst(0, 0, 8192);
    gain_normalization(&mut burst);
    assert_eq!(burst.len(), 8192);
    for s in &burst {
        assert_eq!(*s, Sample { re: 0, im: 0 });
    }
}

#[test]
fn gain_normalization_brings_mean_magnitude_to_target() {
    let mut burst = constant_burst(1000, 0, 4);
    gain_normalization(&mut burst);
    // gain = (32768 * 65536) / 1000 = 2147483; 1000 * 2147483 / 65536 = 32767
    for s in &burst {
        assert_eq!(*s, Sample { re: 32767, im: 0 });
    }
}

#[test]
fn noise_smoothing_keeps_edges_and_averages_interior() {
    let mut burst: Vec<Sample> = (0..12).map(|i| Sample { re: 11 * i, im: 0 }).collect();
    let original = burst.clone();
    noise_smoothing(&mut burst);
    // margin of five samples at each edge is untouched
    for i in 0..5 {
        assert_eq!(burst[i], original[i]);
    }
    for i in 7..12 {
        assert_eq!(burst[i], original[i]);
    }
    // interior positions take the centered 11-wide average
    assert_eq!(burst[5], Sample { re: 55, im: 0 });
    assert_eq!(burst[6], Sample { re: 66, im: 0 });
}

#[test]
fn noise_smoothing_short_burst_unchanged() {
    let mut burst: Vec<Sample> = (0..10).map(|i| Sample { re: i * i, im: -i }).collect();
    let original = burst.clone();
    noise_smoothing(&mut burst);
    assert_eq!(burst, original);
}

#[test]
fn integer_square_root_rounds_down() {
    assert_eq!(isqrt(0), 0);
    assert_eq!(isqrt(1), 1);
    assert_eq!(isqrt(15), 3);
    assert_eq!(isqrt(16), 4);
    assert_eq!(isqrt(1 << 52), 1 << 26);
    assert_eq!(isqrt(u64::MAX), 4294967295);
}

#[test]
fn truncating_scale_division_rounds_toward_zero() {
    assert_eq!(scale_div(7, 2), 3);
    assert_eq!(scale_div(-7, 2), -3);
    assert_eq!(scale_div(65536, 65536), 1);
    assert_eq!(scale_div(-1, 65536), 0);
}
