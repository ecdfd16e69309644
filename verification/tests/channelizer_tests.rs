//! Filter-bank partitioning, the two channelization strategies, their
//! agreement and linearity, and the end-to-end processing step.

use channelizer::channelizer::{
    channelize, channelize_channel, channelize_direct, channelize_transposed, scale_burst,
    FilterBank, Strategy,
};
use channelizer::conditioning::{
    dc_offset_removal, gain_normalization, iq_imbalance_correction, noise_smoothing,
};
use channelizer::config::{ChannelSelection, ConfigError, PipelineConfig};
use channelizer::pipeline::{condition_burst, process_burst};
use channelizer::sample::Sample;

fn test_config(num_channels: usize) -> PipelineConfig {
    PipelineConfig {
        sample_rate: 10000000,
        center_frequency: 2402000000,
        frequency_offset: 0,
        num_channels,
        bandwidth: 2000000,
        enable_dc_offset: false,
        enable_iq_correction: false,
        enable_gain_normalization: false,
        enable_noise_smoothing: false,
        dc_alpha: 655,
        iq_gain: 65536,
        iq_cos_phase: 65536,
        iq_sin_phase: 0,
        rot_step_cos: 65536,
        rot_step_sin: 0,
        selection: ChannelSelection::Full,
        wide_timestamp: true,
    }
}

fn ramp_burst(len: usize) -> Vec<Sample> {
    (0..len)
        .map(|i| Sample { re: (i as i64 % 997) - 498, im: ((i as i64 * 7) % 991) - 495 })
        .collect()
}

fn ramp_prototype(len: usize) -> Vec<i64> {
    (0..len).map(|i| (i as i64 % 129) - 64).collect()
}

#[test]
fn partition_128_taps_over_20_channels_gives_6_or_7_each() {
    let prototype = ramp_prototype(128);
    let bank = FilterBank::new(&prototype, 20).unwrap();
    assert_eq!(bank.phases.len(), 20);
    let mut total = 0;
    for (c, phase) in bank.phases.iter().enumerate() {
        assert!(phase.len() == 6 || phase.len() == 7);
        assert!(phase.len() > 0);
        // 128 = 20 * 6 + 8: the first eight channels carry the remainder
        if c < 8 {
            assert_eq!(phase.len(), 7);
        } else {
            assert_eq!(phase.len(), 6);
        }
        total += phase.len();
    }
    assert_eq!(total, 128);
}

#[test]
fn partition_assigns_taps_round_robin() {
    let prototype: Vec<i64> = (0..10).collect();
    let bank = FilterBank::new(&prototype, 4).unwrap();
    assert_eq!(bank.phases[0], vec![0, 4, 8]);
    assert_eq!(bank.phases[1], vec![1, 5, 9]);
    assert_eq!(bank.phases[2], vec![2, 6]);
    assert_eq!(bank.phases[3], vec![3, 7]);
}

#[test]
fn partition_rejects_bad_inputs() {
    let prototype = ramp_prototype(16);
    assert_eq!(
        FilterBank::new(&prototype, 0).unwrap_err(),
        ConfigError::ChannelCountOutOfRange
    );
    let long = ramp_prototype(257);
    assert_eq!(FilterBank::new(&long, 1).unwrap_err(), ConfigError::PrototypeTooLong);
    let loud = vec![200000i64; 8];
    assert_eq!(FilterBank::new(&loud, 4).unwrap_err(), ConfigError::TapOutOfRange);
}

#[test]
fn strategies_agree_exactly() {
    let prototype = ramp_prototype(128);
    let bank = FilterBank::new(&prototype, 20).unwrap();
    let burst = ramp_burst(8192);
    let direct = channelize_direct(&burst, &bank);
    let transposed = channelize_transposed(&burst, &bank);
    assert_eq!(direct, transposed);
    let via_enum_a = channelize(&burst, &bank, Strategy::Direct);
    let via_enum_b = channelize(&burst, &bank, Strategy::Transposed);
    assert_eq!(via_enum_a, direct);
    assert_eq!(via_enum_b, direct);
}

#[test]
fn channelization_is_linear_in_the_burst() {
    let prototype = ramp_prototype(64);
    let bank = FilterBank::new(&prototype, 8).unwrap();
    let burst = ramp_burst(512);
    let base = channelize_direct(&burst, &bank);
    let mut scaled = burst.clone();
    scale_burst(&mut scaled, 3);
    for strategy in [Strategy::Direct, Strategy::Transposed] {
        let out = channelize(&scaled, &bank, strategy);
        for c in 0..8 {
            for i in 0..base[c].len() {
                assert_eq!(out[c][i], 3 * base[c][i]);
            }
        }
    }
}

#[test]
fn single_channel_matches_bank_output() {
    let prototype = ramp_prototype(64);
    let bank = FilterBank::new(&prototype, 8).unwrap();
    let burst = ramp_burst(512);
    let all = channelize_direct(&burst, &bank);
    for c in 0..8 {
        let one = channelize_channel(&burst, &bank.phases[c], c, 8);
        assert_eq!(one, all[c]);
    }
}

#[test]
fn channel_output_is_the_causal_decimated_convolution() {
    // two channels, two taps each: out[c][i] = t0*x[i*2+c] + t1*x[(i-1)*2+c]
    let prototype = vec![100, 200, 300, 400];
    let bank = FilterBank::new(&prototype, 2).unwrap();
    let burst: Vec<Sample> = (0..6).map(|i| Sample { re: i + 1, im: 0 }).collect();
    let out = channelize_direct(&burst, &bank);
    // channel 0 taps [100, 300], decimated view [1, 3, 5]
    assert_eq!(out[0], vec![100, 300 + 300, 500 + 900]);
    // channel 1 taps [200, 400], decimated view [2, 4, 6]
    assert_eq!(out[1], vec![400, 800 + 800, 1200 + 1600]);
}

#[test]
fn conditioning_composes_the_stages_in_order() {
    let mut cfg = test_config(4);
    cfg.enable_dc_offset = true;
    cfg.enable_iq_correction = true;
    cfg.enable_gain_normalization = true;
    cfg.enable_noise_smoothing = true;
    cfg.iq_sin_phase = 655;
    assert!(cfg.validate().is_ok());
    let mut piped = ramp_burst(64);
    let mut manual = piped.clone();
    condition_burst(&mut piped, &cfg);
    dc_offset_removal(&mut manual, cfg.dc_alpha);
    iq_imbalance_correction(&mut manual, cfg.iq_gain, cfg.iq_cos_phase, cfg.iq_sin_phase);
    // offset is zero, so no de-rotation stage runs
    gain_normalization(&mut manual);
    noise_smoothing(&mut manual);
    assert_eq!(piped, manual);
}

#[test]
fn end_to_end_8192_samples_20_channels() {
    let cfg = test_config(20);
    assert!(cfg.validate().is_ok());
    let prototype = ramp_prototype(128);
    let bank = FilterBank::new(&prototype, 20).unwrap();
    let mut burst = ramp_burst(8192);
    let reference = channelize_direct(&burst.clone(), &bank);
    let out = process_burst(&mut burst, &cfg, &bank, Strategy::Direct);
    assert_eq!(out.len(), 20);
    for channel in &out {
        assert_eq!(channel.len(), 8192 / 20);
        assert_eq!(channel.len(), 409);
    }
    // with every conditioning stage disabled and zero offset the burst
    // reaches the channelizer untouched
    assert_eq!(out, reference);
}
