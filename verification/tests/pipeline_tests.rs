//! Configuration validation, channel selection, mode presets, the bounded
//! hand-off, header framing, and the backend decision logic.

use channelizer::config::{
    resolve_mode, selected_channels, ChannelSelection, ConfigError, Mode, PipelineConfig,
};
use channelizer::devices::{
    bladerf_max_bandwidth, bladerf_model_from_fpga, check_sample_rate, lime_max_bandwidth,
    BladeRfModel, XTRXSdr,
};
use channelizer::handoff::{acquisition_step, AcqAction, AcqEvent, HandoffQueue, TimedBurst};
use channelizer::header::{channel_bytes, encode_header};
use channelizer::sample::Sample;

fn base_config() -> PipelineConfig {
    PipelineConfig {
        sample_rate: 10000000,
        center_frequency: 2402000000,
        frequency_offset: 0,
        num_channels: 20,
        bandwidth: 2000000,
        enable_dc_offset: true,
        enable_iq_correction: true,
        enable_gain_normalization: true,
        enable_noise_smoothing: true,
        dc_alpha: 655,
        iq_gain: 65536,
        iq_cos_phase: 65534,
        iq_sin_phase: 655,
        rot_step_cos: 65535,
        rot_step_sin: 41,
        selection: ChannelSelection::Full,
        wide_timestamp: true,
    }
}

#[test]
fn valid_configuration_passes() {
    assert!(base_config().validate().is_ok());
}

#[test]
fn selection_beyond_channel_count_is_rejected_at_configuration_time() {
    let mut cfg = base_config();
    cfg.selection = ChannelSelection::Range { start: 25, end: 30 };
    assert_eq!(cfg.validate().unwrap_err(), ConfigError::SelectionOutOfRange);
    cfg.selection = ChannelSelection::Range { start: 5, end: 3 };
    assert_eq!(cfg.validate().unwrap_err(), ConfigError::SelectionOutOfRange);
    cfg.selection = ChannelSelection::Range { start: 0, end: 19 };
    assert!(cfg.validate().is_ok());
}

#[test]
fn each_configuration_error_has_an_input() {
    let mut cfg = base_config();
    cfg.num_channels = 0;
    assert_eq!(cfg.validate().unwrap_err(), ConfigError::ChannelCountOutOfRange);
    let mut cfg = base_config();
    cfg.sample_rate = 0;
    assert_eq!(cfg.validate().unwrap_err(), ConfigError::SampleRateZero);
    let mut cfg = base_config();
    cfg.dc_alpha = 0;
    assert_eq!(cfg.validate().unwrap_err(), ConfigError::AlphaOutOfRange);
    let mut cfg = base_config();
    cfg.iq_gain = -1;
    assert_eq!(cfg.validate().unwrap_err(), ConfigError::GainOutOfRange);
    let mut cfg = base_config();
    cfg.iq_cos_phase = 65537;
    assert_eq!(cfg.validate().unwrap_err(), ConfigError::PhaseOutOfRange);
    let mut cfg = base_config();
    cfg.rot_step_cos = 65536;
    cfg.rot_step_sin = 65536;
    assert_eq!(cfg.validate().unwrap_err(), ConfigError::RotatorStepOutOfRange);
}

#[test]
fn selected_channels_full_and_range() {
    let full = selected_channels(&ChannelSelection::Full, 5);
    assert_eq!(full, vec![0, 1, 2, 3, 4]);
    let range = selected_channels(&ChannelSelection::Range { start: 2, end: 4 }, 5);
    assert_eq!(range, vec![2, 3, 4]);
}

#[test]
fn low_energy_preset_overrides_tuning() {
    let (f, r, b) = resolve_mode(Mode::Ble, 2402000000, 20000000, 4000000);
    assert_eq!((f, r, b), (2426000000, 10000000, 2000000));
    let (f, r, b) = resolve_mode(Mode::Bluetooth, 2402000000, 20000000, 4000000);
    assert_eq!((f, r, b), (2402000000, 20000000, 4000000));
}

fn burst_of(re: i64) -> TimedBurst {
    TimedBurst { samples: vec![Sample { re, im: 0 }; 4], timestamp_ns: re as u128 }
}

#[test]
fn handoff_queue_blocks_eleventh_burst_until_one_is_consumed() {
    let mut q = HandoffQueue::new(10);
    assert_eq!(q.capacity(), 10);
    for i in 0..10 {
        assert!(q.try_push(burst_of(i)).is_none());
    }
    assert_eq!(q.len(), 10);
    // the eleventh burst is refused: the producer has to wait
    let rejected = q.try_push(burst_of(10));
    assert!(rejected.is_some());
    assert_eq!(rejected.unwrap().timestamp_ns, 10);
    assert_eq!(q.len(), 10);
    // once the consumer removes one, there is room again
    let oldest = q.pop().unwrap();
    assert_eq!(oldest.timestamp_ns, 0);
    assert!(q.try_push(burst_of(10)).is_none());
    assert_eq!(q.len(), 10);
}

#[test]
fn handoff_queue_is_first_in_first_out() {
    let mut q = HandoffQueue::new(3);
    assert!(q.pop().is_none());
    assert!(q.try_push(burst_of(7)).is_none());
    assert!(q.try_push(burst_of(8)).is_none());
    assert_eq!(q.pop().unwrap().timestamp_ns, 7);
    assert_eq!(q.pop().unwrap().timestamp_ns, 8);
    assert!(q.pop().is_none());
}

#[test]
fn acquisition_decisions_separate_transient_from_fatal() {
    assert_eq!(acquisition_step(AcqEvent::BurstReady), AcqAction::Enqueue);
    assert_eq!(acquisition_step(AcqEvent::ReadFailed), AcqAction::RetryRead);
    assert_eq!(acquisition_step(AcqEvent::QueueFull), AcqAction::WaitForConsumer);
    assert_eq!(acquisition_step(AcqEvent::ReceiverGone), AcqAction::TerminateFatal);
}

#[test]
fn archive_header_layout_wide() {
    let h = encode_header(8192, 0x0102030405060708090A0B0C0D0E0F10, true);
    assert_eq!(h.len(), 24);
    assert_eq!(h[0..4], [0x00, 0x00, 0xC0, 0xDE]);
    assert_eq!(h[4..8], [0x00, 0x00, 0x20, 0x00]);
    assert_eq!(
        h[8..24],
        [0x01, 0x02, 0x03, 0x04, 0x05, 0x06, 0x07, 0x08, 0x09, 0x0A, 0x0B, 0x0C, 0x0D, 0x0E,
            0x0F, 0x10]
    );
}

#[test]
fn archive_header_layout_narrow() {
    let h = encode_header(3, 0xAABBCCDDEEFF0011, false);
    assert_eq!(h.len(), 16);
    assert_eq!(h[0..4], [0x00, 0x00, 0xC0, 0xDE]);
    assert_eq!(h[4..8], [0x00, 0x00, 0x00, 0x03]);
    assert_eq!(h[8..16], [0xAA, 0xBB, 0xCC, 0xDD, 0xEE, 0xFF, 0x00, 0x11]);
}

#[test]
fn channel_sink_bytes_are_little_endian() {
    let bytes = channel_bytes(&vec![1i64, -1i64]);
    assert_eq!(bytes.len(), 16);
    assert_eq!(bytes[0..8], [1, 0, 0, 0, 0, 0, 0, 0]);
    assert_eq!(bytes[8..16], [0xFF; 8]);
    assert_eq!(bytes[0..8], 1i64.to_le_bytes());
    assert_eq!(bytes[8..16], (-1i64).to_le_bytes());
}

#[test]
fn bladerf_models_from_fpga_tags() {
    assert_eq!(bladerf_model_from_fpga(b"40"), BladeRfModel::Original);
    assert_eq!(bladerf_model_from_fpga(b"XA4"), BladeRfModel::Xa4);
    assert_eq!(bladerf_model_from_fpga(b"XA9"), BladeRfModel::Xa9);
    assert_eq!(bladerf_model_from_fpga(b"XA16"), BladeRfModel::Xa16);
    assert_eq!(bladerf_model_from_fpga(b"mystery"), BladeRfModel::Original);
}

#[test]
fn bladerf_bandwidth_per_model() {
    assert_eq!(bladerf_max_bandwidth(BladeRfModel::Original), 28000000);
    assert_eq!(bladerf_max_bandwidth(BladeRfModel::Xa4), 38000000);
    assert_eq!(bladerf_max_bandwidth(BladeRfModel::Xa9), 61000000);
    assert_eq!(bladerf_max_bandwidth(BladeRfModel::Xa16), 61000000);
}

#[test]
fn sample_rate_beyond_bandwidth_is_rejected() {
    assert!(check_sample_rate(28000000, 28000000).is_ok());
    assert_eq!(
        check_sample_rate(28000001, 28000000).unwrap_err(),
        ConfigError::SampleRateBeyondBandwidth
    );
}

#[test]
fn xtrx_session_records_tuning_state() {
    let mut sdr = XTRXSdr::new();
    assert_eq!(sdr.frequency_hz, 0);
    sdr.set_frequency(2402000000);
    sdr.set_sample_rate(10000000);
    sdr.set_rx_bandwidth(2000000);
    assert_eq!(sdr.frequency_hz, 2402000000);
    assert_eq!(sdr.cgen_rate_hz, 10000000);
    assert_eq!(sdr.rx_rate_hz, 10000000);
    assert_eq!(sdr.tx_rate_hz, 10000000);
    assert_eq!(sdr.bandwidth_hz, 2000000);
    assert_eq!(sdr.get_bandwidth(), 120000000);
    assert_eq!(lime_max_bandwidth(), 61440000);
}
