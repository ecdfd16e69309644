//! The decision logic of the radio backends, modeled on plain values:
//! model detection from the FPGA version tag, per-model bandwidth limits,
//! rate validation, and the tuning state a session carries. The hardware
//! calls themselves live at the application boundary and hand these
//! functions their plain inputs.

use vstd::prelude::*;
use crate::config::ConfigError;

verus! {

/// The BladeRF family, told apart by the FPGA version tag.
#[derive(Clone, Copy, Debug, PartialEq, Eq, Structural)]
pub enum BladeRfModel {
    Original,
    Xa4,
    Xa9,
    Xa16,
}

/// The version tag of the original model: the ASCII bytes of "40".
pub open spec fn tag_original(v: Seq<u8>) -> bool {
    v.len() == 2 && v[0] == 52u8 && v[1] == 48u8
}

/// The version tag of the A4 model: the ASCII bytes of "XA4".
pub open spec fn tag_xa4(v: Seq<u8>) -> bool {
    v.len() == 3 && v[0] == 88u8 && v[1] == 65u8 && v[2] == 52u8
}

/// The version tag of the A9 model: the ASCII bytes of "XA9".
pub open spec fn tag_xa9(v: Seq<u8>) -> bool {
    v.len() == 3 && v[0] == 88u8 && v[1] == 65u8 && v[2] == 57u8
}

/// The version tag of the A16 model: the ASCII bytes of "XA16".
pub open spec fn tag_xa16(v: Seq<u8>) -> bool {
    v.len() == 4 && v[0] == 88u8 && v[1] == 65u8 && v[2] == 49u8 && v[3] == 54u8
}

/// Which model a version tag names; anything unrecognized falls back to
/// the original model, as the probe does.
pub open spec fn spec_bladerf_model(v: Seq<u8>) -> BladeRfModel {
    if tag_original(v) {
        BladeRfModel::Original
    } else if tag_xa4(v) {
        BladeRfModel::Xa4
    } else if tag_xa9(v) {
        BladeRfModel::Xa9
    } else if tag_xa16(v) {
        BladeRfModel::Xa16
    } else {
        BladeRfModel::Original
    }
}

/// Classifies the FPGA version tag read from the device.
pub fn bladerf_model_from_fpga(version: &[u8]) -> (m: BladeRfModel)
    ensures
        m == spec_bladerf_model(version@),
{
    if version.len() == 3 && version[0] == 88 && version[1] == 65 && version[2] == 52 {
        BladeRfModel::Xa4
    } else if version.len() == 3 && version[0] == 88 && version[1] == 65 && version[2] == 57 {
        BladeRfModel::Xa9
    } else if version.len() == 4 && version[0] == 88 && version[1] == 65 && version[2] == 49
        && version[3] == 54 {
        BladeRfModel::Xa16
    } else {
        BladeRfModel::Original
    }
}

/// The largest bandwidth each BladeRF model supports, in Hz.
pub fn bladerf_max_bandwidth(m: BladeRfModel) -> (bw: u32)
    ensures
        m == BladeRfModel::Original ==> bw == 28000000,
        m == BladeRfModel::Xa4 ==> bw == 38000000,
        m == BladeRfModel::Xa9 ==> bw == 61000000,
        m == BladeRfModel::Xa16 ==> bw == 61000000,
{
    match m {
        BladeRfModel::Original => 28000000,
        BladeRfModel::Xa4 => 38000000,
        BladeRfModel::Xa9 => 61000000,
        BladeRfModel::Xa16 => 61000000,
    }
}

/// A sample rate beyond what the hardware can pass is rejected before it
/// reaches the device, exactly when it exceeds the model's bandwidth.
pub fn check_sample_rate(rate: u32, max_bandwidth: u32) -> (r: Result<(), ConfigError>)
    ensures
        r.is_ok() <==> rate <= max_bandwidth,
        rate > max_bandwidth ==> r == Err::<(), ConfigError>(
            ConfigError::SampleRateBeyondBandwidth,
        ),
{
    if rate > max_bandwidth {
        Err(ConfigError::SampleRateBeyondBandwidth)
    } else {
        Ok(())
    }
}

/// The largest bandwidth the LimeSDR front end supports, in Hz.
pub fn lime_max_bandwidth() -> (bw: u32)
    ensures
        bw == 61440000,
{
    61440000
}

/// The tuning state of one XTRX session: what has been asked of the
/// device so far, as plain values. The FFI handle that carries these
/// requests to the hardware stays at the application boundary.
pub struct XTRXSdr {
    pub frequency_hz: u64,
    pub cgen_rate_hz: u32,
    pub rx_rate_hz: u32,
    pub tx_rate_hz: u32,
    pub bandwidth_hz: u32,
    pub gain_milli_db: i64,
}

impl XTRXSdr {
    /// A fresh session with nothing tuned yet.
    pub fn new() -> (s: XTRXSdr)
        ensures
            s.frequency_hz == 0,
            s.cgen_rate_hz == 0,
            s.rx_rate_hz == 0,
            s.tx_rate_hz == 0,
            s.bandwidth_hz == 0,
            s.gain_milli_db == 0,
    {
        XTRXSdr {
            frequency_hz: 0,
            cgen_rate_hz: 0,
            rx_rate_hz: 0,
            tx_rate_hz: 0,
            bandwidth_hz: 0,
            gain_milli_db: 0,
        }
    }

    /// Records an RX tune request.
    pub fn set_frequency(&mut self, freq_hz: u64)
        ensures
            final(self).frequency_hz == freq_hz,
            final(self).cgen_rate_hz == old(self).cgen_rate_hz,
            final(self).rx_rate_hz == old(self).rx_rate_hz,
            final(self).tx_rate_hz == old(self).tx_rate_hz,
            final(self).bandwidth_hz == old(self).bandwidth_hz,
            final(self).gain_milli_db == old(self).gain_milli_db,
    {
        self.frequency_hz = freq_hz;
    }

    /// One requested rate drives the clock generator and both the RX and
    /// TX paths alike.
    pub fn set_sample_rate(&mut self, rate_hz: u32)
        ensures
            final(self).cgen_rate_hz == rate_hz,
            final(self).rx_rate_hz == rate_hz,
            final(self).tx_rate_hz == rate_hz,
            final(self).frequency_hz == old(self).frequency_hz,
            final(self).bandwidth_hz == old(self).bandwidth_hz,
            final(self).gain_milli_db == old(self).gain_milli_db,
    {
        self.cgen_rate_hz = rate_hz;
        self.rx_rate_hz = rate_hz;
        self.tx_rate_hz = rate_hz;
    }

    /// Records an RX bandwidth request.
    pub fn set_rx_bandwidth(&mut self, bw_hz: u32)
        ensures
            final(self).bandwidth_hz == bw_hz,
            final(self).frequency_hz == old(self).frequency_hz,
            final(self).cgen_rate_hz == old(self).cgen_rate_hz,
            final(self).rx_rate_hz == old(self).rx_rate_hz,
            final(self).tx_rate_hz == old(self).tx_rate_hz,
            final(self).gain_milli_db == old(self).gain_milli_db,
    {
        self.bandwidth_hz = bw_hz;
    }

    /// Records an RX gain request, in thousandths of a decibel.
    pub fn set_gain(&mut self, gain_milli_db: i64)
        ensures
            final(self).gain_milli_db == gain_milli_db,
            final(self).frequency_hz == old(self).frequency_hz,
            final(self).cgen_rate_hz == old(self).cgen_rate_hz,
            final(self).rx_rate_hz == old(self).rx_rate_hz,
            final(self).tx_rate_hz == old(self).tx_rate_hz,
            final(self).bandwidth_hz == old(self).bandwidth_hz,
    {
        self.gain_milli_db = gain_milli_db;
    }

    /// The largest bandwidth the XTRX front end supports, in Hz.
    pub fn get_bandwidth(&self) -> (bw: u32)
        ensures
            bw == 120000000,
    {
        120000000
    }
}

} // verus!
