//! The pipeline configuration: immutable once constructed, validated before
//! the loops start. Anything out of range is rejected here as a
//! configuration error, never discovered mid-run.

use vstd::prelude::*;
use crate::channelizer::MAX_CHANNELS;
use crate::sample::{FIXED_ONE, GAIN_MAX};

verus! {

/// Why a configuration was rejected at startup.
#[derive(Clone, Copy, Debug, PartialEq, Eq, Structural)]
pub enum ConfigError {
    ChannelCountOutOfRange,
    SampleRateZero,
    SelectionOutOfRange,
    AlphaOutOfRange,
    GainOutOfRange,
    PhaseOutOfRange,
    RotatorStepOutOfRange,
    PrototypeTooLong,
    TapOutOfRange,
    SampleRateBeyondBandwidth,
}

/// Which channels are forwarded to the sink boundary: either the full
/// index range or a contiguous sub-range, both ends inclusive.
#[derive(Clone, Copy, Debug, PartialEq, Eq, Structural)]
pub enum ChannelSelection {
    Full,
    Range { start: usize, end: usize },
}

impl ChannelSelection {
    /// A selection is valid when every selected index lies in
    /// `0 .. num_channels`.
    pub open spec fn valid(&self, num_channels: int) -> bool {
        match *self {
            ChannelSelection::Full => true,
            ChannelSelection::Range { start, end } => start <= end && end < num_channels,
        }
    }

    /// The selected channel indices, in increasing order.
    pub open spec fn spec_indices(&self, num_channels: int) -> Seq<int> {
        match *self {
            ChannelSelection::Full => Seq::new(num_channels as nat, |i: int| i),
            ChannelSelection::Range { start, end } => Seq::new(
                (end + 1 - start) as nat,
                |i: int| start + i,
            ),
        }
    }
}

/// The selected channel indices as a list, in increasing order.
pub fn selected_channels(sel: &ChannelSelection, num_channels: usize) -> (r: Vec<usize>)
    requires
        sel.valid(num_channels as int),
    ensures
        r@.len() == sel.spec_indices(num_channels as int).len(),
        forall|i: int| 0 <= i < r@.len() ==>
            #[trigger] r@[i] as int == sel.spec_indices(num_channels as int)[i],
{
    let mut out: Vec<usize> = Vec::new();
    match *sel {
        ChannelSelection::Full => {
            let mut c: usize = 0;
            while c < num_channels
                invariant
                    c <= num_channels,
                    out@.len() == c,
                    forall|i: int| 0 <= i < c ==> #[trigger] out@[i] == i,
                decreases num_channels - c,
            {
                out.push(c);
                c = c + 1;
            }
        },
        ChannelSelection::Range { start, end } => {
            let mut c: usize = start;
            while c <= end
                invariant
                    sel.valid(num_channels as int),
                    *sel == (ChannelSelection::Range { start, end }),
                    start <= c <= end + 1,
                    end < num_channels,
                    out@.len() == c - start,
                    forall|i: int| 0 <= i < out@.len() ==> #[trigger] out@[i] == start + i,
                decreases end + 1 - c,
            {
                out.push(c);
                c = c + 1;
            }
        },
    }
    out
}

/// The two operating presets.
#[derive(Clone, Copy, Debug, PartialEq, Eq, Structural)]
pub enum Mode {
    Bluetooth,
    Ble,
}

/// Resolves the operating preset into tuning values: the low-energy preset
/// overrides frequency, rate and bandwidth for the advertising channels;
/// the classic preset keeps the requested values.
pub fn resolve_mode(mode: Mode, center_frequency: u64, sample_rate: u32, bandwidth: u32) -> (r: (
    u64,
    u32,
    u32,
))
    ensures
        mode == Mode::Ble ==> r == (2426000000u64, 10000000u32, 2000000u32),
        mode == Mode::Bluetooth ==> r == (center_frequency, sample_rate, bandwidth),
{
    match mode {
        Mode::Ble => (2426000000, 10000000, 2000000),
        Mode::Bluetooth => (center_frequency, sample_rate, bandwidth),
    }
}

/// The fully resolved pipeline configuration, immutable for the process
/// lifetime once validated. Correction coefficients are Q16 fixed point;
/// the trigonometric ones are quantized toward zero so that they stay
/// within the unit circle.
#[derive(Clone, Copy, Debug)]
pub struct PipelineConfig {
    pub sample_rate: u32,
    pub center_frequency: u64,
    pub frequency_offset: i32,
    pub num_channels: usize,
    pub bandwidth: u32,
    pub enable_dc_offset: bool,
    pub enable_iq_correction: bool,
    pub enable_gain_normalization: bool,
    pub enable_noise_smoothing: bool,
    pub dc_alpha: i64,
    pub iq_gain: i64,
    pub iq_cos_phase: i64,
    pub iq_sin_phase: i64,
    pub rot_step_cos: i64,
    pub rot_step_sin: i64,
    pub selection: ChannelSelection,
    pub wide_timestamp: bool,
}

impl PipelineConfig {
    /// Everything the running pipeline relies on: positive channel count,
    /// selection within range, smoothing factor in (0, 1], gain ratio and
    /// trigonometric coefficients within their Q16 ranges, rotator step
    /// inside the unit circle.
    pub open spec fn valid(&self) -> bool {
        &&& 0 < self.num_channels <= MAX_CHANNELS
        &&& self.sample_rate > 0
        &&& self.selection.valid(self.num_channels as int)
        &&& 0 < self.dc_alpha <= FIXED_ONE
        &&& 0 <= self.iq_gain <= GAIN_MAX
        &&& -FIXED_ONE <= self.iq_cos_phase <= FIXED_ONE
        &&& -FIXED_ONE <= self.iq_sin_phase <= FIXED_ONE
        &&& -FIXED_ONE <= self.rot_step_cos <= FIXED_ONE
        &&& -FIXED_ONE <= self.rot_step_sin <= FIXED_ONE
        &&& self.rot_step_cos * self.rot_step_cos + self.rot_step_sin * self.rot_step_sin
            <= FIXED_ONE * FIXED_ONE
    }

    /// Validates the configuration before any loop starts. Returns `Ok`
    /// exactly on valid configurations, and otherwise the error of the
    /// first check that fails, in the order of the checks below.
    pub fn validate(&self) -> (r: Result<(), ConfigError>)
        ensures
            r.is_ok() <==> self.valid(),
            r == Err::<(), ConfigError>(ConfigError::ChannelCountOutOfRange)
                <==> !(0 < self.num_channels <= MAX_CHANNELS),
            r == Err::<(), ConfigError>(ConfigError::SampleRateZero)
                <==> (0 < self.num_channels <= MAX_CHANNELS && self.sample_rate == 0),
            r == Err::<(), ConfigError>(ConfigError::SelectionOutOfRange)
                <==> (0 < self.num_channels <= MAX_CHANNELS && self.sample_rate > 0
                    && !self.selection.valid(self.num_channels as int)),
            r == Err::<(), ConfigError>(ConfigError::AlphaOutOfRange)
                <==> (0 < self.num_channels <= MAX_CHANNELS && self.sample_rate > 0
                    && self.selection.valid(self.num_channels as int)
                    && !(0 < self.dc_alpha <= FIXED_ONE)),
            r == Err::<(), ConfigError>(ConfigError::GainOutOfRange)
                <==> (0 < self.num_channels <= MAX_CHANNELS && self.sample_rate > 0
                    && self.selection.valid(self.num_channels as int)
                    && 0 < self.dc_alpha <= FIXED_ONE
                    && !(0 <= self.iq_gain <= GAIN_MAX)),
            r == Err::<(), ConfigError>(ConfigError::PhaseOutOfRange)
                <==> (0 < self.num_channels <= MAX_CHANNELS && self.sample_rate > 0
                    && self.selection.valid(self.num_channels as int)
                    && 0 < self.dc_alpha <= FIXED_ONE
                    && 0 <= self.iq_gain <= GAIN_MAX
                    && !(-FIXED_ONE <= self.iq_cos_phase <= FIXED_ONE
                        && -FIXED_ONE <= self.iq_sin_phase <= FIXED_ONE)),
            r == Err::<(), ConfigError>(ConfigError::RotatorStepOutOfRange)
                <==> (0 < self.num_channels <= MAX_CHANNELS && self.sample_rate > 0
                    && self.selection.valid(self.num_channels as int)
                    && 0 < self.dc_alpha <= FIXED_ONE
                    && 0 <= self.iq_gain <= GAIN_MAX
                    && -FIXED_ONE <= self.iq_cos_phase <= FIXED_ONE
                    && -FIXED_ONE <= self.iq_sin_phase <= FIXED_ONE
                    && !(-FIXED_ONE <= self.rot_step_cos <= FIXED_ONE
                        && -FIXED_ONE <= self.rot_step_sin <= FIXED_ONE
                        && self.rot_step_cos * self.rot_step_cos
                            + self.rot_step_sin * self.rot_step_sin
                            <= FIXED_ONE * FIXED_ONE)),
    {
        if self.num_channels == 0 || self.num_channels > MAX_CHANNELS {
            return Err(ConfigError::ChannelCountOutOfRange);
        }
        if self.sample_rate == 0 {
            return Err(ConfigError::SampleRateZero);
        }
        match self.selection {
            ChannelSelection::Full => {},
            ChannelSelection::Range { start, end } => {
                if start > end || end >= self.num_channels {
                    return Err(ConfigError::SelectionOutOfRange);
                }
            },
        }
        if self.dc_alpha <= 0 || self.dc_alpha > FIXED_ONE {
            return Err(ConfigError::AlphaOutOfRange);
        }
        if self.iq_gain < 0 || self.iq_gain > GAIN_MAX {
            return Err(ConfigError::GainOutOfRange);
        }
        if self.iq_cos_phase < -FIXED_ONE || self.iq_cos_phase > FIXED_ONE
            || self.iq_sin_phase < -FIXED_ONE || self.iq_sin_phase > FIXED_ONE {
            return Err(ConfigError::PhaseOutOfRange);
        }
        if self.rot_step_cos < -FIXED_ONE || self.rot_step_cos > FIXED_ONE
            || self.rot_step_sin < -FIXED_ONE || self.rot_step_sin > FIXED_ONE {
            return Err(ConfigError::RotatorStepOutOfRange);
        }
        proof {
            crate::sample::lemma_abs_mul(
                self.rot_step_cos as int,
                FIXED_ONE as int,
                self.rot_step_cos as int,
                FIXED_ONE as int,
            );
            crate::sample::lemma_abs_mul(
                self.rot_step_sin as int,
                FIXED_ONE as int,
                self.rot_step_sin as int,
                FIXED_ONE as int,
            );
        }
        if self.rot_step_cos * self.rot_step_cos + self.rot_step_sin * self.rot_step_sin
            > FIXED_ONE * FIXED_ONE {
            return Err(ConfigError::RotatorStepOutOfRange);
        }
        Ok(())
    }
}

} // verus!
