//! The per-burst processing step: the ordered conditioning stages applied
//! in place, then channelization — everything that happens to one burst
//! between the hand-off queue and the sink boundary.

use vstd::prelude::*;
use crate::channelizer::{channel_out, channelize, FilterBank, Strategy};
use crate::conditioning::{
    agc_at, dc_offset_removal, dc_removed_at, derotated_at, frequency_derotation,
    gain_normalization, iq_corrected_at, iq_imbalance_correction, lemma_burst_bounded_widen,
    mean_magnitude, noise_smoothing, smoothed_at,
};
use crate::config::PipelineConfig;
use crate::sample::{burst_bounded, Sample, COND_CAP, DC_CAP, IQ_CAP, MAX_BURST_LEN, RAW_CAP, ROT_CAP};

verus! {

/// The burst after the optional DC-offset stage.
pub open spec fn stage_dc(s: Seq<Sample>, cfg: PipelineConfig) -> Seq<Sample> {
    if cfg.enable_dc_offset {
        Seq::new(s.len(), |i: int| dc_removed_at(s, cfg.dc_alpha as int, i))
    } else {
        s
    }
}

/// The burst after the optional I/Q imbalance stage.
pub open spec fn stage_iq(s: Seq<Sample>, cfg: PipelineConfig) -> Seq<Sample> {
    if cfg.enable_iq_correction {
        Seq::new(
            s.len(),
            |i: int| iq_corrected_at(
                s,
                cfg.iq_gain as int,
                cfg.iq_cos_phase as int,
                cfg.iq_sin_phase as int,
                i,
            ),
        )
    } else {
        s
    }
}

/// The burst after de-rotation, applied only when a frequency offset is
/// configured.
pub open spec fn stage_rot(s: Seq<Sample>, cfg: PipelineConfig) -> Seq<Sample> {
    if cfg.frequency_offset != 0 {
        Seq::new(
            s.len(),
            |i: int| derotated_at(s, cfg.rot_step_cos as int, cfg.rot_step_sin as int, i),
        )
    } else {
        s
    }
}

/// The burst after optional gain normalization; a burst with mean
/// magnitude zero passes through unscaled.
pub open spec fn stage_agc(s: Seq<Sample>, cfg: PipelineConfig) -> Seq<Sample> {
    if cfg.enable_gain_normalization && mean_magnitude(s) != 0 {
        Seq::new(s.len(), |i: int| agc_at(s, i))
    } else {
        s
    }
}

/// The burst after optional noise smoothing.
pub open spec fn stage_smooth(s: Seq<Sample>, cfg: PipelineConfig) -> Seq<Sample> {
    if cfg.enable_noise_smoothing {
        Seq::new(s.len(), |i: int| smoothed_at(s, i))
    } else {
        s
    }
}

/// The whole conditioning pipeline: the five stages in their fixed order.
pub open spec fn conditioned(s: Seq<Sample>, cfg: PipelineConfig) -> Seq<Sample> {
    stage_smooth(stage_agc(stage_rot(stage_iq(stage_dc(s, cfg), cfg), cfg), cfg), cfg)
}

/// Applies the conditioning stages to one burst, in place, in their fixed
/// order, honoring the configuration's stage gates.
pub fn condition_burst(buffer: &mut Vec<Sample>, cfg: &PipelineConfig)
    requires
        cfg.valid(),
        burst_bounded(old(buffer)@, RAW_CAP as int),
        old(buffer)@.len() <= MAX_BURST_LEN,
    ensures
        final(buffer)@ == conditioned(old(buffer)@, *cfg),
        final(buffer)@.len() == old(buffer)@.len(),
        burst_bounded(final(buffer)@, COND_CAP as int),
{
    let ghost s0 = buffer@;
    if cfg.enable_dc_offset {
        dc_offset_removal(buffer, cfg.dc_alpha);
    } else {
        proof {
            lemma_burst_bounded_widen(buffer@, RAW_CAP as int, DC_CAP as int);
        }
    }
    proof {
        assert(buffer@ =~= stage_dc(s0, *cfg));
    }
    let ghost s1 = stage_dc(s0, *cfg);
    if cfg.enable_iq_correction {
        iq_imbalance_correction(buffer, cfg.iq_gain, cfg.iq_cos_phase, cfg.iq_sin_phase);
    } else {
        proof {
            lemma_burst_bounded_widen(buffer@, DC_CAP as int, IQ_CAP as int);
        }
    }
    proof {
        assert(buffer@ =~= stage_iq(s1, *cfg));
    }
    let ghost s2 = stage_iq(s1, *cfg);
    if cfg.frequency_offset != 0 {
        frequency_derotation(buffer, cfg.rot_step_cos, cfg.rot_step_sin);
    } else {
        proof {
            lemma_burst_bounded_widen(buffer@, IQ_CAP as int, ROT_CAP as int);
        }
    }
    proof {
        assert(buffer@ =~= stage_rot(s2, *cfg));
    }
    let ghost s3 = stage_rot(s2, *cfg);
    if cfg.enable_gain_normalization {
        gain_normalization(buffer);
    } else {
        proof {
            lemma_burst_bounded_widen(buffer@, ROT_CAP as int, COND_CAP as int);
        }
    }
    proof {
        assert(buffer@ =~= stage_agc(s3, *cfg));
    }
    let ghost s4 = stage_agc(s3, *cfg);
    if cfg.enable_noise_smoothing {
        noise_smoothing(buffer);
    }
    proof {
        assert(buffer@ =~= stage_smooth(s4, *cfg));
    }
}

/// Conditions one burst in place and channelizes it: the per-burst work
/// of the processing thread, from hand-off to sink boundary. The contract
/// is independent of the execution strategy.
pub fn process_burst(
    buffer: &mut Vec<Sample>,
    cfg: &PipelineConfig,
    bank: &FilterBank,
    strategy: Strategy,
) -> (out: Vec<Vec<i64>>)
    requires
        cfg.valid(),
        bank.wf(),
        burst_bounded(old(buffer)@, RAW_CAP as int),
        old(buffer)@.len() <= MAX_BURST_LEN,
    ensures
        final(buffer)@ == conditioned(old(buffer)@, *cfg),
        out@.len() == bank.num_channels,
        forall|c: int| 0 <= c < bank.num_channels ==>
            (#[trigger] out@[c])@.len() == old(buffer)@.len() as int / bank.num_channels as int,
        forall|c: int, i: int| 0 <= c < bank.num_channels
            && 0 <= i < old(buffer)@.len() as int / bank.num_channels as int
            ==> (#[trigger] out@[c]@[i]) == channel_out(
                conditioned(old(buffer)@, *cfg),
                bank.phases@[c]@,
                c,
                bank.num_channels as int,
                i,
            ),
{
    condition_burst(buffer, cfg);
    channelize(buffer, bank, strategy)
}

} // verus!
