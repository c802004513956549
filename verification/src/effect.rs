//! The per-sample pipeline: pre-gain, reverb transform, post-gain.

use crate::num::{div_t, scale_micro, MICRO};
use crate::params::EffectParams;
use crate::reverb::{fresh_engine, out_value, step_lines, MyReverb, INPUT_BOUND};
use vstd::prelude::*;

verus! {

/// The effect: the parameter table together with the single reverb engine
/// every processed sample runs through.
pub struct MyEffect {
    pub params: EffectParams,
    pub reverb: MyReverb,
}

impl MyEffect {
    pub open spec fn wf(self) -> bool {
        &&& self.params.wf()
        &&& self.reverb.wf()
    }

    /// The input sample after the pre-gain.
    pub open spec fn pre_scaled(self, input: int) -> int {
        div_t(input * self.params.pre_amp_linear, MICRO as int)
    }

    /// The wet sample the reverb produces for `input`.
    pub open spec fn wet(self, input: int) -> int {
        out_value(self.reverb@, self.pre_scaled(input))
    }

    /// The output sample: the wet sample after the post-gain.
    pub open spec fn out(self, input: int) -> int {
        div_t(self.wet(input) * self.params.post_amp_linear, MICRO as int)
    }

    /// Processes one sample in place: applies the pre-gain, advances the
    /// reverb by one step on the scaled sample, applies the post-gain.
    pub fn process_sample(&mut self, sample: &mut i64)
        requires
            old(self).wf(),
            -INPUT_BOUND <= *old(sample) <= INPUT_BOUND,
        ensures
            final(self).wf(),
            final(self).params == old(self).params,
            final(self).reverb.params == old(self).reverb.params,
            final(self).reverb@ == step_lines(
                old(self).reverb@,
                old(self).pre_scaled(*old(sample) as int),
            ),
            *final(sample) as int == old(self).out(*old(sample) as int),
    {
        let pre = self.params.pre_amp_linear;
        let post = self.params.post_amp_linear;
        let mut wet: i64 = scale_micro(*sample, pre);
        self.reverb.process(&mut wet);
        *sample = scale_micro(wet, post);
    }
}

impl Default for MyEffect {
    /// The effect at start-up: default parameters and a fresh engine for
    /// their 44.1 kHz sample rate.
    fn default() -> (r: MyEffect)
        ensures
            r.wf(),
            r.params.sample_rate == 44100,
            r.params.pre_amp_linear == MICRO,
            r.params.post_amp_linear == MICRO,
            r.reverb@ == fresh_engine(44100),
            r.reverb.params.decay == 100_000,
    {
        let params = EffectParams::default();
        let reverb_opt = MyReverb::new(params.sample_rate);
        match reverb_opt {
            Some(reverb) => MyEffect { params, reverb },
            None => vstd::pervasive::unreached(),
        }
    }
}

} // verus!
