//! The indexed parameter table: pre-gain and post-gain, with name and
//! percentage text renderings for a host UI.

use crate::num::{dec_seq, push_dec, MICRO};
use vstd::prelude::*;
use vstd::string::StringExecFns;

verus! {

/// Round-half-even of `a / 5000`, for `a >= 0`: the rounding used when a
/// gain is rendered as a whole percentage.
pub open spec fn round_half_even(a: int) -> int {
    let q = a / 5000;
    let r = a % 5000;
    if r > 2500 {
        q + 1
    } else if r < 2500 {
        q
    } else if q % 2 == 0 {
        q
    } else {
        q + 1
    }
}

/// The text for a gain value `v` (in millionths of unity): the signed
/// percentage `(v - 0.5) * 2 * 100`, i.e. full scale maps to `100`, the
/// midpoint to `0` and zero to `-100`, rounded to a whole number. A value
/// below the midpoint is rendered with a leading minus sign even when it
/// rounds to zero.
pub open spec fn percent_text(v: int) -> Seq<char> {
    let d = v - 500_000;
    if d < 0 {
        seq!['-'] + dec_seq(round_half_even(-d) as nat)
    } else {
        dec_seq(round_half_even(d) as nat)
    }
}

/// The gain parameters and the sample rate the effect was configured with.
///
/// Gains are normalized host parameters: millionths of unity, in
/// `[0, MICRO]`.
pub struct EffectParams {
    pub sample_rate: i32,
    pub pre_amp_linear: i64,
    pub post_amp_linear: i64,
}

impl EffectParams {
    /// Both gains within the normalized parameter range.
    pub open spec fn wf(self) -> bool {
        &&& 0 <= self.pre_amp_linear <= MICRO
        &&& 0 <= self.post_amp_linear <= MICRO
    }

    /// The value the table holds at `index`: pre-gain at 0, post-gain at 1,
    /// and the neutral 0 anywhere else.
    pub open spec fn param(self, index: int) -> int {
        if index == 0 {
            self.pre_amp_linear as int
        } else if index == 1 {
            self.post_amp_linear as int
        } else {
            0
        }
    }

    /// Reads the parameter at `index`; out-of-range indices read as 0.
    pub fn get_parameter(&self, index: i32) -> (r: i64)
        ensures
            r as int == self.param(index as int),
    {
        match index {
            0 => self.pre_amp_linear,
            1 => self.post_amp_linear,
            _ => 0,
        }
    }

    /// Writes the parameter at `index`; out-of-range indices are a no-op.
    pub fn set_parameter(&mut self, index: i32, val: i64)
        requires
            0 <= val <= MICRO,
        ensures
            final(self).pre_amp_linear == if index == 0 {
                val
            } else {
                old(self).pre_amp_linear
            },
            final(self).post_amp_linear == if index == 1 {
                val
            } else {
                old(self).post_amp_linear
            },
            final(self).sample_rate == old(self).sample_rate,
            old(self).wf() ==> final(self).wf(),
    {
        match index {
            0 => self.pre_amp_linear = val,
            1 => self.post_amp_linear = val,
            _ => (),
        }
    }

    /// Renders the parameter at `index` as a signed whole percentage;
    /// out-of-range indices render as the empty string.
    pub fn get_parameter_text(&self, index: i32) -> (s: String)
        requires
            self.wf(),
        ensures
            index == 0 ==> s@ == percent_text(self.pre_amp_linear as int),
            index == 1 ==> s@ == percent_text(self.post_amp_linear as int),
            !(index == 0 || index == 1) ==> s@ == Seq::<char>::empty(),
    {
        match index {
            0 => render_percent(self.pre_amp_linear),
            1 => render_percent(self.post_amp_linear),
            _ => String::new(),
        }
    }

    /// The display name of the parameter at `index`; out-of-range indices
    /// have an empty name.
    pub fn get_parameter_name(&self, index: i32) -> (s: String)
        ensures
            index == 0 ==> s@ == "Pre Gain"@,
            index == 1 ==> s@ == "Post Gain"@,
            !(index == 0 || index == 1) ==> s@ == Seq::<char>::empty(),
    {
        match index {
            0 => String::from_str("Pre Gain"),
            1 => String::from_str("Post Gain"),
            _ => String::new(),
        }
    }
}

impl Default for EffectParams {
    /// Unity gains and a 44.1 kHz sample rate.
    fn default() -> (r: EffectParams)
        ensures
            r.sample_rate == 44100,
            r.pre_amp_linear == MICRO,
            r.post_amp_linear == MICRO,
            r.wf(),
    {
        EffectParams { sample_rate: 44100, pre_amp_linear: MICRO, post_amp_linear: MICRO }
    }
}

/// Renders a normalized gain as its signed whole percentage.
fn render_percent(v: i64) -> (s: String)
    requires
        0 <= v <= MICRO,
    ensures
        s@ == percent_text(v as int),
{
    let mut s = String::new();
    let neg: bool = v < 500_000;
    let mag: u64 = if neg {
        (500_000 - v) as u64
    } else {
        (v - 500_000) as u64
    };
    let q: u64 = mag / 5000;
    let r: u64 = mag % 5000;
    let rq: u64 = if r > 2500 {
        q + 1
    } else if r < 2500 {
        q
    } else if q % 2 == 0 {
        q
    } else {
        q + 1
    };
    proof {
        assert(rq as int == round_half_even(mag as int));
    }
    if neg {
        proof {
            reveal_strlit("-");
            assert("-"@ =~= seq!['-']);
        }
        s.append("-");
    }
    push_dec(&mut s, rq);
    proof {
        assert(s@ =~= percent_text(v as int));
    }
    s
}

} // verus!
