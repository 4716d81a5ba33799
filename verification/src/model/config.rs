//! Default configuration shared by layers.

use crate::utils::math::{fx_div_val, fx_from_int_val, fx_val, Fx, FX_SCALE};
use vstd::prelude::*;

verus! {

/// Raw value of the default prediction clipping bound, one thousandth.
pub open spec fn default_pred_clipping_val() -> int {
    (FX_SCALE as int) / 1000
}

/// Per-layer configuration: for now only the probability clipping bound.
pub struct LayerConfig {
    pub pred_clipping_value: Fx,
}

impl LayerConfig {
    /// The default configuration: predictions are clipped a thousandth away
    /// from 0 and 1.
    pub fn with_default_value() -> (r: LayerConfig)
        ensures
            fx_val(r.pred_clipping_value) == default_pred_clipping_val(),
            0 < fx_val(r.pred_clipping_value),
            2 * fx_val(r.pred_clipping_value) < FX_SCALE,
    {
        proof {
            assert(fx_from_int_val(1) == 16777216);
            assert(fx_from_int_val(1000) == 16777216000);
            assert(vstd::math::abs(16777216) == 16777216);
            assert(vstd::math::abs(16777216000) == 16777216000);
            assert(16777216int * 16777216int == 281474976710656int) by (nonlinear_arith);
            assert(16777int * 16777216000int == 281471352832000int) by (nonlinear_arith);
            vstd::arithmetic::div_mod::lemma_fundamental_div_mod_converse(
                281474976710656,
                16777216000,
                16777,
                3623878656,
            );
            assert(fx_div_val(16777216, 16777216000) == 16777);
            assert(default_pred_clipping_val() == 16777);
        }
        LayerConfig { pred_clipping_value: Fx::from_ratio(1, 1000) }
    }
}

} // verus!
