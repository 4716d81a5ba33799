//! The gradient of the logarithmic geometric-mixing loss, with asymmetric
//! weighting of the negative class and L2 regularization.

use crate::utils::math::{
    clip_prob, clip_prob_val, fx_add, fx_add_val, fx_mul, fx_mul_val, fx_val, fx_vals,
    geometric_mixing, geometric_mixing_val, lemma_clip_prob_in_unit, logit, logit_val, Fx,
    FX_SCALE,
};
use vstd::prelude::*;

verus! {

/// A rule that turns one labeled example into a per-weight gradient.
pub trait OnlineGradient: Sized {
    /// Raw value of the gradient of weight `index` on this example.
    spec fn grad_val(&self, xs: Seq<int>, target: int, ws: Seq<int>, index: int, eps: int) -> int;

    /// The gradient of weight `index` for inputs `xs` under weights `weights`
    /// against the binary `target`.
    fn calculate_grad(
        &self,
        xs: &Vec<Fx>,
        target: i32,
        weights: &Vec<Fx>,
        index: usize,
        clipping_value: Fx,
    ) -> (r: Fx)
        requires
            xs.len() == weights.len(),
            index < xs.len(),
            target == 0 || target == 1,
            0 < fx_val(clipping_value) < FX_SCALE,
        ensures
            fx_val(r) == self.grad_val(
                fx_vals(xs@),
                target as int,
                fx_vals(weights@),
                index as int,
                fx_val(clipping_value),
            ),
    ;
}

/// The gradient rule of the logarithmic loss on a geometric mixture:
/// `alpha * (mixture - target) * logit(clip_prob(x_i, eps)) + reg_param * w_i`,
/// where `alpha` is 1 for the positive class and `negative_weight` for the
/// negative one.
pub struct LogGeometricMixingGradient {
    reg_param: Fx,
    negative_weight: Fx,
}

impl LogGeometricMixingGradient {
    /// Raw value of the L2 regularization coefficient.
    pub closed spec fn reg_val(self) -> int {
        fx_val(self.reg_param)
    }

    /// Raw value of the negative-class weighting.
    pub closed spec fn negative_weight_val(self) -> int {
        fx_val(self.negative_weight)
    }

    pub fn new(reg_param: Fx, negative_weight: Fx) -> (r: LogGeometricMixingGradient)
        ensures
            r.reg_val() == fx_val(reg_param),
            r.negative_weight_val() == fx_val(negative_weight),
    {
        LogGeometricMixingGradient { reg_param, negative_weight }
    }
}

impl OnlineGradient for LogGeometricMixingGradient {
    open spec fn grad_val(
        &self,
        xs: Seq<int>,
        target: int,
        ws: Seq<int>,
        index: int,
        eps: int,
    ) -> int {
        let mixed = geometric_mixing_val(xs, ws, eps);
        let diff = if target == 1 {
            fx_add_val(mixed, -(FX_SCALE as int))
        } else {
            mixed
        };
        let lg = logit_val(clip_prob_val(xs[index], eps));
        let slope = if target == 1 {
            fx_mul_val(diff, lg)
        } else {
            fx_mul_val(fx_mul_val(self.negative_weight_val(), diff), lg)
        };
        fx_add_val(slope, fx_mul_val(self.reg_val(), ws[index]))
    }

    fn calculate_grad(
        &self,
        xs: &Vec<Fx>,
        target: i32,
        weights: &Vec<Fx>,
        index: usize,
        clipping_value: Fx,
    ) -> (r: Fx) {
        proof {
            assert(fx_vals(xs@)[index as int] == fx_val(xs@[index as int]));
            assert(fx_vals(weights@)[index as int] == fx_val(weights@[index as int]));
        }
        let mixed = geometric_mixing(xs, weights, clipping_value);
        let diff = if target == 1 {
            fx_add(mixed, Fx::from_int(-1))
        } else {
            mixed
        };
        let clipped = clip_prob(xs[index], clipping_value);
        proof {
            lemma_clip_prob_in_unit(fx_val(xs@[index as int]), fx_val(clipping_value));
        }
        let lg = logit(clipped);
        let slope = if target == 1 {
            fx_mul(diff, lg)
        } else {
            fx_mul(fx_mul(self.negative_weight, diff), lg)
        };
        fx_add(slope, fx_mul(self.reg_param, weights[index]))
    }
}

} // verus!
