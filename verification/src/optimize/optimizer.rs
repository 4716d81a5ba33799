//! The online optimizer: one plain gradient-descent step per weight.

use crate::utils::math::{fx_add, fx_mul, fx_neg, fx_val, fx_add_val, fx_mul_val, Fx};
use vstd::prelude::*;

verus! {

/// Raw value of one gradient-descent step: `w - learning_rate * grad`.
pub open spec fn optimizer_update_val(lr: int, w: int, g: int) -> int {
    fx_add_val(w, -fx_mul_val(lr, g))
}

/// Stateless online gradient descent with a fixed learning rate: no momentum,
/// no adaptive per-parameter rates.
pub struct OnlineGradientDecent {
    learning_rate: Fx,
}

impl OnlineGradientDecent {
    /// Raw value of the fixed learning rate.
    pub closed spec fn lr_val(self) -> int {
        fx_val(self.learning_rate)
    }

    pub fn new(learning_rate: Fx) -> (r: OnlineGradientDecent)
        ensures
            r.lr_val() == fx_val(learning_rate),
    {
        OnlineGradientDecent { learning_rate }
    }

    /// One descent step on a single weight.
    pub fn update(&self, weight: Fx, grad: Fx) -> (r: Fx)
        ensures
            fx_val(r) == optimizer_update_val(self.lr_val(), fx_val(weight), fx_val(grad)),
    {
        fx_add(weight, fx_neg(fx_mul(self.learning_rate, grad)))
    }
}

} // verus!
