//! Context functions: the data-dependent gates that pick, for each feature
//! vector, which of a neuron's weight vectors is active.
//!
//! The half-space context tests the feature vector against fixed random
//! hyperplanes: bit `i` of the signature is set exactly when the features' dot
//! product with hyperplane `i` exceeds that hyperplane's bias. The hyperplanes
//! are drawn once at construction and never trained.

use crate::utils::math::{dot_val, fx_dot, fx_lt, fx_val, fx_vals, Fx, FX_SCALE};
use vstd::prelude::*;

verus! {

/// Relies on rand::random: one draw of an arbitrary value of `T` from the
/// thread-local generator. Nothing is promised of the value.
pub assume_specification<T>[ rand::random::<T> ]() -> (r: T)
    where
        rand::distributions::Standard: rand::distributions::Distribution<T>,
;

/// One draw from an approximately standard normal distribution: the centered
/// sum of twelve uniform draws on [0, 1), whose raw bits come from
/// `rand::random`. Only the output range is promised; the value is random.
fn sample_standard_normal() -> (r: Fx)
    ensures
        -6 * (FX_SCALE as int) <= fx_val(r) <= 6 * (FX_SCALE as int),
{
    let mut acc: u64 = 0;
    let mut i: u64 = 0;
    while i < 12
        invariant
            i <= 12,
            acc <= i * FX_SCALE,
        decreases 12 - i,
    {
        let u: u64 = rand::random();
        acc = acc + u % FX_SCALE;
        i = i + 1;
    }
    let six: u64 = 6 * FX_SCALE;
    if acc >= six {
        Fx::from_raw(false, acc - six)
    } else {
        Fx::from_raw(true, six - acc)
    }
}

/// A strategy that folds a feature vector into a boolean context signature.
/// Implementations fix their signature width and input width at construction.
pub trait ContextFunction: Sized {
    /// The width of the produced signature.
    spec fn ctx_dim(&self) -> nat;

    /// The feature-vector length the strategy accepts.
    spec fn input_dim(&self) -> nat;

    /// The signature this strategy assigns to the given raw feature values:
    /// a fixed function of the strategy and the features, so that the same
    /// features always select the same contexts.
    spec fn indicator_spec(&self, side_info: Seq<int>) -> Seq<bool>;

    /// The signature is always exactly `ctx_dim` bits wide.
    proof fn lemma_indicator_len(&self, side_info: Seq<int>)
        ensures
            self.indicator_spec(side_info).len() == self.ctx_dim(),
    ;

    /// Computes the context signature of a feature vector.
    fn indicator_func(&self, side_info: &Vec<Fx>) -> (r: Vec<bool>)
        requires
            side_info.len() == self.input_dim(),
        ensures
            r@ == self.indicator_spec(fx_vals(side_info@)),
            r@.len() == self.ctx_dim(),
    ;
}

/// The skip-gram context family: named as a further gating strategy, with no
/// indicator function of its own; the half-space family below is the one
/// gating family this crate provides.
pub struct SkipGramContext {}

/// The half-space context: one random hyperplane (coefficients plus bias) per
/// signature bit, all drawn from an approximate standard normal distribution
/// at construction.
pub struct HalfSpaceContext {
    feature_dim: usize,
    context_dim: usize,
    context_maps: Vec<Vec<Fx>>,
    context_bias: Vec<Fx>,
}

impl HalfSpaceContext {
    /// The stored hyperplane coefficient rows.
    pub closed spec fn maps_seq(self) -> Seq<Seq<Fx>> {
        self.context_maps@.map(|i: int, row: Vec<Fx>| row@)
    }

    /// The stored hyperplane biases.
    pub closed spec fn bias_seq(self) -> Seq<Fx> {
        self.context_bias@
    }

    /// Internal consistency: one coefficient row of `feature_dim` entries and
    /// one bias per signature bit. Holds of every value of the type.
    #[verifier::type_invariant]
    pub closed spec fn wf(self) -> bool {
        &&& self.context_maps@.len() == self.context_dim
        &&& self.context_bias@.len() == self.context_dim
        &&& forall|j: int|
            0 <= j < self.context_dim ==> (#[trigger] self.context_maps@[j])@.len()
                == self.feature_dim
    }

    /// Draws `context_dim` random hyperplanes over `feature_dim` features.
    /// The hyperplane values are random; only the shape is promised.
    pub fn new(context_dim: usize, feature_dim: usize) -> (r: HalfSpaceContext)
        ensures
            r.wf(),
            r.ctx_dim() == context_dim,
            r.input_dim() == feature_dim,
    {
        let mut context_maps: Vec<Vec<Fx>> = Vec::new();
        let mut j: usize = 0;
        while j < context_dim
            invariant
                j <= context_dim,
                context_maps@.len() == j,
                forall|t: int|
                    0 <= t < j ==> (#[trigger] context_maps@[t])@.len() == feature_dim,
            decreases context_dim - j,
        {
            let mut row: Vec<Fx> = Vec::new();
            let mut t: usize = 0;
            while t < feature_dim
                invariant
                    t <= feature_dim,
                    row@.len() == t,
                decreases feature_dim - t,
            {
                row.push(sample_standard_normal());
                t = t + 1;
            }
            context_maps.push(row);
            j = j + 1;
        }
        let mut context_bias: Vec<Fx> = Vec::new();
        let mut t: usize = 0;
        while t < context_dim
            invariant
                t <= context_dim,
                context_bias@.len() == t,
            decreases context_dim - t,
        {
            context_bias.push(sample_standard_normal());
            t = t + 1;
        }
        HalfSpaceContext { feature_dim, context_dim, context_maps, context_bias }
    }
}

impl ContextFunction for HalfSpaceContext {
    closed spec fn ctx_dim(&self) -> nat {
        self.context_dim as nat
    }

    closed spec fn input_dim(&self) -> nat {
        self.feature_dim as nat
    }

    /// Bit `j` is set exactly when the features' dot product with hyperplane
    /// `j` strictly exceeds its bias.
    closed spec fn indicator_spec(&self, side_info: Seq<int>) -> Seq<bool> {
        Seq::new(
            self.context_dim as nat,
            |j: int|
                dot_val(
                    fx_vals(self.context_maps@[j]@),
                    side_info,
                    self.feature_dim as int,
                ) > fx_val(self.context_bias@[j]),
        )
    }

    proof fn lemma_indicator_len(&self, side_info: Seq<int>) {
    }

    fn indicator_func(&self, side_info: &Vec<Fx>) -> (r: Vec<bool>) {
        proof {
            use_type_invariant(&*self);
        }
        let mut results: Vec<bool> = Vec::new();
        let mut j: usize = 0;
        while j < self.context_dim
            invariant
                j <= self.context_dim,
                self.wf(),
                side_info@.len() == self.feature_dim,
                results@.len() == j,
                forall|t: int|
                    0 <= t < j ==> results@[t] == self.indicator_spec(fx_vals(side_info@))[t],
            decreases self.context_dim - j,
        {
            let value = fx_dot(&self.context_maps[j], side_info);
            let bit = fx_lt(self.context_bias[j], value);
            results.push(bit);
            j = j + 1;
        }
        proof {
            assert(results@ =~= self.indicator_spec(fx_vals(side_info@)));
        }
        results
    }
}

} // verus!
