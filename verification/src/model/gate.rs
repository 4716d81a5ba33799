//! A per-neuron arena of weight vectors, one per context, together with the
//! context function that picks the active vector for each feature vector.

use crate::model::context_func::{ContextFunction, HalfSpaceContext};
use crate::utils::data_type::ContextIndex;
use crate::utils::math::{
    fx_div, fx_div_val, fx_from_int_val, fx_val, fx_vec_clone, fx_vals, Fx, FX_SCALE,
};
use vstd::arithmetic::power2::pow2;
use vstd::prelude::*;

verus! {

/// The context signature read as a binary number: bit `i` contributes `2^i`.
pub open spec fn indicator_index(bits: Seq<bool>, n: int) -> int
    decreases n,
{
    if n <= 0 {
        0
    } else {
        indicator_index(bits, n - 1) + if bits[n - 1] {
            pow2((n - 1) as nat) as int
        } else {
            0
        }
    }
}

/// An `n`-bit signature always folds to an index below `2^n`.
pub proof fn lemma_indicator_index_bounds(bits: Seq<bool>, n: int)
    requires
        0 <= n,
    ensures
        0 <= indicator_index(bits, n) < pow2(n as nat),
    decreases n,
{
    if n == 0 {
        assert(pow2(0) == 1) by {
            vstd::arithmetic::power2::lemma2_to64();
        }
    } else {
        lemma_indicator_index_bounds(bits, n - 1);
        vstd::arithmetic::power2::lemma_pow2_unfold(n as nat);
    }
}

/// Raw value of the balanced initial weight `1 / input_dim`; zero for the
/// degenerate zero-width case, where no weight exists at all.
pub open spec fn balanced_init_val(input_dim: int) -> int {
    if input_dim <= 0 {
        0
    } else {
        fx_div_val(FX_SCALE as int, fx_from_int_val(input_dim))
    }
}

/// The balanced initialization: `2^context_dim` weight vectors of `input_dim`
/// entries, every entry `1 / input_dim`, so that an untrained neuron treats
/// all its inputs equally.
pub fn initialize_balanced_weights(input_dim: usize, context_dim: usize) -> (r: Vec<Vec<Fx>>)
    requires
        context_dim <= 30,
        input_dim < 0x8000_0000_0000_0000,
    ensures
        r@.len() == pow2(context_dim as nat),
        forall|i: int| 0 <= i < r@.len() ==> (#[trigger] r@[i])@.len() == input_dim,
        forall|i: int, j: int|
            0 <= i < r@.len() && 0 <= j < input_dim ==> fx_val(#[trigger] r@[i]@[j])
                == balanced_init_val(input_dim as int),
{
    let init_value: Fx = if input_dim == 0 {
        Fx::zero()
    } else {
        fx_div(Fx::one(), Fx::from_int(input_dim as i64))
    };
    proof {
        vstd::arithmetic::power2::lemma2_to64();
        vstd::arithmetic::power2::lemma_pow2_strictly_increases(context_dim as nat, 31);
    }
    let mut count: usize = 1;
    let mut c: usize = 0;
    while c < context_dim
        invariant
            c <= context_dim <= 30,
            count as nat == pow2(c as nat),
            count <= 0x4000_0000,
        decreases context_dim - c,
    {
        proof {
            vstd::arithmetic::power2::lemma_pow2_unfold((c + 1) as nat);
            if c + 1 < 31 {
                vstd::arithmetic::power2::lemma_pow2_strictly_increases((c + 1) as nat, 31);
            }
            vstd::arithmetic::power2::lemma2_to64();
        }
        count = count * 2;
        c = c + 1;
    }
    let mut out: Vec<Vec<Fx>> = Vec::new();
    let mut i: usize = 0;
    while i < count
        invariant
            i <= count,
            out@.len() == i,
            fx_val(init_value) == balanced_init_val(input_dim as int),
            forall|t: int| 0 <= t < i ==> (#[trigger] out@[t])@.len() == input_dim,
            forall|t: int, j: int|
                0 <= t < i && 0 <= j < input_dim ==> fx_val(#[trigger] out@[t]@[j])
                    == balanced_init_val(input_dim as int),
        decreases count - i,
    {
        let mut row: Vec<Fx> = Vec::new();
        let mut j: usize = 0;
        while j < input_dim
            invariant
                j <= input_dim,
                row@.len() == j,
                fx_val(init_value) == balanced_init_val(input_dim as int),
                forall|t: int|
                    0 <= t < j ==> fx_val(#[trigger] row@[t]) == balanced_init_val(
                        input_dim as int,
                    ),
            decreases input_dim - j,
        {
            row.push(init_value);
            j = j + 1;
        }
        out.push(row);
        i = i + 1;
    }
    out
}

/// A gate: one stored weight vector per possible context, and a context
/// function that selects among them. Weight vectors never change shape; only
/// `update_weights` replaces one of them.
pub struct Gate<C: ContextFunction> {
    weights: Vec<Vec<Fx>>,
    context_func: C,
}

impl<C: ContextFunction> Gate<C> {
    /// The stored weight vectors, one per context index.
    pub closed spec fn weights_seq(self) -> Seq<Seq<Fx>> {
        self.weights@.map(|i: int, w: Vec<Fx>| w@)
    }

    /// The context function given at construction.
    pub closed spec fn ctx(self) -> C {
        self.context_func
    }

    /// Shape consistency: exactly `2^context_dim` stored vectors, with a
    /// signature width small enough for the index to fit.
    pub open spec fn wf_shape(self) -> bool {
        &&& self.weights_seq().len() == pow2(self.ctx().ctx_dim())
        &&& self.ctx().ctx_dim() <= 30
    }

    /// Full consistency: the shape holds and every stored vector has
    /// `input_dim` entries.
    pub open spec fn wf(self, input_dim: nat) -> bool {
        &&& self.wf_shape()
        &&& forall|i: int|
            0 <= i < self.weights_seq().len() ==> (#[trigger] self.weights_seq()[i]).len()
                == input_dim
    }

    /// The context index that this value's context function assigns to these
    /// raw feature values: a fixed function of stored state and features.
    pub open spec fn selected_index(self, side: Seq<int>) -> int {
        indicator_index(
            self.ctx().indicator_spec(side),
            self.ctx().ctx_dim() as int,
        )
    }

    /// Evaluates the context function on the features and returns a copy of
    /// the selected weight vector together with its context index.
    pub fn select_weights(&self, side_info: &Vec<Fx>) -> (r: (Vec<Fx>, usize))
        requires
            self.wf_shape(),
            side_info.len() == self.ctx().input_dim(),
        ensures
            r.1 as int == self.selected_index(fx_vals(side_info@)),
            r.1 < self.weights_seq().len(),
            r.0@ == self.weights_seq()[r.1 as int],
    {
        let bits = self.context_func.indicator_func(side_info);
        proof {
            self.context_func.lemma_indicator_len(fx_vals(side_info@));
            lemma_indicator_index_bounds(bits@, bits@.len() as int);
        }
        let indicator = Self::transform_contexts_to_weight_indicator(bits);
        (fx_vec_clone(&self.weights[indicator]), indicator)
    }

    /// Replaces the weight vector stored at `context_index`; every other
    /// context keeps its vector, and the context function is untouched.
    pub fn update_weights(&mut self, context_index: usize, weights: Vec<Fx>)
        requires
            context_index < old(self).weights_seq().len(),
        ensures
            final(self).weights_seq() == old(self).weights_seq().update(
                context_index as int,
                weights@,
            ),
            final(self).ctx() == old(self).ctx(),
    {
        self.weights[context_index] = weights;
        proof {
            assert(final(self).weights_seq() =~= old(self).weights_seq().update(
                context_index as int,
                weights@,
            ));
        }
    }

    /// Folds a boolean context signature into the index of the weight vector
    /// it selects: bit `i` contributes `2^i`.
    pub fn transform_contexts_to_weight_indicator(contexts: Vec<bool>) -> (r: usize)
        requires
            contexts.len() <= 31,
        ensures
            r as int == indicator_index(contexts@, contexts.len() as int),
            r < pow2(contexts.len() as nat),
    {
        proof {
            vstd::arithmetic::power2::lemma2_to64();
            lemma_indicator_index_bounds(contexts@, contexts@.len() as int);
        }
        let mut weight_indicator: usize = 0;
        let mut p2: usize = 1;
        let mut index: usize = 0;
        while index < contexts.len()
            invariant
                index <= contexts.len() <= 31,
                p2 as nat == pow2(index as nat),
                p2 <= 0x8000_0000,
                weight_indicator as int == indicator_index(contexts@, index as int),
                (weight_indicator as int) < pow2(index as nat),
            decreases contexts.len() - index,
        {
            proof {
                vstd::arithmetic::power2::lemma_pow2_unfold((index + 1) as nat);
                if index + 1 < 31 {
                    vstd::arithmetic::power2::lemma_pow2_strictly_increases(
                        (index + 1) as nat,
                        31,
                    );
                }
                vstd::arithmetic::power2::lemma2_to64();
                lemma_indicator_index_bounds(contexts@, index as int);
            }
            if contexts[index] {
                weight_indicator = weight_indicator + p2;
            }
            p2 = p2 * 2;
            index = index + 1;
        }
        weight_indicator
    }

    /// Reads the weight vector stored at `context_index` without re-running
    /// the context function; used during training, where the index was fixed
    /// at prediction time.
    pub fn get_weights(&self, context_index: ContextIndex) -> (r: Vec<Fx>)
        requires
            context_index < self.weights_seq().len(),
        ensures
            r@ == self.weights_seq()[context_index as int],
    {
        fx_vec_clone(&self.weights[context_index])
    }
}

/// Law: on a freshly constructed gate, whose weight vectors all sit at the
/// balanced initialization, selection returns the balanced vector whatever
/// the features: every entry of the selected vector is `1 / input_dim`.
pub proof fn lemma_fresh_gate_selects_balanced<C: ContextFunction>(
    g: Gate<C>,
    input_dim: nat,
    side: Seq<int>,
)
    requires
        g.wf(input_dim),
        forall|ci: int, j: int|
            0 <= ci < g.weights_seq().len() && 0 <= j < input_dim ==> fx_val(
                #[trigger] g.weights_seq()[ci][j],
            ) == balanced_init_val(input_dim as int),
    ensures
        0 <= g.selected_index(side) < g.weights_seq().len(),
        forall|j: int|
            0 <= j < input_dim ==> fx_val(
                #[trigger] g.weights_seq()[g.selected_index(side)][j],
            ) == balanced_init_val(input_dim as int),
{
    lemma_indicator_index_bounds(
        g.ctx().indicator_spec(side),
        g.ctx().ctx_dim() as int,
    );
}

impl Gate<HalfSpaceContext> {
    /// A gate over freshly drawn random half-space contexts, its weight store
    /// filled by the given initializer; some stored vector family the
    /// initializer can return is what the new gate holds.
    pub fn new<F: Fn(usize, usize) -> Vec<Vec<Fx>>>(
        input_dim: usize,
        context_dim: usize,
        feature_dim: usize,
        weight_init_func: F,
    ) -> (r: Gate<HalfSpaceContext>)
        requires
            call_requires(weight_init_func, (input_dim, context_dim)),
        ensures
            r.ctx().ctx_dim() == context_dim,
            r.ctx().input_dim() == feature_dim,
            exists|ws: Vec<Vec<Fx>>|
                #[trigger] call_ensures(weight_init_func, (input_dim, context_dim), ws)
                    && r.weights_seq() == ws@.map(|i: int, w: Vec<Fx>| w@),
    {
        let weights = weight_init_func(input_dim, context_dim);
        let ghost ws = weights;
        let r = Gate { weights, context_func: HalfSpaceContext::new(context_dim, feature_dim) };
        proof {
            assert(r.weights_seq() =~= ws@.map(|i: int, w: Vec<Fx>| w@));
        }
        r
    }
}

} // verus!
