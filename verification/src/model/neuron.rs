//! The neuron: one gate, one optimizer and one gradient rule. Its prediction
//! is a clipped geometric mixture of its inputs under the context-selected
//! weights; its training step rewrites exactly the active context's weights.

use crate::model::config::LayerConfig;
use crate::model::context_func::{ContextFunction, HalfSpaceContext};
use crate::model::gate::{balanced_init_val, initialize_balanced_weights, Gate};
use crate::optimize::grad::{LogGeometricMixingGradient, OnlineGradient};
use crate::optimize::optimizer::{optimizer_update_val, OnlineGradientDecent};
use crate::utils::data_type::ContextIndex;
use crate::utils::math::{
    clip_hypercube, clip_hypercube_val, clip_prob, clip_prob_val, fx_val, fx_vals,
    geometric_mixing, geometric_mixing_val, Fx, FX_SCALE,
};
use vstd::prelude::*;

verus! {

/// What one training step at context `ci` does to a neuron: the active
/// context's weight vector is rewritten, entry by entry, to the clipped
/// gradient-descent update computed from the pre-update weights, while every
/// other context's vector and all the neuron's parameters stay exactly as
/// they were.
pub open spec fn trained<C: ContextFunction>(
    pre: Neuron<C>,
    post: Neuron<C>,
    ci: int,
    xs: Seq<int>,
    target: int,
) -> bool {
    &&& post.gate().weights_seq().len() == pre.gate().weights_seq().len()
    &&& forall|k: int|
        0 <= k < pre.gate().weights_seq().len() && k != ci
            ==> post.gate().weights_seq()[k] == #[trigger] pre.gate().weights_seq()[k]
    &&& post.gate().weights_seq()[ci].len() == xs.len()
    &&& forall|j: int|
        0 <= j < xs.len() ==> fx_val(#[trigger] post.gate().weights_seq()[ci][j])
            == pre.updated_weight_val(xs, fx_vals(pre.gate().weights_seq()[ci]), target, j)
    &&& post.gate().ctx() == pre.gate().ctx()
    &&& post.grad_rule() == pre.grad_rule()
    &&& post.eps_val() == pre.eps_val()
    &&& post.edge_val() == pre.edge_val()
    &&& post.lr_val() == pre.lr_val()
}

/// A logistic mixer with gated weights: all its mutable state lives in the
/// gate's weight store.
pub struct Neuron<C: ContextFunction> {
    gate: Gate<C>,
    optimizer: OnlineGradientDecent,
    gradient: LogGeometricMixingGradient,
    pred_clipping_value: Fx,
    weight_clipping_value: Fx,
}

/// One neuron's record in a training report.
pub struct NeuronTrainHistory {
    pub prediction: Fx,
    pub loss: Fx,
}

impl<C: ContextFunction> Neuron<C> {
    /// The neuron's gate.
    pub closed spec fn gate(self) -> Gate<C> {
        self.gate
    }

    /// The neuron's gradient rule.
    pub closed spec fn grad_rule(self) -> LogGeometricMixingGradient {
        self.gradient
    }

    /// Raw value of the probability clipping bound.
    pub closed spec fn eps_val(self) -> int {
        fx_val(self.pred_clipping_value)
    }

    /// Raw value of the weight clipping bound.
    pub closed spec fn edge_val(self) -> int {
        fx_val(self.weight_clipping_value)
    }

    /// Raw value of the optimizer's learning rate.
    pub closed spec fn lr_val(self) -> int {
        self.optimizer.lr_val()
    }

    /// Consistency: the weight store fits this input width and the clipping
    /// bound is a usable probability bound.
    pub open spec fn wf(self, input_dim: nat) -> bool {
        &&& self.gate().wf(input_dim)
        &&& 0 < self.eps_val() < FX_SCALE
    }

    /// Raw value of this neuron's prediction for context `ci` on `inputs`:
    /// the clipped geometric mixture under that context's stored weights.
    pub open spec fn predict_val(self, ci: int, inputs: Seq<int>) -> int {
        clip_prob_val(
            geometric_mixing_val(inputs, fx_vals(self.gate().weights_seq()[ci]), self.eps_val()),
            self.eps_val(),
        )
    }

    /// Raw value of weight `j` after one training step on this example: a
    /// gradient-descent step from the pre-update weights, clipped into the
    /// weight hypercube.
    pub open spec fn updated_weight_val(self, xs: Seq<int>, ws: Seq<int>, target: int, j: int) -> int {
        clip_hypercube_val(
            optimizer_update_val(
                self.lr_val(),
                ws[j],
                self.grad_rule().grad_val(xs, target, ws, j, self.eps_val()),
            ),
            self.edge_val(),
        )
    }

    /// Law: a neuron's prediction is strictly inside (0, 1): whatever the
    /// mixture produced, the final clip keeps the probability usable.
    pub proof fn lemma_predict_val_in_unit(self, ci: int, inputs: Seq<int>)
        requires
            0 < self.eps_val() < FX_SCALE,
        ensures
            0 < self.predict_val(ci, inputs) < FX_SCALE,
    {
        crate::utils::math::lemma_clip_prob_in_unit(
            geometric_mixing_val(
                inputs,
                fx_vals(self.gate().weights_seq()[ci]),
                self.eps_val(),
            ),
            self.eps_val(),
        );
    }

    /// Predicts this neuron's probability for an already fixed context index.
    pub fn predict_by_context_index(&self, context_index: ContextIndex, inputs: &Vec<Fx>) -> (r:
        Fx)
        requires
            self.wf(inputs.len() as nat),
            context_index < self.gate().weights_seq().len(),
        ensures
            fx_val(r) == self.predict_val(context_index as int, fx_vals(inputs@)),
    {
        let current_weights = self.gate.get_weights(context_index);
        let prediction = clip_prob(
            geometric_mixing(inputs, &current_weights, self.pred_clipping_value),
            self.pred_clipping_value,
        );
        prediction
    }

    /// One synchronous online-gradient step: every weight of the active
    /// context is updated from the same pre-update weight vector, and every
    /// other context's weights stay exactly as they were.
    pub fn update_weights(&mut self, inputs: &Vec<Fx>, target: i32, context_index: ContextIndex)
        requires
            old(self).wf(inputs.len() as nat),
            context_index < old(self).gate().weights_seq().len(),
            target == 0 || target == 1,
        ensures
            trained(
                *old(self),
                *final(self),
                context_index as int,
                fx_vals(inputs@),
                target as int,
            ),
            final(self).wf(inputs.len() as nat),
    {
        let mut updated_weights: Vec<Fx> = Vec::new();
        let current_weights = self.gate.get_weights(context_index);
        let ghost xs = fx_vals(inputs@);
        let ghost ws = fx_vals(current_weights@);
        let mut weight_index: usize = 0;
        while weight_index < current_weights.len()
            invariant
                weight_index <= current_weights.len(),
                current_weights.len() == inputs.len(),
                self.wf(inputs.len() as nat),
                context_index < self.gate().weights_seq().len(),
                target == 0 || target == 1,
                xs == fx_vals(inputs@),
                ws == fx_vals(current_weights@),
                current_weights@ == self.gate().weights_seq()[context_index as int],
                updated_weights@.len() == weight_index,
                forall|j: int|
                    0 <= j < weight_index ==> fx_val(#[trigger] updated_weights@[j])
                        == self.updated_weight_val(xs, ws, target as int, j),
            decreases current_weights.len() - weight_index,
        {
            let grad = self.gradient.calculate_grad(
                inputs,
                target,
                &current_weights,
                weight_index,
                self.pred_clipping_value,
            );
            let updated_weight = self.optimizer.update(current_weights[weight_index], grad);
            updated_weights.push(clip_hypercube(updated_weight, self.weight_clipping_value));
            weight_index = weight_index + 1;
        }
        self.gate.update_weights(context_index, updated_weights);
    }

    /// Evaluates the context function on the raw features, fixing this
    /// example's context:
    /// returns the active weights and the context index to reuse in training.
    pub fn get_current_weights(&self, features: &Vec<Fx>) -> (r: (Vec<Fx>, usize))
        requires
            self.gate().wf_shape(),
            features.len() == self.gate().ctx().input_dim(),
        ensures
            r.1 as int == self.gate().selected_index(fx_vals(features@)),
            r.1 < self.gate().weights_seq().len(),
            r.0@ == self.gate().weights_seq()[r.1 as int],
    {
        let (current_weights, context_index) = self.gate.select_weights(features);
        (current_weights, context_index)
    }
}

impl Neuron<HalfSpaceContext> {
    /// A fresh neuron over random half-space contexts: balanced initial
    /// weights everywhere, the default prediction clipping bound, and the
    /// given optimizer and gradient parameters.
    pub fn with_half_space_context(
        input_dim: usize,
        context_dim: usize,
        feature_dim: usize,
        learning_rate: Fx,
        weight_clipping_value: Fx,
        negative_weight: Fx,
        reg_param: Fx,
    ) -> (r: Neuron<HalfSpaceContext>)
        requires
            context_dim <= 30,
            input_dim < 0x8000_0000_0000_0000,
        ensures
            r.wf(input_dim as nat),
            r.gate().ctx().ctx_dim() == context_dim,
            r.gate().ctx().input_dim() == feature_dim,
            forall|i: int, j: int|
                0 <= i < r.gate().weights_seq().len() && 0 <= j < input_dim ==> fx_val(
                    #[trigger] r.gate().weights_seq()[i][j],
                ) == balanced_init_val(input_dim as int),
            r.eps_val() == crate::model::config::default_pred_clipping_val(),
            r.lr_val() == fx_val(learning_rate),
            r.edge_val() == fx_val(weight_clipping_value),
            r.grad_rule().reg_val() == fx_val(reg_param),
            r.grad_rule().negative_weight_val() == fx_val(negative_weight),
    {
        let config = LayerConfig::with_default_value();
        let neuron = Neuron {
            gate: Gate::<HalfSpaceContext>::new(
                input_dim,
                context_dim,
                feature_dim,
                initialize_balanced_weights,
            ),
            optimizer: OnlineGradientDecent::new(learning_rate),
            gradient: LogGeometricMixingGradient::new(reg_param, negative_weight),
            pred_clipping_value: config.pred_clipping_value,
            weight_clipping_value: weight_clipping_value,
        };
        proof {
            let ws = choose|ws: Vec<Vec<Fx>>|
                #[trigger] call_ensures(
                    initialize_balanced_weights,
                    (input_dim, context_dim),
                    ws,
                ) && neuron.gate().weights_seq() == ws@.map(|i: int, w: Vec<Fx>| w@);
            assert(neuron.gate().weights_seq().len() == ws@.len());
            assert forall|ci: int, j: int|
                0 <= ci < neuron.gate().weights_seq().len() && 0 <= j < input_dim implies fx_val(
                #[trigger] neuron.gate().weights_seq()[ci][j],
            ) == balanced_init_val(input_dim as int) by {
                assert(neuron.gate().weights_seq()[ci] == ws@[ci]@);
            }
            assert forall|ci: int|
                0 <= ci < neuron.gate().weights_seq().len() implies (
            #[trigger] neuron.gate().weights_seq()[ci]).len() == input_dim by {
                assert(neuron.gate().weights_seq()[ci] == ws@[ci]@);
            }
        }
        neuron
    }
}

} // verus!
