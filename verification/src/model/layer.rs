//! The layer: an ordered collection of neurons of equal input width. One call
//! fixes every neuron's context for an example and produces the layer's
//! output in log-odds space; training replays exactly those contexts.

use crate::model::context_func::{ContextFunction, HalfSpaceContext};
use crate::model::gate::balanced_init_val;
use crate::model::neuron::Neuron;
use crate::utils::data_type::{ContextIndex, NeuronId};
use crate::utils::math::{
    clip_prob, clip_prob_val, dot_val, fx_add_val, fx_div, fx_div_val, fx_dot, fx_from_int_val,
    fx_le, fx_lt, fx_sub, fx_val, fx_vals, lemma_clip_prob_in_unit, logit, logit_val, Fx,
    FX_SCALE,
};
use std::collections::HashMap;
use vstd::prelude::*;

verus! {

broadcast use vstd::std_specs::hash::group_hash_axioms;

/// One layer's forward result: every neuron's output in log-odds space, and,
/// when contexts were just selected, the context index each neuron chose.
pub struct LayerPrediction {
    pub predictions: Vec<Fx>,
    pub context_index_map: Option<HashMap<NeuronId, usize>>,
}

/// Loss telemetry of one layer, by neuron position.
pub struct LayerTrainHistory {
    pub neuron_losses: Vec<Fx>,
}

/// An ordered collection of neurons sharing one input width.
pub struct Layer {
    neurons: Vec<Neuron<HalfSpaceContext>>,
    num_neurons: usize,
    input_dim: usize,
}

impl Layer {
    /// The layer's neurons in order.
    pub closed spec fn neurons_seq(self) -> Seq<Neuron<HalfSpaceContext>> {
        self.neurons@
    }

    /// The number of neurons.
    pub closed spec fn num(self) -> int {
        self.num_neurons as int
    }

    /// The input width every neuron mixes over.
    pub closed spec fn input_dim_spec(self) -> int {
        self.input_dim as int
    }

    /// Internal consistency: the count matches and every neuron is consistent
    /// for this input width.
    pub open spec fn wf_inner(self) -> bool {
        &&& self.num() == self.neurons_seq().len()
        &&& 0 <= self.num() <= usize::MAX
        &&& 0 <= self.input_dim_spec()
        &&& forall|i: int|
            0 <= i < self.num() ==> (#[trigger] self.neurons_seq()[i]).wf(
                self.input_dim_spec() as nat,
            )
    }

    /// Full consistency: additionally, every neuron's gate reads feature
    /// vectors of width `feature_dim`.
    pub open spec fn wf(self, feature_dim: nat) -> bool {
        &&& self.wf_inner()
        &&& forall|i: int|
            0 <= i < self.num() ==> (#[trigger] self.neurons_seq()[i]).gate().ctx().input_dim()
                == feature_dim
    }

    /// The context index neuron `i` selects for these raw feature values.
    pub open spec fn selected_ctx(self, i: int, side: Seq<int>) -> int {
        self.neurons_seq()[i].gate().selected_index(side)
    }

    /// `m` records, for every neuron of the layer, exactly the context index
    /// its gate selects on these raw feature values.
    pub open spec fn map_is_selection(self, side: Seq<int>, m: Map<NeuronId, usize>) -> bool {
        &&& forall|i: NeuronId| m.dom().contains(i) <==> i < self.num()
        &&& forall|i: NeuronId|
            i < self.num() ==> (#[trigger] m[i]) as int == self.selected_ctx(i as int, side)
    }

    /// `m` is a context map the layer can train against: one entry per neuron,
    /// each naming a stored context.
    pub open spec fn map_in_range(self, m: Map<NeuronId, usize>) -> bool {
        &&& forall|i: NeuronId| i < self.num() ==> #[trigger] m.dom().contains(i)
        &&& forall|i: NeuronId|
            i < self.num() ==> ((#[trigger] m[i]) as int)
                < self.neurons_seq()[i as int].gate().weights_seq().len()
    }

    /// Law: gate selection is deterministic, so two context maps recorded for
    /// the same layer state and the same feature values are one and the same
    /// map.
    pub proof fn lemma_selection_maps_equal(
        self,
        side: Seq<int>,
        m1: Map<NeuronId, usize>,
        m2: Map<NeuronId, usize>,
    )
        requires
            self.map_is_selection(side, m1),
            self.map_is_selection(side, m2),
        ensures
            m1 == m2,
    {
        assert forall|i: NeuronId| m1.dom().contains(i) implies #[trigger] m1[i] == m2[i] by {
        }
        assert(m1 =~= m2);
    }

    pub fn new(neurons: Vec<Neuron<HalfSpaceContext>>, input_dim: usize) -> (r: Layer)
        ensures
            r.neurons_seq() == neurons@,
            r.num() == neurons@.len(),
            r.input_dim_spec() == input_dim,
    {
        let num_neurons = neurons.len();
        Layer { neurons, num_neurons, input_dim }
    }

    /// A layer of `neuron_num` freshly initialized half-space neurons: every
    /// neuron starts at the balanced weights with the given parameters.
    pub fn with_neuron_num(
        neuron_num: usize,
        input_dim: usize,
        context_dim: usize,
        feature_dim: usize,
        learning_rate: Fx,
        weight_clipping_value: Fx,
        negative_weight: Fx,
        reg_param: Fx,
    ) -> (r: Layer)
        requires
            context_dim <= 30,
            input_dim < 0x8000_0000_0000_0000,
        ensures
            r.wf(feature_dim as nat),
            r.num() == neuron_num,
            r.input_dim_spec() == input_dim,
            forall|i: int|
                0 <= i < neuron_num ==> (#[trigger] r.neurons_seq()[i]).gate().ctx().ctx_dim()
                    == context_dim,
            forall|i: int, ci: int, j: int|
                0 <= i < neuron_num && 0 <= ci
                    < r.neurons_seq()[i].gate().weights_seq().len() && 0 <= j < input_dim
                    ==> fx_val(#[trigger] r.neurons_seq()[i].gate().weights_seq()[ci][j])
                    == balanced_init_val(input_dim as int),
            forall|i: int|
                0 <= i < neuron_num ==> (#[trigger] r.neurons_seq()[i]).eps_val()
                    == crate::model::config::default_pred_clipping_val(),
            forall|i: int|
                0 <= i < neuron_num ==> (#[trigger] r.neurons_seq()[i]).lr_val() == fx_val(
                    learning_rate,
                ),
            forall|i: int|
                0 <= i < neuron_num ==> (#[trigger] r.neurons_seq()[i]).edge_val() == fx_val(
                    weight_clipping_value,
                ),
            forall|i: int|
                0 <= i < neuron_num ==> (#[trigger] r.neurons_seq()[i]).grad_rule().reg_val()
                    == fx_val(reg_param),
            forall|i: int|
                0 <= i < neuron_num
                    ==> (#[trigger] r.neurons_seq()[i]).grad_rule().negative_weight_val()
                    == fx_val(negative_weight),
    {
        let mut neurons: Vec<Neuron<HalfSpaceContext>> = Vec::new();
        let mut i: usize = 0;
        while i < neuron_num
            invariant
                i <= neuron_num,
                context_dim <= 30,
                input_dim < 0x8000_0000_0000_0000,
                neurons@.len() == i,
                forall|t: int|
                    0 <= t < i ==> (#[trigger] neurons@[t]).wf(input_dim as nat),
                forall|t: int|
                    0 <= t < i ==> (#[trigger] neurons@[t]).gate().ctx().input_dim()
                        == feature_dim,
                forall|t: int|
                    0 <= t < i ==> (#[trigger] neurons@[t]).gate().ctx().ctx_dim() == context_dim,
                forall|t: int, ci: int, j: int|
                    0 <= t < i && 0 <= ci < neurons@[t].gate().weights_seq().len() && 0 <= j
                        < input_dim ==> fx_val(
                        #[trigger] neurons@[t].gate().weights_seq()[ci][j],
                    ) == balanced_init_val(input_dim as int),
                forall|t: int|
                    0 <= t < i ==> (#[trigger] neurons@[t]).eps_val()
                        == crate::model::config::default_pred_clipping_val(),
                forall|t: int|
                    0 <= t < i ==> (#[trigger] neurons@[t]).lr_val() == fx_val(learning_rate),
                forall|t: int|
                    0 <= t < i ==> (#[trigger] neurons@[t]).edge_val() == fx_val(
                        weight_clipping_value,
                    ),
                forall|t: int|
                    0 <= t < i ==> (#[trigger] neurons@[t]).grad_rule().reg_val() == fx_val(
                        reg_param,
                    ),
                forall|t: int|
                    0 <= t < i ==> (#[trigger] neurons@[t]).grad_rule().negative_weight_val()
                        == fx_val(negative_weight),
            decreases neuron_num - i,
        {
            neurons.push(
                Neuron::with_half_space_context(
                    input_dim,
                    context_dim,
                    feature_dim,
                    learning_rate,
                    weight_clipping_value,
                    negative_weight,
                    reg_param,
                ),
            );
            i = i + 1;
        }
        Self::new(neurons, input_dim)
    }

    /// Trains every neuron against the target, at exactly the context the map
    /// fixed for it at prediction time; no other context's weights change.
    pub fn train(
        &mut self,
        context_index_map: &HashMap<NeuronId, ContextIndex>,
        inputs: &Vec<Fx>,
        target: i32,
    )
        requires
            old(self).wf_inner(),
            inputs.len() == old(self).input_dim_spec(),
            target == 0 || target == 1,
            old(self).map_in_range(context_index_map@),
        ensures
            final(self).wf_inner(),
            final(self).num() == old(self).num(),
            final(self).input_dim_spec() == old(self).input_dim_spec(),
            forall|i: int|
                0 <= i < old(self).num() ==> crate::model::neuron::trained(
                    old(self).neurons_seq()[i],
                    #[trigger] final(self).neurons_seq()[i],
                    context_index_map@[i as usize] as int,
                    fx_vals(inputs@),
                    target as int,
                ),
    {
        let ghost pre = *self;
        let mut neuron_id: usize = 0;
        while neuron_id < self.num_neurons
            invariant
                neuron_id <= pre.num(),
                self.num() == pre.num(),
                self.input_dim_spec() == pre.input_dim_spec(),
                self.wf_inner(),
                inputs.len() == pre.input_dim_spec(),
                target == 0 || target == 1,
                pre.map_in_range(context_index_map@),
                forall|k: int|
                    neuron_id <= k < pre.num() ==> #[trigger] self.neurons_seq()[k]
                        == pre.neurons_seq()[k],
                forall|i: int|
                    0 <= i < neuron_id ==> crate::model::neuron::trained(
                        pre.neurons_seq()[i],
                        #[trigger] self.neurons_seq()[i],
                        context_index_map@[i as usize] as int,
                        fx_vals(inputs@),
                        target as int,
                    ),
            decreases pre.num() - neuron_id,
        {
            proof {
                assert(context_index_map@.dom().contains(neuron_id));
            }
            let context_index: usize = match context_index_map.get(&neuron_id) {
                Some(c) => *c,
                None => {
                    proof {
                        assert(false);
                    }
                    0
                },
            };
            self.neurons[neuron_id].update_weights(inputs, target, context_index);
            neuron_id = neuron_id + 1;
        }
    }

    /// Re-predicts every neuron's probability at the contexts already fixed in
    /// the map; used during training to recompute the forward value the next
    /// layer consumed.
    pub fn predict_by_context_index(
        &self,
        context_index_map: &HashMap<NeuronId, ContextIndex>,
        inputs: &Vec<Fx>,
    ) -> (r: Vec<Fx>)
        requires
            self.wf_inner(),
            inputs.len() == self.input_dim_spec(),
            self.map_in_range(context_index_map@),
        ensures
            r@.len() == self.num(),
            forall|i: int|
                0 <= i < self.num() ==> fx_val(#[trigger] r@[i])
                    == self.neurons_seq()[i].predict_val(
                    context_index_map@[i as usize] as int,
                    fx_vals(inputs@),
                ),
    {
        let mut probabilities: Vec<Fx> = Vec::new();
        let mut neuron_id: usize = 0;
        while neuron_id < self.num_neurons
            invariant
                neuron_id <= self.num(),
                self.wf_inner(),
                inputs.len() == self.input_dim_spec(),
                self.map_in_range(context_index_map@),
                probabilities@.len() == neuron_id,
                forall|i: int|
                    0 <= i < neuron_id ==> fx_val(#[trigger] probabilities@[i])
                        == self.neurons_seq()[i].predict_val(
                        context_index_map@[i as usize] as int,
                        fx_vals(inputs@),
                    ),
            decreases self.num() - neuron_id,
        {
            proof {
                assert(context_index_map@.dom().contains(neuron_id));
            }
            let context_index: usize = match context_index_map.get(&neuron_id) {
                Some(c) => *c,
                None => {
                    proof {
                        assert(false);
                    }
                    0
                },
            };
            let probability = self.neurons[neuron_id].predict_by_context_index(
                context_index,
                inputs,
            );
            probabilities.push(probability);
            neuron_id = neuron_id + 1;
        }
        probabilities
    }

    /// Evaluates every neuron's gate on the raw features, fixing this
    /// example's contexts, and multiplies the assembled weight matrix with the
    /// previous layer's vector: entry `i` is the dot product of neuron `i`'s
    /// selected weights with `previous_vector`. The returned map records every
    /// neuron's chosen context for reuse in training.
    pub fn calculate_next_weight_matrix(
        &self,
        features: &Vec<Fx>,
        previous_vector: &Vec<Fx>,
    ) -> (r: LayerPrediction)
        requires
            self.wf(features.len() as nat),
            previous_vector.len() == self.input_dim_spec(),
        ensures
            r.predictions@.len() == self.num(),
            forall|i: int|
                0 <= i < self.num() ==> fx_val(#[trigger] r.predictions@[i]) == dot_val(
                    fx_vals(
                        self.neurons_seq()[i].gate().weights_seq()[self.selected_ctx(
                            i,
                            fx_vals(features@),
                        )],
                    ),
                    fx_vals(previous_vector@),
                    self.input_dim_spec(),
                ),
            r.context_index_map is Some,
            self.map_is_selection(fx_vals(features@), (r.context_index_map->Some_0)@),
    {
        let mut predictions: Vec<Fx> = Vec::new();
        let mut context_index_map: HashMap<NeuronId, usize> = HashMap::new();
        let mut neuron_id: usize = 0;
        while neuron_id < self.num_neurons
            invariant
                neuron_id <= self.num(),
                self.wf(features.len() as nat),
                previous_vector.len() == self.input_dim_spec(),
                predictions@.len() == neuron_id,
                forall|i: int|
                    0 <= i < neuron_id ==> fx_val(#[trigger] predictions@[i]) == dot_val(
                        fx_vals(
                            self.neurons_seq()[i].gate().weights_seq()[self.selected_ctx(
                                i,
                                fx_vals(features@),
                            )],
                        ),
                        fx_vals(previous_vector@),
                        self.input_dim_spec(),
                    ),
                forall|i: NeuronId|
                    context_index_map@.dom().contains(i) <==> i < neuron_id,
                forall|i: NeuronId|
                    i < neuron_id ==> (#[trigger] context_index_map@[i]) as int
                        == self.selected_ctx(i as int, fx_vals(features@)),
            decreases self.num() - neuron_id,
        {
            let (weights, context_index) = self.neurons[neuron_id].get_current_weights(features);
            let prediction = fx_dot(&weights, previous_vector);
            predictions.push(prediction);
            context_index_map.insert(neuron_id, context_index);
            neuron_id = neuron_id + 1;
        }
        LayerPrediction { predictions, context_index_map: Some(context_index_map) }
    }
}

/// The greatest raw value among the first `n` entries (`n` at least one).
pub open spec fn seq_max_val(s: Seq<int>, n: int) -> int
    decreases n,
{
    if n <= 1 {
        s[0]
    } else {
        vstd::math::max(seq_max_val(s, n - 1), s[n - 1])
    }
}

/// The least raw value among the first `n` entries (`n` at least one).
pub open spec fn seq_min_val(s: Seq<int>, n: int) -> int
    decreases n,
{
    if n <= 1 {
        s[0]
    } else {
        vstd::math::min(seq_min_val(s, n - 1), s[n - 1])
    }
}

/// Every entry lies between the minimum and the maximum.
pub proof fn lemma_seq_min_max(s: Seq<int>, n: int, i: int)
    requires
        0 <= i < n,
    ensures
        seq_min_val(s, n) <= s[i] <= seq_max_val(s, n),
        seq_min_val(s, n) <= seq_max_val(s, n),
    decreases n,
{
    if n > 1 && i < n - 1 {
        lemma_seq_min_max(s, n - 1, i);
    }
    if n > 1 && i == n - 1 && n >= 2 {
        lemma_seq_min_max(s, n - 1, 0);
    }
}

/// Raw value of the base layer's min-max normalization of feature `i`,
/// clipped into `[eps, 1 - eps]`. A uniform feature vector cannot be scaled by
/// its own range; a nonzero uniform vector maps every feature to the shared
/// value, and an all-zero vector maps every feature to zero, both then
/// clipped.
pub open spec fn base_normalize_val(vals: Seq<int>, e: int, i: int) -> int {
    let mx = seq_max_val(vals, vals.len() as int);
    let mn = seq_min_val(vals, vals.len() as int);
    if mx != mn {
        clip_prob_val(fx_div_val(fx_add_val(vals[i], -mn), fx_add_val(mx, -mn)), e)
    } else if mx != 0 {
        clip_prob_val(mx, e)
    } else {
        clip_prob_val(0, e)
    }
}

/// Law: whatever the features, a base-layer probability is strictly inside
/// (0, 1), since every fallback branch ends in the clip.
pub proof fn lemma_base_normalize_in_unit(vals: Seq<int>, e: int, i: int)
    requires
        0 < e < FX_SCALE,
    ensures
        0 < base_normalize_val(vals, e, i) < FX_SCALE,
{
    let mx = seq_max_val(vals, vals.len() as int);
    let mn = seq_min_val(vals, vals.len() as int);
    if mx != mn {
        lemma_clip_prob_in_unit(fx_div_val(fx_add_val(vals[i], -mn), fx_add_val(mx, -mn)), e);
    } else if mx != 0 {
        lemma_clip_prob_in_unit(mx, e);
    } else {
        lemma_clip_prob_in_unit(0, e);
    }
}

/// Raw value of the base layer's log-odds output for feature `i`: the min-max
/// normalization through `logit`, with a uniform vector falling back to an
/// even split by the feature count.
pub open spec fn base_logit_val(vals: Seq<int>, e: int, i: int) -> int {
    let mx = seq_max_val(vals, vals.len() as int);
    let mn = seq_min_val(vals, vals.len() as int);
    if mx != mn {
        logit_val(clip_prob_val(fx_div_val(fx_add_val(vals[i], -mn), fx_add_val(mx, -mn)), e))
    } else {
        logit_val(clip_prob_val(fx_div_val(vals[i], fx_from_int_val(vals.len() as int)), e))
    }
}

/// The input-normalizing pseudo-layer: min-max scales raw features into the
/// probability domain, with clipping; the log-odds variant feeds the first
/// real layer.
pub struct BaseLayer {
    pred_clipping_value: Fx,
    feature_dim: usize,
}

impl BaseLayer {
    /// Raw value of the clipping bound.
    pub closed spec fn eps_val(self) -> int {
        fx_val(self.pred_clipping_value)
    }

    /// The accepted feature-vector length.
    pub closed spec fn feature_dim_spec(self) -> int {
        self.feature_dim as int
    }

    /// The clipping bound keeps normalized values strictly inside (0, 1).
    pub open spec fn wf(self) -> bool {
        0 < self.eps_val() < FX_SCALE
    }

    pub fn new(pred_clipping_value: Fx, feature_dim: usize) -> (r: BaseLayer)
        requires
            0 < fx_val(pred_clipping_value) < FX_SCALE,
        ensures
            r.wf(),
            r.eps_val() == fx_val(pred_clipping_value),
            r.feature_dim_spec() == feature_dim,
    {
        BaseLayer { pred_clipping_value, feature_dim }
    }

    /// The extreme values of a nonempty feature vector.
    fn min_max(&self, features: &Vec<Fx>) -> (r: (Fx, Fx))
        requires
            features.len() >= 1,
        ensures
            fx_val(r.0) == seq_min_val(fx_vals(features@), features.len() as int),
            fx_val(r.1) == seq_max_val(fx_vals(features@), features.len() as int),
    {
        let mut mn = features[0];
        let mut mx = features[0];
        let mut idx: usize = 1;
        while idx < features.len()
            invariant
                1 <= idx <= features.len(),
                fx_val(mn) == seq_min_val(fx_vals(features@), idx as int),
                fx_val(mx) == seq_max_val(fx_vals(features@), idx as int),
            decreases features.len() - idx,
        {
            let v = features[idx];
            if fx_lt(v, mn) {
                mn = v;
            }
            if fx_lt(mx, v) {
                mx = v;
            }
            idx = idx + 1;
        }
        (mn, mx)
    }

    /// Min-max normalizes the features into the clipped probability domain.
    pub fn predict(&self, features: &Vec<Fx>) -> (r: Vec<Fx>)
        requires
            self.wf(),
            features.len() == self.feature_dim_spec(),
            1 <= features.len() < 0x8000_0000_0000_0000,
        ensures
            r@.len() == features.len(),
            forall|i: int|
                0 <= i < features.len() ==> fx_val(#[trigger] r@[i]) == base_normalize_val(
                    fx_vals(features@),
                    self.eps_val(),
                    i,
                ),
    {
        self.normalize(features)
    }

    /// Normalizes as `predict` does, then maps each value through `logit`,
    /// giving the column of log-odds the first layer mixes over.
    pub fn predict_with_logits(&self, features: &Vec<Fx>) -> (r: LayerPrediction)
        requires
            self.wf(),
            features.len() == self.feature_dim_spec(),
            1 <= features.len() < 0x8000_0000_0000_0000,
        ensures
            r.predictions@.len() == features.len(),
            forall|i: int|
                0 <= i < features.len() ==> fx_val(#[trigger] r.predictions@[i])
                    == base_logit_val(fx_vals(features@), self.eps_val(), i),
            r.context_index_map is None,
    {
        let (mn, mx) = self.min_max(features);
        let ghost vals = fx_vals(features@);
        let mut out: Vec<Fx> = Vec::new();
        let mut idx: usize = 0;
        if !(fx_le(mx, mn) && fx_le(mn, mx)) {
            let range = fx_sub(mx, mn);
            proof {
                lemma_seq_min_max(vals, vals.len() as int, 0);
            }
            while idx < features.len()
                invariant
                    idx <= features.len(),
                    self.wf(),
                    features.len() >= 1,
                    vals == fx_vals(features@),
                    fx_val(mn) == seq_min_val(vals, vals.len() as int),
                    fx_val(mx) == seq_max_val(vals, vals.len() as int),
                    fx_val(mx) != fx_val(mn),
                    fx_val(range) == fx_add_val(fx_val(mx), -fx_val(mn)),
                    fx_val(range) != 0,
                    out@.len() == idx,
                    forall|i: int|
                        0 <= i < idx ==> fx_val(#[trigger] out@[i]) == base_logit_val(
                            vals,
                            self.eps_val(),
                            i,
                        ),
                decreases features.len() - idx,
            {
                let shifted = fx_sub(features[idx], mn);
                let scaled = fx_div(shifted, range);
                let clipped = clip_prob(scaled, self.pred_clipping_value);
                proof {
                    lemma_clip_prob_in_unit(fx_val(scaled), self.eps_val());
                }
                out.push(logit(clipped));
                idx = idx + 1;
            }
        } else {
            let feature_len = Fx::from_int(features.len() as i64);
            proof {
                assert(fx_val(feature_len) == fx_from_int_val(features.len() as int));
                assert(fx_from_int_val(features.len() as int) > 0);
            }
            while idx < features.len()
                invariant
                    idx <= features.len(),
                    self.wf(),
                    features.len() >= 1,
                    vals == fx_vals(features@),
                    fx_val(mx) == seq_max_val(vals, vals.len() as int),
                    fx_val(mx) == seq_min_val(vals, vals.len() as int),
                    fx_val(feature_len) == fx_from_int_val(features.len() as int),
                    fx_val(feature_len) > 0,
                    out@.len() == idx,
                    forall|i: int|
                        0 <= i < idx ==> fx_val(#[trigger] out@[i]) == base_logit_val(
                            vals,
                            self.eps_val(),
                            i,
                        ),
                decreases features.len() - idx,
            {
                let scaled = fx_div(features[idx], feature_len);
                let clipped = clip_prob(scaled, self.pred_clipping_value);
                proof {
                    lemma_clip_prob_in_unit(fx_val(scaled), self.eps_val());
                }
                out.push(logit(clipped));
                idx = idx + 1;
            }
        }
        LayerPrediction { predictions: out, context_index_map: None }
    }

    fn normalize(&self, features: &Vec<Fx>) -> (r: Vec<Fx>)
        requires
            self.wf(),
            features.len() >= 1,
        ensures
            r@.len() == features.len(),
            forall|i: int|
                0 <= i < features.len() ==> fx_val(#[trigger] r@[i]) == base_normalize_val(
                    fx_vals(features@),
                    self.eps_val(),
                    i,
                ),
    {
        let (mn, mx) = self.min_max(features);
        let ghost vals = fx_vals(features@);
        let mut out: Vec<Fx> = Vec::new();
        let mut idx: usize = 0;
        if !(fx_le(mx, mn) && fx_le(mn, mx)) {
            let range = fx_sub(mx, mn);
            proof {
                lemma_seq_min_max(vals, vals.len() as int, 0);
            }
            while idx < features.len()
                invariant
                    idx <= features.len(),
                    self.wf(),
                    features.len() >= 1,
                    vals == fx_vals(features@),
                    fx_val(mn) == seq_min_val(vals, vals.len() as int),
                    fx_val(mx) == seq_max_val(vals, vals.len() as int),
                    fx_val(mx) != fx_val(mn),
                    fx_val(range) == fx_add_val(fx_val(mx), -fx_val(mn)),
                    fx_val(range) != 0,
                    out@.len() == idx,
                    forall|i: int|
                        0 <= i < idx ==> fx_val(#[trigger] out@[i]) == base_normalize_val(
                            vals,
                            self.eps_val(),
                            i,
                        ),
                decreases features.len() - idx,
            {
                let shifted = fx_sub(features[idx], mn);
                let scaled = fx_div(shifted, range);
                out.push(clip_prob(scaled, self.pred_clipping_value));
                idx = idx + 1;
            }
        } else if !(fx_le(mx, Fx::zero()) && fx_le(Fx::zero(), mx)) {
            while idx < features.len()
                invariant
                    idx <= features.len(),
                    self.wf(),
                    features.len() >= 1,
                    vals == fx_vals(features@),
                    fx_val(mx) == seq_max_val(vals, vals.len() as int),
                    fx_val(mx) == seq_min_val(vals, vals.len() as int),
                    fx_val(mx) != 0,
                    out@.len() == idx,
                    forall|i: int|
                        0 <= i < idx ==> fx_val(#[trigger] out@[i]) == base_normalize_val(
                            vals,
                            self.eps_val(),
                            i,
                        ),
                decreases features.len() - idx,
            {
                out.push(clip_prob(mx, self.pred_clipping_value));
                idx = idx + 1;
            }
        } else {
            while idx < features.len()
                invariant
                    idx <= features.len(),
                    self.wf(),
                    features.len() >= 1,
                    vals == fx_vals(features@),
                    fx_val(mx) == seq_max_val(vals, vals.len() as int),
                    fx_val(mx) == seq_min_val(vals, vals.len() as int),
                    fx_val(mx) == 0,
                    out@.len() == idx,
                    forall|i: int|
                        0 <= i < idx ==> fx_val(#[trigger] out@[i]) == base_normalize_val(
                            vals,
                            self.eps_val(),
                            i,
                        ),
                decreases features.len() - idx,
            {
                out.push(clip_prob(Fx::zero(), self.pred_clipping_value));
                idx = idx + 1;
            }
        }
        out
    }
}

} // verus!
