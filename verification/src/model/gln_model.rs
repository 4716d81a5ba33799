//! The network: an ordered sequence of layers behind an input-normalizing
//! base layer. Prediction threads each layer's log-odds output into the next
//! layer and fixes one gate context per neuron; training replays exactly
//! those contexts, layer by layer, against one binary target.

use crate::model::config::LayerConfig;
use crate::model::context_func::ContextFunction;
use crate::model::layer::{base_logit_val, base_normalize_val, BaseLayer, Layer};
use crate::model::neuron::trained;
use crate::utils::data_type::{ContextIndex, LayerId, NeuronId};
use crate::utils::math::{
    dot_val, fx_val, fx_vals, geometric_mixing_loss, geometric_mixing_loss_val, sigmoid,
    sigmoid_val, Fx, FX_SCALE,
};
use std::collections::HashMap;
use vstd::prelude::*;

verus! {

broadcast use vstd::std_specs::hash::group_hash_axioms;

/// The log-odds column one layer produces for an example: entry `i` is the
/// dot product of neuron `i`'s selected weights with the previous column.
pub open spec fn layer_logits(l: Layer, side: Seq<int>, prev: Seq<int>) -> Seq<int> {
    Seq::new(
        l.num() as nat,
        |i: int|
            dot_val(
                fx_vals(l.neurons_seq()[i].gate().weights_seq()[l.selected_ctx(i, side)]),
                prev,
                l.input_dim_spec(),
            ),
    )
}

/// The probability column one layer produces under an already fixed context
/// map: entry `i` is neuron `i`'s clipped mixture at its recorded context.
pub open spec fn layer_probs(l: Layer, m: Map<NeuronId, usize>, inputs: Seq<int>) -> Seq<int> {
    Seq::new(
        l.num() as nat,
        |i: int| l.neurons_seq()[i].predict_val(m[i as usize] as int, inputs),
    )
}

/// A prediction: the network's scalar probability, and the context index each
/// neuron chose, keyed by layer and neuron position. The map must be handed
/// unchanged to the training call on the same example.
pub struct GLNPrediction {
    pub probability: Fx,
    pub context_index_map: HashMap<LayerId, HashMap<NeuronId, ContextIndex>>,
}

/// Per-layer, per-neuron loss telemetry of one training step.
pub struct GLNTrainHistory {
    pub loss_histories: HashMap<LayerId, HashMap<NeuronId, Fx>>,
}

/// The result of predicting and then training on one example.
pub struct PredictFitResult {
    pub prediction: Fx,
    pub loss_histories: HashMap<LayerId, HashMap<NeuronId, Fx>>,
}

/// A gated linear network: layers whose input widths chain, behind one base
/// layer.
pub struct GLN {
    layers: Vec<Layer>,
    base_layer: BaseLayer,
    num_layers: usize,
}

impl GLN {
    /// The layers in order.
    pub closed spec fn layers_seq(self) -> Seq<Layer> {
        self.layers@
    }

    /// The number of layers.
    pub closed spec fn num(self) -> int {
        self.num_layers as int
    }

    /// The base layer.
    pub closed spec fn base(self) -> BaseLayer {
        self.base_layer
    }

    /// Consistency for feature vectors of width `feature_dim`: at least one
    /// layer, every layer consistent, input widths chaining from the feature
    /// width through the neuron counts, and a nonempty last layer to read the
    /// classification head from.
    pub open spec fn wf(self, feature_dim: nat) -> bool {
        &&& self.num() == self.layers_seq().len()
        &&& self.num() >= 1
        &&& 1 <= feature_dim < 0x8000_0000_0000_0000
        &&& self.base().wf()
        &&& self.base().feature_dim_spec() == feature_dim
        &&& forall|k: int|
            0 <= k < self.num() ==> (#[trigger] self.layers_seq()[k]).wf(feature_dim)
        &&& self.layers_seq()[0].input_dim_spec() == feature_dim
        &&& forall|k: int|
            1 <= k < self.num() ==> (#[trigger] self.layers_seq()[k]).input_dim_spec()
                == self.layers_seq()[k - 1].num()
        &&& self.layers_seq()[self.num() - 1].num() >= 1
    }

    /// The base layer's log-odds column for these raw feature values.
    pub open spec fn base_logits_seq(self, features: Seq<int>) -> Seq<int> {
        Seq::new(
            features.len(),
            |i: int| base_logit_val(features, self.base().eps_val(), i),
        )
    }

    /// The base layer's probability column for these raw feature values.
    pub open spec fn base_probs_seq(self, features: Seq<int>) -> Seq<int> {
        Seq::new(
            features.len(),
            |i: int| base_normalize_val(features, self.base().eps_val(), i),
        )
    }

    /// The log-odds column after the first `k` layers of the forward pass.
    pub open spec fn forward_upto(self, features: Seq<int>, k: int) -> Seq<int>
        decreases k,
    {
        if k <= 0 {
            self.base_logits_seq(features)
        } else {
            layer_logits(self.layers_seq()[k - 1], features, self.forward_upto(features, k - 1))
        }
    }

    /// The probability column entering layer `k` during training under the
    /// context maps `m`: the base probabilities, pushed through the first `k`
    /// layers at their recorded contexts and pre-update weights.
    pub open spec fn train_inputs(
        self,
        features: Seq<int>,
        m: Map<LayerId, HashMap<NeuronId, ContextIndex>>,
        k: int,
    ) -> Seq<int>
        decreases k,
    {
        if k <= 0 {
            self.base_probs_seq(features)
        } else {
            layer_probs(
                self.layers_seq()[k - 1],
                m[(k - 1) as usize]@,
                self.train_inputs(features, m, k - 1),
            )
        }
    }

    /// `m` holds one in-range context map per layer.
    pub open spec fn cmap_in_range(
        self,
        m: Map<LayerId, HashMap<NeuronId, ContextIndex>>,
    ) -> bool {
        &&& forall|k: LayerId| k < self.num() ==> #[trigger] m.dom().contains(k)
        &&& forall|k: LayerId|
            k < self.num() ==> self.layers_seq()[k as int].map_in_range((#[trigger] m[k])@)
    }

    /// A network of `neuron_nums.len()` layers, layer `k` holding
    /// `neuron_nums[k]` fresh balanced neurons, with the input widths chained
    /// and the default prediction clipping bound throughout.
    pub fn new(
        neuron_nums: Vec<usize>,
        context_dim: usize,
        feature_dim: usize,
        learning_rate: Fx,
        weight_clipping_value: Fx,
        grad_weight: Fx,
        reg_param: Fx,
    ) -> (r: GLN)
        requires
            neuron_nums.len() >= 1,
            context_dim <= 30,
            1 <= feature_dim < 0x8000_0000_0000_0000,
            forall|k: int|
                0 <= k < neuron_nums.len() ==> #[trigger] neuron_nums@[k]
                    < 0x8000_0000_0000_0000,
            neuron_nums@[neuron_nums.len() - 1] >= 1,
        ensures
            r.wf(feature_dim as nat),
            r.num() == neuron_nums.len(),
            forall|k: int|
                0 <= k < neuron_nums.len() ==> (#[trigger] r.layers_seq()[k]).num()
                    == neuron_nums@[k],
            r.base().eps_val() == crate::model::config::default_pred_clipping_val(),
            forall|k: int, i: int|
                0 <= k < r.num() && 0 <= i < r.layers_seq()[k].num()
                    ==> (#[trigger] r.layers_seq()[k].neurons_seq()[i]).gate().ctx().ctx_dim()
                    == context_dim,
            forall|k: int, i: int, ci: int, j: int|
                0 <= k < r.num() && 0 <= i < r.layers_seq()[k].num() && 0 <= ci
                    < r.layers_seq()[k].neurons_seq()[i].gate().weights_seq().len() && 0 <= j
                    < r.layers_seq()[k].input_dim_spec() ==> fx_val(
                    #[trigger] r.layers_seq()[k].neurons_seq()[i].gate().weights_seq()[ci][j],
                ) == crate::model::gate::balanced_init_val(r.layers_seq()[k].input_dim_spec()),
            forall|k: int, i: int|
                0 <= k < r.num() && 0 <= i < r.layers_seq()[k].num()
                    ==> (#[trigger] r.layers_seq()[k].neurons_seq()[i]).lr_val() == fx_val(
                    learning_rate,
                ) && r.layers_seq()[k].neurons_seq()[i].edge_val() == fx_val(
                    weight_clipping_value,
                ) && r.layers_seq()[k].neurons_seq()[i].grad_rule().negative_weight_val()
                    == fx_val(grad_weight) && r.layers_seq()[k].neurons_seq()[i].grad_rule().reg_val()
                    == fx_val(reg_param) && r.layers_seq()[k].neurons_seq()[i].eps_val()
                    == crate::model::config::default_pred_clipping_val(),
    {
        let mut layers: Vec<Layer> = Vec::new();
        let first_layer = Layer::with_neuron_num(
            neuron_nums[0],
            feature_dim,
            context_dim,
            feature_dim,
            learning_rate,
            weight_clipping_value,
            grad_weight,
            reg_param,
        );
        layers.push(first_layer);

        let num_layers = neuron_nums.len();
        let mut layer_index: usize = 1;
        while layer_index < num_layers
            invariant
                1 <= layer_index <= num_layers,
                num_layers == neuron_nums.len(),
                context_dim <= 30,
                1 <= feature_dim < 0x8000_0000_0000_0000,
                forall|k: int|
                    0 <= k < neuron_nums.len() ==> #[trigger] neuron_nums@[k]
                        < 0x8000_0000_0000_0000,
                layers@.len() == layer_index,
                forall|k: int|
                    0 <= k < layer_index ==> (#[trigger] layers@[k]).wf(feature_dim as nat),
                forall|k: int|
                    0 <= k < layer_index ==> (#[trigger] layers@[k]).num() == neuron_nums@[k],
                forall|k: int, i: int|
                    0 <= k < layer_index && 0 <= i < layers@[k].num()
                        ==> (#[trigger] layers@[k].neurons_seq()[i]).gate().ctx().ctx_dim()
                        == context_dim,
                layers@[0].input_dim_spec() == feature_dim,
                forall|k: int|
                    1 <= k < layer_index ==> (#[trigger] layers@[k]).input_dim_spec()
                        == neuron_nums@[k - 1],
                forall|k: int, i: int, ci: int, j: int|
                    0 <= k < layer_index && 0 <= i < layers@[k].num() && 0 <= ci
                        < layers@[k].neurons_seq()[i].gate().weights_seq().len() && 0 <= j
                        < layers@[k].input_dim_spec() ==> fx_val(
                        #[trigger] layers@[k].neurons_seq()[i].gate().weights_seq()[ci][j],
                    ) == crate::model::gate::balanced_init_val(layers@[k].input_dim_spec()),
                forall|k: int, i: int|
                    0 <= k < layer_index && 0 <= i < layers@[k].num()
                        ==> (#[trigger] layers@[k].neurons_seq()[i]).lr_val() == fx_val(
                        learning_rate,
                    ) && layers@[k].neurons_seq()[i].edge_val() == fx_val(
                        weight_clipping_value,
                    ) && layers@[k].neurons_seq()[i].grad_rule().negative_weight_val() == fx_val(
                        grad_weight,
                    ) && layers@[k].neurons_seq()[i].grad_rule().reg_val() == fx_val(reg_param)
                        && layers@[k].neurons_seq()[i].eps_val()
                        == crate::model::config::default_pred_clipping_val(),
            decreases num_layers - layer_index,
        {
            let input_dim = neuron_nums[layer_index - 1];
            let layer = Layer::with_neuron_num(
                neuron_nums[layer_index],
                input_dim,
                context_dim,
                feature_dim,
                learning_rate,
                weight_clipping_value,
                grad_weight,
                reg_param,
            );
            layers.push(layer);
            layer_index = layer_index + 1;
        }

        let config = LayerConfig::with_default_value();

        GLN {
            layers,
            base_layer: BaseLayer::new(config.pred_clipping_value, feature_dim),
            num_layers,
        }
    }

    /// The full forward pass: the base layer's log-odds column is threaded
    /// through every layer, each layer fixing one gate context per neuron.
    /// The probability is the logistic function of the first entry of the
    /// last layer's column; the returned maps record every chosen context.
    pub fn predict(&self, features: &Vec<Fx>) -> (r: GLNPrediction)
        requires
            self.wf(features.len() as nat),
        ensures
            fx_val(r.probability) == sigmoid_val(
                self.forward_upto(fx_vals(features@), self.num())[0],
            ),
            forall|k: LayerId| r.context_index_map@.dom().contains(k) <==> k < self.num(),
            forall|k: LayerId|
                k < self.num() ==> self.layers_seq()[k as int].map_is_selection(
                    fx_vals(features@),
                    (#[trigger] r.context_index_map@[k])@,
                ),
            self.cmap_in_range(r.context_index_map@),
    {
        let ghost side = fx_vals(features@);
        let base_prediction = self.base_layer.predict_with_logits(features);
        let mut prev: Vec<Fx> = base_prediction.predictions;
        proof {
            assert(fx_vals(prev@) =~= self.forward_upto(side, 0));
        }
        let mut layer_context_index_map: HashMap<LayerId, HashMap<NeuronId, ContextIndex>> =
            HashMap::new();
        let mut layer_index: usize = 0;
        while layer_index < self.num_layers
            invariant
                layer_index <= self.num(),
                self.wf(features.len() as nat),
                side == fx_vals(features@),
                fx_vals(prev@) == self.forward_upto(side, layer_index as int),
                prev@.len() == self.forward_upto(side, layer_index as int).len(),
                prev@.len() == (if layer_index == 0 {
                    features.len() as int
                } else {
                    self.layers_seq()[layer_index - 1].num()
                }),
                forall|k: LayerId|
                    layer_context_index_map@.dom().contains(k) <==> k < layer_index,
                forall|k: LayerId|
                    k < layer_index ==> self.layers_seq()[k as int].map_is_selection(
                        side,
                        (#[trigger] layer_context_index_map@[k])@,
                    ),
            decreases self.num() - layer_index,
        {
            let layer_prediction = self.layers[layer_index].calculate_next_weight_matrix(
                features,
                &prev,
            );
            let inner = match layer_prediction.context_index_map {
                Some(m) => m,
                None => {
                    proof {
                        assert(false);
                    }
                    HashMap::new()
                },
            };
            proof {
                assert(fx_vals(layer_prediction.predictions@) =~= self.forward_upto(
                    side,
                    layer_index + 1,
                ));
            }
            prev = layer_prediction.predictions;
            layer_context_index_map.insert(layer_index, inner);
            layer_index = layer_index + 1;
        }
        let head = prev[0];
        proof {
            lemma_selection_in_range(
                *self,
                features.len() as nat,
                side,
                layer_context_index_map@,
            );
        }
        GLNPrediction {
            probability: sigmoid(head),
            context_index_map: layer_context_index_map,
        }
    }

    /// The logarithmic loss of every neuron's prediction in one layer's
    /// column, keyed by neuron position.
    pub fn calculate_layer_losses(&self, predictions: &Vec<Fx>, target: i32) -> (r: HashMap<
        NeuronId,
        Fx,
    >)
        requires
            target == 0 || target == 1,
            forall|i: int|
                0 <= i < predictions.len() ==> 0 < fx_val(#[trigger] predictions@[i]) < FX_SCALE,
        ensures
            forall|i: NeuronId| r@.dom().contains(i) <==> i < predictions.len(),
            forall|i: NeuronId|
                i < predictions.len() ==> fx_val(#[trigger] r@[i]) == geometric_mixing_loss_val(
                    target as int,
                    fx_val(predictions@[i as int]),
                ),
    {
        let mut losses: HashMap<NeuronId, Fx> = HashMap::new();
        let mut neuron_id: usize = 0;
        while neuron_id < predictions.len()
            invariant
                neuron_id <= predictions.len(),
                target == 0 || target == 1,
                forall|i: int|
                    0 <= i < predictions.len() ==> 0 < fx_val(#[trigger] predictions@[i])
                        < FX_SCALE,
                forall|i: NeuronId| losses@.dom().contains(i) <==> i < neuron_id,
                forall|i: NeuronId|
                    i < neuron_id ==> fx_val(#[trigger] losses@[i])
                        == geometric_mixing_loss_val(
                        target as int,
                        fx_val(predictions@[i as int]),
                    ),
            decreases predictions.len() - neuron_id,
        {
            let loss = geometric_mixing_loss(target, predictions[neuron_id]);
            losses.insert(neuron_id, loss);
            neuron_id = neuron_id + 1;
        }
        losses
    }

    /// One training step: the base layer re-normalizes the features, and each
    /// layer in order re-predicts at its frozen contexts (pre-update weights)
    /// to produce the next layer's inputs, records its losses, and updates
    /// every neuron's active context's weights against the target. The maps
    /// must be the ones fixed by the forward pass on this same example.
    #[verifier::rlimit(100)]
    pub fn train(
        &mut self,
        features: &Vec<Fx>,
        target: i32,
        context_index_map: &HashMap<LayerId, HashMap<NeuronId, ContextIndex>>,
    ) -> (r: GLNTrainHistory)
        requires
            old(self).wf(features.len() as nat),
            target == 0 || target == 1,
            old(self).cmap_in_range(context_index_map@),
        ensures
            final(self).wf(features.len() as nat),
            final(self).num() == old(self).num(),
            final(self).base() == old(self).base(),
            forall|k: int|
                0 <= k < old(self).num() ==> (#[trigger] final(self).layers_seq()[k]).num()
                    == old(self).layers_seq()[k].num() && final(self).layers_seq()[
                k].input_dim_spec() == old(self).layers_seq()[k].input_dim_spec(),
            forall|k: int, i: int|
                0 <= k < old(self).num() && 0 <= i < old(self).layers_seq()[k].num() ==> trained(
                    old(self).layers_seq()[k].neurons_seq()[i],
                    #[trigger] final(self).layers_seq()[k].neurons_seq()[i],
                    context_index_map@[k as usize]@[i as usize] as int,
                    old(self).train_inputs(fx_vals(features@), context_index_map@, k),
                    target as int,
                ),
            forall|k: LayerId| r.loss_histories@.dom().contains(k) <==> k < old(self).num(),
            forall|k: LayerId, i: NeuronId|
                #![trigger r.loss_histories@[k]@[i]]
                #![trigger r.loss_histories@[k]@.dom().contains(i)]
                k < old(self).num() && i < old(self).layers_seq()[k as int].num()
                    ==> r.loss_histories@[k]@.dom().contains(i) && fx_val(
                    r.loss_histories@[k]@[i],
                ) == geometric_mixing_loss_val(
                    target as int,
                    old(self).train_inputs(
                        fx_vals(features@),
                        context_index_map@,
                        k as int + 1,
                    )[i as int],
                ),
    {
        let ghost side = fx_vals(features@);
        let ghost m = context_index_map@;
        let mut inputs: Vec<Fx> = self.base_layer.predict(features);
        proof {
            assert(fx_vals(inputs@) =~= old(self).base_probs_seq(side));
        }
        let mut loss_history: HashMap<LayerId, HashMap<NeuronId, Fx>> = HashMap::new();
        let mut layer_id: usize = 0;
        while layer_id < self.num_layers
            invariant
                layer_id <= old(self).num(),
                old(self).wf(features.len() as nat),
                target == 0 || target == 1,
                old(self).cmap_in_range(m),
                m == context_index_map@,
                side == fx_vals(features@),
                self.num() == old(self).num(),
                self.base() == old(self).base(),
                self.layers_seq().len() == old(self).layers_seq().len(),
                fx_vals(inputs@) == old(self).train_inputs(side, m, layer_id as int),
                inputs@.len() == (if layer_id == 0 {
                    features.len() as int
                } else {
                    old(self).layers_seq()[layer_id - 1].num()
                }),
                forall|t: int|
                    layer_id <= t < old(self).num() ==> #[trigger] self.layers_seq()[t] == old(
                        self,
                    ).layers_seq()[t],
                forall|t: int|
                    0 <= t < layer_id ==> (#[trigger] self.layers_seq()[t]).num() == old(
                        self,
                    ).layers_seq()[t].num() && self.layers_seq()[t].input_dim_spec() == old(
                        self,
                    ).layers_seq()[t].input_dim_spec() && self.layers_seq()[t].wf(
                        features.len() as nat,
                    ),
                forall|t: int, i: int|
                    0 <= t < layer_id && 0 <= i < old(self).layers_seq()[t].num() ==> trained(
                        old(self).layers_seq()[t].neurons_seq()[i],
                        #[trigger] self.layers_seq()[t].neurons_seq()[i],
                        m[t as usize]@[i as usize] as int,
                        old(self).train_inputs(side, m, t),
                        target as int,
                    ),
                forall|k: LayerId| loss_history@.dom().contains(k) <==> k < layer_id,
                forall|k: LayerId, i: NeuronId|
                    #![trigger loss_history@[k]@[i]]
                    #![trigger loss_history@[k]@.dom().contains(i)]
                    k < layer_id && i < old(self).layers_seq()[k as int].num()
                        ==> loss_history@[k]@.dom().contains(i) && fx_val(
                        loss_history@[k]@[i],
                    ) == geometric_mixing_loss_val(
                        target as int,
                        old(self).train_inputs(side, m, k as int + 1)[i as int],
                    ),
            decreases old(self).num() - layer_id,
        {
            proof {
                assert(m.dom().contains(layer_id));
            }
            match context_index_map.get(&layer_id) {
                Some(layer_map) => {
                    let inputs_tmp = self.layers[layer_id].predict_by_context_index(
                        layer_map,
                        &inputs,
                    );
                    proof {
                        assert(fx_vals(inputs_tmp@) =~= old(self).train_inputs(
                            side,
                            m,
                            layer_id as int + 1,
                        ));
                        let l = old(self).layers_seq()[layer_id as int];
                        assert forall|i: int| 0 <= i < inputs_tmp@.len() implies 0 < fx_val(
                            #[trigger] inputs_tmp@[i],
                        ) < FX_SCALE by {
                            l.neurons_seq()[i].lemma_predict_val_in_unit(
                                m[layer_id]@[i as usize] as int,
                                old(self).train_inputs(side, m, layer_id as int),
                            );
                        }
                    }
                    let losses = self.calculate_layer_losses(&inputs_tmp, target);
                    let ghost lh0 = loss_history@;
                    loss_history.insert(layer_id, losses);
                    proof {
                        assert forall|k: LayerId, i: NeuronId|
                            k < layer_id && i < old(self).layers_seq()[k as int].num() implies
                            loss_history@[k]@.dom().contains(i) && fx_val(
                                loss_history@[k]@[i],
                            ) == geometric_mixing_loss_val(
                                target as int,
                                old(self).train_inputs(side, m, k as int + 1)[i as int],
                            ) by {
                            assert(loss_history@[k] == lh0[k]);
                            assert(lh0[k]@.dom().contains(i) && fx_val(lh0[k]@[i])
                                == geometric_mixing_loss_val(
                                target as int,
                                old(self).train_inputs(side, m, k as int + 1)[i as int],
                            ));
                        }
                    }
                    proof {
                        assert forall|i: NeuronId|
                            i < old(self).layers_seq()[layer_id as int].num() implies
                            loss_history@[layer_id]@.dom().contains(i) && fx_val(
                                loss_history@[layer_id]@[i],
                            ) == geometric_mixing_loss_val(
                                target as int,
                                old(self).train_inputs(side, m, layer_id as int + 1)[i as int],
                            ) by {
                            assert(fx_vals(inputs_tmp@)[i as int] == fx_val(
                                inputs_tmp@[i as int],
                            ));
                        }
                    }
                    self.layers[layer_id].train(layer_map, &inputs, target);
                    inputs = inputs_tmp;
                },
                None => {
                    proof {
                        assert(false);
                    }
                },
            };
            layer_id = layer_id + 1;
        }
        GLNTrainHistory { loss_histories: loss_history }
    }

    /// The probability column entering layer `k` when training replays the
    /// contexts the forward pass on the same features would select.
    pub open spec fn fit_inputs(self, features: Seq<int>, k: int) -> Seq<int>
        decreases k,
    {
        if k <= 0 {
            self.base_probs_seq(features)
        } else {
            layer_probs_sel(
                self.layers_seq()[k - 1],
                features,
                self.fit_inputs(features, k - 1),
            )
        }
    }

    /// Convenience composition: predict, then train on the same example with
    /// the freshly selected contexts, returning the prediction and the loss
    /// report together.
    pub fn predict_fit(&mut self, features: &Vec<Fx>, target: i32) -> (r: PredictFitResult)
        requires
            old(self).wf(features.len() as nat),
            target == 0 || target == 1,
        ensures
            fx_val(r.prediction) == sigmoid_val(
                old(self).forward_upto(fx_vals(features@), old(self).num())[0],
            ),
            final(self).wf(features.len() as nat),
            final(self).num() == old(self).num(),
            final(self).base() == old(self).base(),
            forall|k: int|
                0 <= k < old(self).num() ==> (#[trigger] final(self).layers_seq()[k]).num()
                    == old(self).layers_seq()[k].num() && final(self).layers_seq()[
            k].input_dim_spec() == old(self).layers_seq()[k].input_dim_spec(),
            forall|k: int, i: int|
                0 <= k < old(self).num() && 0 <= i < old(self).layers_seq()[k].num() ==> trained(
                    old(self).layers_seq()[k].neurons_seq()[i],
                    #[trigger] final(self).layers_seq()[k].neurons_seq()[i],
                    old(self).layers_seq()[k].selected_ctx(i, fx_vals(features@)),
                    old(self).fit_inputs(fx_vals(features@), k),
                    target as int,
                ),
            forall|k: LayerId| r.loss_histories@.dom().contains(k) <==> k < old(self).num(),
            forall|k: LayerId, i: NeuronId|
                #![trigger r.loss_histories@[k]@[i]]
                #![trigger r.loss_histories@[k]@.dom().contains(i)]
                k < old(self).num() && i < old(self).layers_seq()[k as int].num()
                    ==> r.loss_histories@[k]@.dom().contains(i) && fx_val(
                    r.loss_histories@[k]@[i],
                ) == geometric_mixing_loss_val(
                    target as int,
                    old(self).fit_inputs(fx_vals(features@), k as int + 1)[i as int],
                ),
    {
        let ghost side = fx_vals(features@);
        let pred = self.predict(features);
        proof {
            lemma_selection_in_range(
                *self,
                features.len() as nat,
                side,
                pred.context_index_map@,
            );
        }
        let train_history = self.train(features, target, &pred.context_index_map);
        proof {
            assert forall|k: int| 0 <= k <= old(self).num() implies old(self).train_inputs(
                side,
                pred.context_index_map@,
                k,
            ) == old(self).fit_inputs(side, k) by {
                lemma_selection_inputs(
                    *old(self),
                    features.len() as nat,
                    side,
                    pred.context_index_map@,
                    k,
                );
            }
        }
        proof {
            assert forall|k: int, i: int|
                0 <= k < old(self).num() && 0 <= i < old(self).layers_seq()[k].num() implies trained(
                old(self).layers_seq()[k].neurons_seq()[i],
                #[trigger] final(self).layers_seq()[k].neurons_seq()[i],
                old(self).layers_seq()[k].selected_ctx(i, side),
                old(self).fit_inputs(side, k),
                target as int,
            ) by {
                let m0 = pred.context_index_map@;
                let l = old(self).layers_seq()[k];
                assert(l.wf(features.len() as nat));
                assert((i as usize) as int == i);
                assert(l.map_is_selection(side, (m0[k as usize])@));
                assert((m0[k as usize]@[i as usize] as int) == l.selected_ctx(
                    (i as usize) as int,
                    side,
                ));
                assert(trained(
                    old(self).layers_seq()[k].neurons_seq()[i],
                    final(self).layers_seq()[k].neurons_seq()[i],
                    m0[k as usize]@[i as usize] as int,
                    old(self).train_inputs(side, m0, k),
                    target as int,
                ));
                assert(old(self).train_inputs(side, m0, k) == old(self).fit_inputs(side, k));
            }
        }
        PredictFitResult {
            prediction: pred.probability,
            loss_histories: train_history.loss_histories,
        }
    }
}

/// The probability column one layer produces when every neuron re-predicts at
/// the context its own gate selects for these features.
pub open spec fn layer_probs_sel(l: Layer, side: Seq<int>, inputs: Seq<int>) -> Seq<int> {
    Seq::new(
        l.num() as nat,
        |i: int| l.neurons_seq()[i].predict_val(l.selected_ctx(i, side), inputs),
    )
}

/// A family of context maps that records each gate's own selection is always
/// in range for training: every selected index addresses a stored weight
/// vector.
pub proof fn lemma_selection_in_range(
    g: GLN,
    fd: nat,
    side: Seq<int>,
    m: Map<LayerId, HashMap<NeuronId, ContextIndex>>,
)
    requires
        g.wf(fd),
        forall|k: LayerId| m.dom().contains(k) <==> k < g.num(),
        forall|k: LayerId|
            k < g.num() ==> g.layers_seq()[k as int].map_is_selection(side, (#[trigger] m[k])@),
    ensures
        g.cmap_in_range(m),
{
    assert forall|k: LayerId| k < g.num() implies g.layers_seq()[k as int].map_in_range(
        (#[trigger] m[k])@,
    ) by {
        let l = g.layers_seq()[k as int];
        assert(l.wf(fd));
        assert forall|i: NeuronId| i < l.num() implies ((#[trigger] m[k]@[i]) as int)
            < l.neurons_seq()[i as int].gate().weights_seq().len() by {
            let n = l.neurons_seq()[i as int];
            assert(n.wf(l.input_dim_spec() as nat));
            crate::model::gate::lemma_indicator_index_bounds(
                n.gate().ctx().indicator_spec(side),
                n.gate().ctx().ctx_dim() as int,
            );
        }
    }
}

/// Training at the contexts a forward pass on the same features selects
/// consumes exactly the probability columns of the selection-based replay.
#[verifier::rlimit(60)]
pub proof fn lemma_selection_inputs(
    g: GLN,
    fd: nat,
    side: Seq<int>,
    m: Map<LayerId, HashMap<NeuronId, ContextIndex>>,
    k: int,
)
    requires
        g.wf(fd),
        0 <= k <= g.num(),
        forall|t: LayerId|
            t < g.num() ==> g.layers_seq()[t as int].map_is_selection(side, (#[trigger] m[t])@),
    ensures
        g.train_inputs(side, m, k) == g.fit_inputs(side, k),
    decreases k,
{
    if k > 0 {
        lemma_selection_inputs(g, fd, side, m, k - 1);
        let l = g.layers_seq()[k - 1];
        let mm = m[(k - 1) as usize]@;
        let prev = g.fit_inputs(side, k - 1);
        assert(l.wf(fd));
        assert(l.map_is_selection(side, mm));
        assert forall|i: int| 0 <= i < l.num() implies layer_probs(l, mm, prev)[i]
            == layer_probs_sel(l, side, prev)[i] by {
            assert((i as usize) as int == i);
            assert((mm[i as usize] as int) == l.selected_ctx((i as usize) as int, side));
        }
        assert(layer_probs(l, mm, prev) =~= layer_probs_sel(l, side, prev));
    }
}

/// Law: gate selection, and with it the whole forward pass, is deterministic.
/// Two predictions on the same network state and the same feature values pin
/// the same probability, because each is pinned to the same function of state
/// and features.
pub proof fn lemma_predict_deterministic(g: GLN, features: Seq<int>, p1: int, p2: int)
    requires
        p1 == sigmoid_val(g.forward_upto(features, g.num())[0]),
        p2 == sigmoid_val(g.forward_upto(features, g.num())[0]),
    ensures
        p1 == p2,
{
}

} // verus!
