use gln::model::context_func::{ContextFunction, HalfSpaceContext};
use gln::model::gate::{initialize_balanced_weights, Gate};
use gln::model::layer::BaseLayer;
use gln::model::neuron::Neuron;
use gln::optimize::grad::{LogGeometricMixingGradient, OnlineGradient};
use gln::optimize::optimizer::OnlineGradientDecent;
use gln::utils::math::{Fx, FX_SCALE};

const SCALE: i64 = FX_SCALE as i64;

fn fx(n: i64, d: i64) -> Fx {
    Fx::from_ratio(n, d)
}

fn raws(v: &Vec<Fx>) -> Vec<i64> {
    v.iter().map(|x| x.raw()).collect()
}

#[test]
fn test_new_half_space_context() {
    let _half_space_context = HalfSpaceContext::new(2, 3);
}

#[test]
fn test_half_space_indicator_func() {
    let side_info = vec![fx(12, 10), fx(15, 10), fx(9, 10)];
    let context_dim = 4;
    let feature_dim = 3;
    let half_space_context = HalfSpaceContext::new(context_dim, feature_dim);
    let actual = half_space_context.indicator_func(&side_info);
    assert_eq!(actual.len(), context_dim);
    // The same features always produce the same signature.
    let again = half_space_context.indicator_func(&side_info);
    assert_eq!(actual, again);
}

#[test]
fn test_transform_bits_to_weight_indicator() {
    // Bit 0 + bit 2 + bit 3 = 1 + 4 + 8 = 13.
    let contexts = vec![true, false, true, true];
    let actual = Gate::<HalfSpaceContext>::transform_contexts_to_weight_indicator(contexts);
    assert_eq!(actual, 13);
}

#[test]
fn test_initialize_balanced_weights() {
    let actual = initialize_balanced_weights(2, 2);
    assert_eq!(actual.len(), 4);
    for row in &actual {
        assert_eq!(raws(row), vec![SCALE / 2, SCALE / 2]);
    }
}

#[test]
fn test_fresh_gate_selects_balanced_weights() {
    // A freshly built gate returns the balanced vector whatever the input.
    let gate = Gate::<HalfSpaceContext>::new(2, 3, 10, initialize_balanced_weights);
    let side_info = vec![
        fx(1, 10),
        fx(2, 10),
        fx(2, 10),
        fx(9, 10),
        fx(-3, 10),
        fx(0, 1),
        fx(14, 10),
        fx(5, 10),
        fx(6, 10),
        fx(7, 10),
    ];
    let (weights, index) = gate.select_weights(&side_info);
    assert!(index < 8);
    assert_eq!(raws(&weights), vec![SCALE / 2, SCALE / 2]);
}

#[test]
fn test_gate_update_weights() {
    let mut gate = Gate::<HalfSpaceContext>::new(2, 3, 10, initialize_balanced_weights);
    gate.update_weights(0, vec![fx(2, 10), fx(1, 10)]);
    let actual = gate.get_weights(0);
    assert_eq!(raws(&actual), vec![fx(2, 10).raw(), fx(1, 10).raw()]);
    // Every other context keeps its balanced vector.
    for context_index in 1..8 {
        assert_eq!(raws(&gate.get_weights(context_index)), vec![SCALE / 2, SCALE / 2]);
    }
}

#[test]
fn test_optimizer_update() {
    let optimizer = OnlineGradientDecent::new(fx(1, 10));
    // 0.5 - 0.1 * 0.25 = 0.475: the rate truncates to 1677721 raw units, the
    // product to 419430, so the step lands exactly here.
    let actual = optimizer.update(fx(1, 2), fx(1, 4));
    assert_eq!(actual.raw(), 8388608 - 419430);
}

#[test]
fn test_log_geometric_mixing_gradient() {
    let negative_weight = Fx::from_int(1);
    let reg_param = fx(1, 10);
    let grad = LogGeometricMixingGradient::new(reg_param, negative_weight);
    let xs = vec![fx(1, 10), fx(4, 10), fx(6, 10)];
    let target = 1;
    let weights = vec![fx(2, 10), fx(16, 10), fx(7, 10)];
    let index: usize = 1;
    let clipping_value = fx(1, 1000);
    let actual = grad.calculate_grad(&xs, target, &weights, index, clipping_value).raw();
    let expected = (0.44013876 * SCALE as f64) as i64;
    assert!((actual - expected).abs() <= 20000, "gradient = {actual}");
}

#[test]
fn test_neuron_update_touches_only_active_context() {
    let mut neuron = Neuron::<HalfSpaceContext>::with_half_space_context(
        3,
        2,
        3,
        fx(1, 10),
        Fx::from_int(5),
        Fx::from_int(1),
        Fx::zero(),
    );
    let features = vec![fx(14, 10), fx(13, 10), fx(24, 10)];
    let inputs = vec![fx(8, 10), fx(4, 10), fx(5, 10)];
    let (_weights, active) = neuron.get_current_weights(&features);
    let other = (active + 1) % 4;
    let before_active = neuron.predict_by_context_index(active, &inputs).raw();
    let before_other = neuron.predict_by_context_index(other, &inputs).raw();
    neuron.update_weights(&inputs, 1, active);
    let after_active = neuron.predict_by_context_index(active, &inputs).raw();
    let after_other = neuron.predict_by_context_index(other, &inputs).raw();
    assert_ne!(before_active, after_active);
    assert_eq!(before_other, after_other);
}

#[test]
fn test_base_layer_predifct() {
    let features = vec![Fx::from_int(1), Fx::from_int(5), Fx::from_int(4), Fx::from_int(4)];
    let epsilon = fx(1, 100);
    let base_layer = BaseLayer::new(epsilon, features.len());
    let actual = base_layer.predict(&features);

    let expected = vec![
        epsilon.raw(),
        SCALE - epsilon.raw(),
        3 * SCALE / 4,
        3 * SCALE / 4,
    ];
    assert_eq!(raws(&actual), expected);
}

#[test]
fn test_predict_with_logit_all_zero() {
    let features = vec![Fx::zero(), Fx::zero(), Fx::zero(), Fx::zero()];
    let base_layer = BaseLayer::new(fx(1, 100), features.len());

    let actual = base_layer.predict_with_logits(&features);

    assert!(actual.context_index_map.is_none());
    let logits = raws(&actual.predictions);
    let expected = (-4.59512 * SCALE as f64) as i64;
    for &value in &logits {
        assert!((value - expected).abs() <= 9000, "logit = {value}");
        assert_eq!(value, logits[0]);
    }
}
