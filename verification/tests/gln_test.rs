use gln::model::gln_model;
use gln::utils::math::{Fx, FX_SCALE};
use std::collections::HashMap;

const SCALE: i64 = FX_SCALE as i64;

fn fx(n: i64, d: i64) -> Fx {
    Fx::from_ratio(n, d)
}

fn new_gln(neuron_nums: Vec<usize>, context_dim: usize, feature_dim: usize) -> gln_model::GLN {
    let learning_rate = fx(1, 10);
    let weight_clipping_value = Fx::from_int(5);
    let negative_weight = Fx::from_int(1);
    let reg_param = Fx::zero();
    gln_model::GLN::new(
        neuron_nums,
        context_dim,
        feature_dim,
        learning_rate,
        weight_clipping_value,
        negative_weight,
        reg_param,
    )
}

fn assert_losses_near_ln2(loss_histories: &HashMap<usize, HashMap<usize, Fx>>, sizes: &[usize]) {
    let ln2 = (0.6931472 * SCALE as f64) as i64;
    assert_eq!(loss_histories.len(), sizes.len());
    for (layer_id, size) in sizes.iter().enumerate() {
        let layer_losses = &loss_histories[&layer_id];
        assert_eq!(layer_losses.len(), *size);
        for neuron_id in 0..*size {
            let loss = layer_losses[&neuron_id].raw();
            assert!((loss - ln2).abs() <= 20000, "loss = {loss}");
        }
    }
}

#[test]
fn test_gln_predict() {
    let neuron_nums = vec![3, 2, 1];
    let context_dim = 5;
    let feature_dim = 3;

    let feature_vec = vec![fx(2, 10), fx(3, 10), fx(1, 10)];

    let gln = new_gln(neuron_nums, context_dim, feature_dim);
    let pred = gln.predict(&feature_vec);

    // Balanced initial weights give a probability at one half, up to the
    // arithmetic's resolution.
    let probability = pred.probability.raw();
    assert!(
        (probability - SCALE / 2).abs() <= SCALE / 1000,
        "probability = {probability}"
    );
}

#[test]
fn test_gln_train() {
    let neuron_nums = vec![3, 2, 1];
    let context_dim = 5;
    let feature_dim = 3;

    let feature_vec = vec![fx(2, 10), fx(3, 10), fx(1, 10)];
    let target = 1;

    let mut gln = new_gln(neuron_nums, context_dim, feature_dim);
    let pred = gln.predict(&feature_vec);
    let train_history = gln.train(&feature_vec, target, &pred.context_index_map);

    // Every neuron predicted near one half, so every loss is near ln(2).
    assert_losses_near_ln2(&train_history.loss_histories, &[3, 2, 1]);
}

#[test]
fn test_gln_predict_fit() {
    let neuron_nums = vec![3, 2, 1];
    let context_dim = 5;
    let feature_dim = 3;

    let feature_vec = vec![fx(2, 10), fx(3, 10), fx(1, 10)];
    let target = 1;

    let mut gln = new_gln(neuron_nums, context_dim, feature_dim);
    let predict_fit_result = gln.predict_fit(&feature_vec, target);

    assert_losses_near_ln2(&predict_fit_result.loss_histories, &[3, 2, 1]);
    let prediction = predict_fit_result.prediction.raw();
    assert!(
        (prediction - SCALE / 2).abs() <= SCALE / 1000,
        "prediction = {prediction}"
    );
}

#[test]
fn test_gln_predict_with_zero_vector() {
    let neuron_nums = vec![20, 20, 20, 1];
    let context_dim = 5;
    let feature_dim = 52;

    let feature_vec: Vec<Fx> = (0..52).map(|_| Fx::zero()).collect();

    let label = 0;

    let mut gln = new_gln(neuron_nums, context_dim, feature_dim);

    for _ in 0..2 {
        let pred = gln.predict(&feature_vec);
        _ = gln.train(&feature_vec, label, &pred.context_index_map);

        println!("prediction: {:?}", pred.probability.raw());
    }
}

#[test]
fn test_gln_predict_deterministic() {
    // Two predictions on the same untrained network and the same features
    // return the same probability and the same context maps.
    let gln = new_gln(vec![4, 2, 1], 3, 5);
    let feature_vec = vec![fx(2, 10), fx(-7, 10), fx(0, 1), fx(31, 10), fx(5, 10)];

    let first = gln.predict(&feature_vec);
    let second = gln.predict(&feature_vec);

    assert_eq!(first.probability.raw(), second.probability.raw());
    assert_eq!(first.context_index_map, second.context_index_map);
}

#[test]
fn test_gln_train_moves_prediction_toward_target() {
    // Repeated training on one example pulls the prediction toward the label.
    let feature_vec = vec![fx(2, 10), fx(3, 10), fx(1, 10)];
    let mut gln = new_gln(vec![3, 2, 1], 4, 3);
    let before = gln.predict(&feature_vec).probability.raw();
    for _ in 0..20 {
        let pred = gln.predict(&feature_vec);
        _ = gln.train(&feature_vec, 1, &pred.context_index_map);
    }
    let after = gln.predict(&feature_vec).probability.raw();
    assert!(after > before, "before = {before}, after = {after}");
    assert!(after > 3 * SCALE / 4, "after = {after}");
}
