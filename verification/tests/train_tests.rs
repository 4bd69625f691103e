use prime_net::activation::ScalarOp;
use prime_net::dataset::generate_dataset;
use prime_net::layer::{ActivationLayer, DenseLayer, LayerEnum};
use prime_net::matrix::Matrix;
use prime_net::model::Model;
use prime_net::train::{evaluate, input_from_bits, predicts_prime, target_from_label, train_epoch, train_step};

fn bits(rows: Vec<Vec<f32>>) -> Vec<Vec<u32>> {
    rows.into_iter().map(|r| r.into_iter().map(|v| v.to_bits()).collect()).collect()
}

fn prime_classifier() -> Model {
    let mut model = Model::new();
    model.add_layer(LayerEnum::Dense(DenseLayer::new(10, 4)));
    model.add_layer(LayerEnum::Activation(ActivationLayer::new(ScalarOp::Sigmoid)));
    model.add_layer(LayerEnum::Dense(DenseLayer::new(4, 1)));
    model.add_layer(LayerEnum::Activation(ActivationLayer::new(ScalarOp::Sigmoid)));
    model
}

#[test]
fn train_step_applies_one_gradient_descent_move() {
    let mut model = Model::new();
    let mut dense = DenseLayer::new(1, 1);
    dense.set_weights(Matrix::from_vec(bits(vec![vec![1.0]])));
    dense.set_biases(Matrix::from_vec(bits(vec![vec![0.0]])));
    model.add_layer(LayerEnum::Dense(dense));

    let input = Matrix::from_vec(bits(vec![vec![1.0]]));
    let target = Matrix::from_vec(bits(vec![vec![0.0]]));
    let loss = f32::from_bits(train_step(&mut model, &input, &target, 0.1f32.to_bits()));

    // output = 1, loss = 1, gradient = 2, weight moves to 1 - 0.1 * 2,
    // bias to 0 - 0.1 * 2.
    assert_eq!(loss, 1.0);
    let expected_w = 1.0f32 + (-0.1f32 * 2.0f32);
    let expected_b = 0.0f32 + (-0.1f32 * 2.0f32);
    assert_eq!(model.get_weight(0, 0, 0), Ok(expected_w.to_bits()));
    let out = model.forward(&Matrix::from_vec(bits(vec![vec![0.0]])));
    assert_eq!(f32::from_bits(out.get(0, 0)), expected_b);
}

#[test]
fn input_and_target_conversion() {
    let input = input_from_bits(&vec![0, 1, 0, 1, 1, 0, 0, 0, 1, 0]);
    assert_eq!(input.rows(), 1);
    assert_eq!(input.cols(), 10);
    assert_eq!(f32::from_bits(input.get(0, 0)), 0.0);
    assert_eq!(f32::from_bits(input.get(0, 1)), 1.0);
    let target = target_from_label(1);
    assert_eq!(f32::from_bits(target.get(0, 0)), 1.0);
}

#[test]
fn predictions_split_at_one_half() {
    assert!(predicts_prime(0.5f32.to_bits()));
    assert!(predicts_prime(0.9f32.to_bits()));
    assert!(!predicts_prime(0.49f32.to_bits()));
    assert!(!predicts_prime(0.0f32.to_bits()));
}

#[test]
fn evaluate_scores_every_sample() {
    let mut model = prime_classifier();
    let data = generate_dataset();
    let (correct, preds) = evaluate(&mut model, &data);
    assert_eq!(preds.len(), 1024);
    assert!(correct <= 1024);
    let agree = preds
        .iter()
        .zip(data.iter())
        .filter(|(p, (_, y))| (**p && *y == 1) || (!**p && *y == 0))
        .count();
    assert_eq!(correct, agree);
}

#[test]
fn repeated_epochs_trend_the_loss_downward() {
    let mut model = prime_classifier();
    let data = generate_dataset();
    let lr = 0.1f32.to_bits();
    let first = f32::from_bits(train_epoch(&mut model, &data, data.len(), lr)) / 1024.0;
    let mut last = first;
    for _ in 0..4 {
        last = f32::from_bits(train_epoch(&mut model, &data, data.len(), lr)) / 1024.0;
    }
    assert!(
        last < first,
        "epoch-average loss rose from {} to {}",
        first,
        last
    );
}
