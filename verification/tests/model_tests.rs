use prime_net::activation::ScalarOp;
use prime_net::layer::{ActivationLayer, DenseLayer, LayerEnum};
use prime_net::matrix::Matrix;
use prime_net::model::{Model, WeightError};

fn bits(rows: Vec<Vec<f32>>) -> Vec<Vec<u32>> {
    rows.into_iter().map(|r| r.into_iter().map(|v| v.to_bits()).collect()).collect()
}

fn val(m: &Matrix, i: usize, j: usize) -> f32 {
    f32::from_bits(m.get(i, j))
}

fn two_layer_model() -> Model {
    let mut model = Model::new();
    let mut dense = DenseLayer::new(2, 2);
    dense.set_weights(Matrix::from_vec(bits(vec![vec![1.0, 0.0], vec![0.0, 1.0]])));
    dense.set_biases(Matrix::from_vec(bits(vec![vec![0.0, 0.0]])));
    model.add_layer(LayerEnum::Dense(dense));
    model.add_layer(LayerEnum::Activation(ActivationLayer::new(ScalarOp::Sigmoid)));
    model
}

#[test]
fn test_model_forward_pass() {
    let mut model = two_layer_model();

    let input = Matrix::from_vec(bits(vec![vec![0.0, 2.0]]));
    let output = model.forward(&input);

    assert!((val(&output, 0, 0) - 0.5).abs() < 1e-5);
    assert!(val(&output, 0, 1) > 0.85); // sigmoid(2)
}

#[test]
fn forward_verbose_records_every_step() {
    let mut model = two_layer_model();
    let input = Matrix::from_vec(bits(vec![vec![0.0, 2.0]]));
    let (output, trace) = model.forward_verbose(&input);
    assert_eq!(trace.len(), 3);
    assert_eq!(trace[0].get(0, 1), 2.0f32.to_bits());
    assert_eq!(trace[1].get(0, 1), 2.0f32.to_bits());
    assert_eq!(trace[2].get(0, 0), output.get(0, 0));
}

#[test]
fn pipe_width_checks_the_layer_chain() {
    let model = two_layer_model();
    assert_eq!(model.pipe_width(2), Some(2));
    assert_eq!(model.pipe_width(3), None);
}

#[test]
fn get_and_set_weight_roundtrip() {
    let mut model = two_layer_model();
    assert_eq!(model.get_weight(0, 1, 0), Ok(0.0f32.to_bits()));
    assert_eq!(model.set_weight(0, 1, 0, 7.5f32.to_bits()), Ok(()));
    assert_eq!(model.get_weight(0, 1, 0), Ok(7.5f32.to_bits()));
}

#[test]
fn weight_access_reports_each_fault() {
    let mut model = two_layer_model();
    assert_eq!(model.get_weight(5, 0, 0), Err(WeightError::OutOfRange));
    assert_eq!(model.get_weight(1, 0, 0), Err(WeightError::NoParameters));
    assert_eq!(model.get_weight(0, 2, 0), Err(WeightError::OutOfRange));
    assert_eq!(model.get_weight(0, 0, 2), Err(WeightError::OutOfRange));
    assert_eq!(model.set_weight(5, 0, 0, 0), Err(WeightError::OutOfRange));
    assert_eq!(model.set_weight(1, 0, 0, 0), Err(WeightError::NoParameters));
    assert_eq!(model.set_weight(0, 0, 2, 0), Err(WeightError::OutOfRange));
    // a failed write moves nothing
    assert_eq!(model.get_weight(0, 0, 0), Ok(1.0f32.to_bits()));
}

#[test]
fn zero_all_weights_clears_every_dense_cell() {
    let mut model = two_layer_model();
    model.zero_all_weights();
    assert_eq!(model.get_weight(0, 0, 0), Ok(0.0f32.to_bits()));
    assert_eq!(model.get_weight(0, 1, 1), Ok(0.0f32.to_bits()));
}

#[test]
fn randomize_all_weights_redraws_into_the_unit_range() {
    let mut model = two_layer_model();
    // push a weight far outside the range; the redraw must replace it
    model.set_weight(0, 0, 0, 7.5f32.to_bits()).unwrap();
    model.randomize_all_weights();
    assert_eq!(model.len(), 2);
    for i in 0..2 {
        for j in 0..2 {
            let v = f32::from_bits(model.get_weight(0, i, j).unwrap());
            assert!((-1.0..1.0).contains(&v), "weight {} out of range", v);
        }
    }
}

#[test]
fn layers_exposes_the_sequence() {
    let model = two_layer_model();
    let layers = model.layers();
    assert_eq!(layers.len(), 2);
    assert!(matches!(layers[0], LayerEnum::Dense(_)));
    assert!(matches!(layers[1], LayerEnum::Activation(_)));
}
