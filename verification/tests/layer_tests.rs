use prime_net::activation::ScalarOp;
use prime_net::layer::{ActivationLayer, DenseLayer};
use prime_net::matrix::Matrix;

fn bits(rows: Vec<Vec<f32>>) -> Vec<Vec<u32>> {
    rows.into_iter().map(|r| r.into_iter().map(|v| v.to_bits()).collect()).collect()
}

fn val(m: &Matrix, i: usize, j: usize) -> f32 {
    f32::from_bits(m.get(i, j))
}

#[test]
fn test_dense_layer_creation() {
    let layer = DenseLayer::new(10, 16);
    assert_eq!(layer.weights.rows(), 10);
    assert_eq!(layer.weights.cols(), 16);
    assert_eq!(layer.biases.rows(), 1);
    assert_eq!(layer.biases.cols(), 16);
}

#[test]
fn test_forward_no_activation() {
    let input = Matrix::from_vec(bits(vec![vec![1.0, 2.0]]));
    let weights = Matrix::from_vec(bits(vec![vec![1.0, 0.0], vec![0.0, 1.0]]));
    let biases = Matrix::from_vec(bits(vec![vec![0.5, -0.5]]));

    let mut layer = DenseLayer::new(2, 2);
    layer.set_weights(weights);
    layer.set_biases(biases);

    let output = layer.forward(&input);
    assert_eq!(val(&output, 0, 0), 1.5);
    assert_eq!(val(&output, 0, 1), 1.5);
}

#[test]
fn test_activation_layer_sigmoid() {
    let input = Matrix::from_vec(bits(vec![vec![0.0, 2.0], vec![-2.0, 1.0]]));
    let mut layer = ActivationLayer::new(ScalarOp::Sigmoid);
    let output = layer.forward(&input);

    assert!((val(&output, 0, 0) - 0.5).abs() < 1e-5);
    assert!(val(&output, 0, 1) > 0.85);
    assert!(val(&output, 1, 0) < 0.2);
}

#[test]
fn test_dense_layer_backward_shapes() {
    let mut layer = DenseLayer::new(2, 3);
    let input = Matrix::from_vec(bits(vec![vec![1.0, 2.0]]));
    let grad_output = Matrix::from_vec(bits(vec![vec![0.1, 0.2, 0.3]]));
    let grad_input = layer.backward(&input, &grad_output);

    assert_eq!(grad_input.rows(), 1);
    assert_eq!(grad_input.cols(), 2);

    let gw = layer.grad_weights.as_ref().unwrap();
    let gb = layer.grad_biases.as_ref().unwrap();

    assert_eq!(gw.rows(), 2);
    assert_eq!(gw.cols(), 3);
    assert_eq!(gb.rows(), 1);
    assert_eq!(gb.cols(), 3);
}

#[test]
fn dense_backward_computes_the_gradients() {
    // One sample through a 1-by-1 layer keeps every product small and exact.
    let mut layer = DenseLayer::new(1, 1);
    layer.set_weights(Matrix::from_vec(bits(vec![vec![3.0]])));
    layer.set_biases(Matrix::from_vec(bits(vec![vec![0.0]])));
    let input = Matrix::from_vec(bits(vec![vec![2.0]]));
    let grad_output = Matrix::from_vec(bits(vec![vec![5.0]]));
    let grad_input = layer.backward(&input, &grad_output);

    // grad_weights = input^T . grad_output = 10; grad_biases = 5;
    // grad_input = grad_output . weights^T = 15.
    assert_eq!(val(layer.grad_weights.as_ref().unwrap(), 0, 0), 10.0);
    assert_eq!(val(layer.grad_biases.as_ref().unwrap(), 0, 0), 5.0);
    assert_eq!(val(&grad_input, 0, 0), 15.0);
}

#[test]
fn dense_update_moves_against_the_gradient() {
    let mut layer = DenseLayer::new(1, 1);
    layer.set_weights(Matrix::from_vec(bits(vec![vec![1.0]])));
    layer.set_biases(Matrix::from_vec(bits(vec![vec![0.5]])));
    let input = Matrix::from_vec(bits(vec![vec![2.0]]));
    let grad_output = Matrix::from_vec(bits(vec![vec![1.0]]));
    layer.backward(&input, &grad_output);
    layer.update(0.1f32.to_bits());

    let expected_w = 1.0f32 + (-0.1f32 * 2.0f32);
    let expected_b = 0.5f32 + (-0.1f32 * 1.0f32);
    assert_eq!(val(&layer.weights, 0, 0), expected_w);
    assert_eq!(val(&layer.biases, 0, 0), expected_b);
    // the update consumes the caches, returning the layer to fresh
    assert!(layer.last_input.is_none());
    assert!(layer.grad_weights.is_none());
    assert!(layer.grad_biases.is_none());
}

#[test]
fn new_layer_weights_lie_in_the_unit_range() {
    let layer = DenseLayer::new(4, 5);
    for i in 0..4 {
        for j in 0..5 {
            let w = f32::from_bits(layer.weights.get(i, j));
            assert!((-1.0..1.0).contains(&w), "weight {} out of range", w);
        }
    }
}

#[test]
fn activation_backward_uses_the_cached_output() {
    let mut layer = ActivationLayer::new(ScalarOp::Sigmoid);
    let input = Matrix::from_vec(bits(vec![vec![0.0]]));
    let out = layer.forward(&input);
    let y = val(&out, 0, 0);
    let grad_output = Matrix::from_vec(bits(vec![vec![2.0]]));
    let grad_input = layer.backward(&input, &grad_output);
    let expected = 2.0f32 * (y * (1.0f32 - y));
    assert_eq!(val(&grad_input, 0, 0), expected);
}
