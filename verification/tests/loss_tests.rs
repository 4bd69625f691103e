use prime_net::loss::mean_squared_error;
use prime_net::matrix::Matrix;

fn bits(rows: Vec<Vec<f32>>) -> Vec<Vec<u32>> {
    rows.into_iter().map(|r| r.into_iter().map(|v| v.to_bits()).collect()).collect()
}

#[test]
fn test_mse() {
    let predicted = Matrix::from_vec(bits(vec![vec![0.1], vec![0.9]]));
    let target = Matrix::from_vec(bits(vec![vec![0.0], vec![1.0]]));
    let loss = f32::from_bits(mean_squared_error(&predicted, &target));
    assert!((loss - 0.01).abs() < 1e-5);
}

#[test]
fn mse_of_equal_matrices_is_zero() {
    let m = Matrix::from_vec(bits(vec![vec![0.5, -1.5], vec![2.0, 0.0]]));
    let loss = f32::from_bits(mean_squared_error(&m, &m));
    assert_eq!(loss, 0.0);
}

#[test]
fn mse_averages_over_every_cell() {
    let predicted = Matrix::from_vec(bits(vec![vec![1.0, 2.0], vec![3.0, 4.0]]));
    let target = Matrix::from_vec(bits(vec![vec![0.0, 0.0], vec![0.0, 0.0]]));
    let loss = f32::from_bits(mean_squared_error(&predicted, &target));
    // (1 + 4 + 9 + 16) / 4
    assert_eq!(loss, 7.5);
}
