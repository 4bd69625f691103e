use prime_net::activation::ScalarOp;
use prime_net::matrix::Matrix;

fn bits(rows: Vec<Vec<f32>>) -> Vec<Vec<u32>> {
    rows.into_iter().map(|r| r.into_iter().map(|v| v.to_bits()).collect()).collect()
}

fn val(m: &Matrix, i: usize, j: usize) -> f32 {
    f32::from_bits(m.get(i, j))
}

#[test]
fn test_matrix_new_and_get_set() {
    let mut m = Matrix::new(2, 3);
    assert_eq!(val(&m, 0, 0), 0.0);
    m.set(0, 1, 1.5f32.to_bits());
    assert_eq!(val(&m, 0, 1), 1.5);
    m.set(1, 2, (-2.0f32).to_bits());
    assert_eq!(val(&m, 1, 2), -2.0);
}

#[test]
fn test_matrix_from_vec() {
    let data = bits(vec![vec![1.0, 2.0, 3.0], vec![4.0, 5.0, 6.0]]);
    let m = Matrix::from_vec(data);
    assert_eq!(val(&m, 0, 0), 1.0);
    assert_eq!(val(&m, 1, 2), 6.0);
    assert_eq!(m.rows(), 2);
    assert_eq!(m.cols(), 3);
}

#[test]
fn test_matrix_add() {
    let a = Matrix::from_vec(bits(vec![vec![1.0, 2.0], vec![3.0, 4.0]]));

    let b = Matrix::from_vec(bits(vec![vec![5.0, 6.0], vec![7.0, 8.0]]));

    let result = a.add(&b);

    assert_eq!(val(&result, 0, 0), 6.0);
    assert_eq!(val(&result, 1, 1), 12.0);
}

#[test]
fn test_matrix_dot() {
    let a = Matrix::from_vec(bits(vec![vec![1.0, 2.0], vec![3.0, 4.0]]));

    let b = Matrix::from_vec(bits(vec![vec![5.0, 6.0], vec![7.0, 8.0]]));

    // Expected:
    // [1*5 + 2*7, 1*6 + 2*8] = [19, 22]
    // [3*5 + 4*7, 3*6 + 4*8] = [43, 50]
    let result = a.dot(&b);

    assert_eq!(val(&result, 0, 0), 19.0);
    assert_eq!(val(&result, 0, 1), 22.0);
    assert_eq!(val(&result, 1, 0), 43.0);
    assert_eq!(val(&result, 1, 1), 50.0);
}

#[test]
fn test_matrix_map() {
    let m = Matrix::from_vec(bits(vec![vec![-1.0, 0.0], vec![1.0, 2.0]]));

    let result = m.map(ScalarOp::Square); // square all elements

    assert_eq!(val(&result, 0, 0), 1.0);
    assert_eq!(val(&result, 0, 1), 0.0);
    assert_eq!(val(&result, 1, 0), 1.0);
    assert_eq!(val(&result, 1, 1), 4.0);
}

#[test]
fn transpose_swaps_shape_and_cells() {
    let m = Matrix::from_vec(bits(vec![vec![1.0, 2.0, 3.0], vec![4.0, 5.0, 6.0]]));
    let t = m.transpose();
    assert_eq!(t.rows(), 3);
    assert_eq!(t.cols(), 2);
    assert_eq!(val(&t, 0, 1), 4.0);
    assert_eq!(val(&t, 2, 0), 3.0);
}

#[test]
fn transpose_twice_gives_the_matrix_back() {
    let m = Matrix::from_vec(bits(vec![vec![1.0, 2.0, 3.0], vec![4.0, 5.0, 6.0]]));
    let tt = m.transpose().transpose();
    assert_eq!(tt.rows(), m.rows());
    assert_eq!(tt.cols(), m.cols());
    for i in 0..2 {
        for j in 0..3 {
            assert_eq!(tt.get(i, j), m.get(i, j));
        }
    }
}

#[test]
fn map_identity_gives_the_matrix_back() {
    let m = Matrix::from_vec(bits(vec![vec![-1.5, 0.0], vec![7.25, 2.0]]));
    let r = m.map(ScalarOp::Identity);
    assert_eq!(r.rows(), m.rows());
    assert_eq!(r.cols(), m.cols());
    for i in 0..2 {
        for j in 0..2 {
            assert_eq!(r.get(i, j), m.get(i, j));
        }
    }
}

#[test]
fn sum_rows_adds_each_column() {
    let m = Matrix::from_vec(bits(vec![vec![1.0, 2.0], vec![3.0, 4.0], vec![5.0, 6.0]]));
    let s = m.sum_rows();
    assert_eq!(s.rows(), 1);
    assert_eq!(s.cols(), 2);
    assert_eq!(val(&s, 0, 0), 9.0);
    assert_eq!(val(&s, 0, 1), 12.0);
}

#[test]
fn row_and_data_expose_the_store() {
    let m = Matrix::from_vec(bits(vec![vec![1.0, 2.0], vec![3.0, 4.0]]));
    let r = m.row(1);
    assert_eq!(f32::from_bits(r[0]), 3.0);
    assert_eq!(f32::from_bits(r[1]), 4.0);
    let d = m.data();
    assert_eq!(d.len(), 2);
    assert_eq!(f32::from_bits(d[0][1]), 2.0);
}

#[test]
fn map_neg_flips_signs() {
    let m = Matrix::from_vec(bits(vec![vec![1.0, -2.0]]));
    let r = m.map(ScalarOp::Neg);
    assert_eq!(val(&r, 0, 0), -1.0);
    assert_eq!(val(&r, 0, 1), 2.0);
}

#[test]
fn map_scale_multiplies_by_the_constant() {
    let m = Matrix::from_vec(bits(vec![vec![1.0, -2.0]]));
    let r = m.map(ScalarOp::Scale(2.0f32.to_bits()));
    assert_eq!(val(&r, 0, 0), 2.0);
    assert_eq!(val(&r, 0, 1), -4.0);
}

#[test]
fn map_rows_broadcasts_a_row() {
    let m = Matrix::from_vec(bits(vec![vec![1.0, 2.0], vec![3.0, 4.0]]));
    let row = Matrix::from_vec(bits(vec![vec![0.5, -0.5]]));
    let r = m.map_rows(&row);
    assert_eq!(val(&r, 0, 0), 1.5);
    assert_eq!(val(&r, 0, 1), 1.5);
    assert_eq!(val(&r, 1, 0), 3.5);
    assert_eq!(val(&r, 1, 1), 3.5);
}
