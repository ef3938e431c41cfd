use neural_net::activations::ReLU;
use neural_net::matrix::Matrix;

#[test]
fn test_zeros() {
    let m = Matrix::<f32>::zeros(2, 3);
    assert_eq!(m.shape(), (2, 3));
    assert_eq!(m.as_slice(), &[0.0, 0.0, 0.0, 0.0, 0.0, 0.0]);
}

#[test]
fn test_ones() {
    let m = Matrix::<f32>::ones(2, 2);
    assert_eq!(m.shape(), (2, 2));
    assert_eq!(m.as_slice(), &[1.0, 1.0, 1.0, 1.0]);
}

#[test]
fn test_from_vec() {
    let m = Matrix::<f32>::from_vec(2, 2, vec![1.0, 2.0, 3.0, 4.0]);
    assert_eq!(m.shape(), (2, 2));
    assert_eq!(m.get(0, 0), 1.0);
    assert_eq!(m.get(1, 1), 4.0);
}

#[test]
fn test_from_array() {
    let m = Matrix::<f32>::from_array([[1.0, 2.0, 3.0], [4.0, 5.0, 6.0]]);
    assert_eq!(m.shape(), (2, 3));
    assert_eq!(m.get(0, 2), 3.0);
    assert_eq!(m.get(1, 0), 4.0);
}

#[test]
fn test_get_set() {
    let mut m = Matrix::<f32>::zeros(2, 2);
    m.set(0, 1, 5.0);
    assert_eq!(m.get(0, 1), 5.0);
    assert_eq!(m.get(1, 0), 0.0);
}

#[test]
fn test_shape() {
    let m = Matrix::<f32>::zeros(3, 5);
    assert_eq!(m.shape(), (3, 5));
}

#[test]
fn test_as_slice() {
    let m = Matrix::<f32>::from_vec(1, 3, vec![1.0, 2.0, 3.0]);
    assert_eq!(m.as_slice(), &[1.0, 2.0, 3.0]);
}

#[test]
fn test_add() {
    let a = Matrix::<f32>::from_vec(2, 2, vec![1.0, 2.0, 3.0, 4.0]);
    let b = Matrix::<f32>::from_vec(2, 2, vec![5.0, 6.0, 7.0, 8.0]);
    let result = &a + &b;
    assert_eq!(result.shape(), (2, 2));
    assert_eq!(result.as_slice(), &[6.0, 8.0, 10.0, 12.0]);
}

#[test]
fn test_sub() {
    let a = Matrix::<f32>::from_vec(2, 2, vec![5.0, 6.0, 7.0, 8.0]);
    let b = Matrix::<f32>::from_vec(2, 2, vec![1.0, 2.0, 3.0, 4.0]);
    let result = &a - &b;
    assert_eq!(result.shape(), (2, 2));
    assert_eq!(result.as_slice(), &[4.0, 4.0, 4.0, 4.0]);
}

#[test]
fn test_matmul() {
    let a = Matrix::<f32>::from_vec(2, 3, vec![1.0, 2.0, 3.0, 4.0, 5.0, 6.0]);
    let b = Matrix::<f32>::from_vec(3, 2, vec![7.0, 8.0, 9.0, 10.0, 11.0, 12.0]);
    let result = &a * &b;
    assert_eq!(result.shape(), (2, 2));
    assert_eq!(result.get(0, 0), 1.0 * 7.0 + 2.0 * 9.0 + 3.0 * 11.0);
    assert_eq!(result.get(0, 1), 1.0 * 8.0 + 2.0 * 10.0 + 3.0 * 12.0);
    assert_eq!(result.get(1, 0), 4.0 * 7.0 + 5.0 * 9.0 + 6.0 * 11.0);
    assert_eq!(result.get(1, 1), 4.0 * 8.0 + 5.0 * 10.0 + 6.0 * 12.0);
}

#[test]
fn test_matmul_identity() {
    let a = Matrix::<f32>::from_vec(2, 2, vec![3.0, 5.0, 7.0, 9.0]);
    let identity = Matrix::<f32>::from_vec(2, 2, vec![1.0, 0.0, 0.0, 1.0]);
    let result = &a * &identity;
    assert_eq!(result.as_slice(), a.as_slice());
}

#[test]
fn test_transpose() {
    let m = Matrix::<f32>::from_vec(2, 3, vec![1.0, 2.0, 3.0, 4.0, 5.0, 6.0]);
    let t = m.transpose();
    assert_eq!(t.shape(), (3, 2));
    assert_eq!(t.get(0, 0), 1.0);
    assert_eq!(t.get(0, 1), 4.0);
    assert_eq!(t.get(1, 0), 2.0);
    assert_eq!(t.get(2, 1), 6.0);
}

#[test]
fn test_transpose_twice_is_identity() {
    let m = Matrix::<f32>::from_vec(2, 3, vec![1.0, 2.0, 3.0, 4.0, 5.0, 6.0]);
    let tt = m.transpose().transpose();
    assert_eq!(tt.shape(), m.shape());
    assert_eq!(tt.as_slice(), m.as_slice());
}

#[test]
fn test_hadamard() {
    let a = Matrix::<f32>::from_vec(2, 2, vec![1.0, 2.0, 3.0, 4.0]);
    let b = Matrix::<f32>::from_vec(2, 2, vec![2.0, 2.0, 2.0, 2.0]);
    let result = a.hadamard(&b);
    assert_eq!(result.shape(), (2, 2));
    assert_eq!(result.as_slice(), &[2.0, 4.0, 6.0, 8.0]);
}

#[test]
fn test_scalar_mul() {
    let a = Matrix::<f32>::from_vec(2, 2, vec![1.0, 2.0, 3.0, 4.0]);
    let result = &a * 2.0;
    assert_eq!(result.shape(), (2, 2));
    assert_eq!(result.as_slice(), &[2.0, 4.0, 6.0, 8.0]);
}

#[test]
fn test_scalar_mul_by_zero() {
    let a = Matrix::<f32>::from_vec(2, 2, vec![1.0, 2.0, 3.0, 4.0]);
    let result = &a * 0.0;
    assert_eq!(result.as_slice(), &[0.0, 0.0, 0.0, 0.0]);
}

#[test]
fn test_scalar_mul_by_negative() {
    let a = Matrix::<f32>::from_vec(2, 2, vec![1.0, -2.0, 3.0, -4.0]);
    let result = &a * -1.0;
    assert_eq!(result.as_slice(), &[-1.0, 2.0, -3.0, 4.0]);
}

#[test]
fn relu_forward_hand_calculated() {
    let input = Matrix::<f32>::from_vec(1, 3, vec![-2.0, 0.0, 3.0]);
    let expected = Matrix::<f32>::from_vec(1, 3, vec![0.0, 0.0, 3.0]);

    let result = ReLU.forward(&input);

    assert_eq!(result, expected);
}

#[test]
fn relu_backward_hand_calculated() {
    let input = Matrix::<f32>::from_vec(1, 3, vec![-2.0, 0.0, 3.0]);
    let expected = Matrix::<f32>::from_vec(1, 3, vec![0.0, 0.0, 1.0]);

    let result = ReLU.backward(&input);

    assert_eq!(result, expected);
}

// ---- further cases ----

#[test]
fn integer_matrix_product_is_exact() {
    let a = Matrix::<i64>::from_vec(2, 2, vec![1, 2, 3, 4]);
    let b = Matrix::<i64>::from_vec(2, 2, vec![5, 6, 7, 8]);
    let p = &a * &b;
    assert_eq!(p.as_slice(), &[19, 22, 43, 50]);
}

#[test]
fn matmul_with_empty_inner_dimension_is_zero() {
    let a = Matrix::<i32>::from_vec(2, 0, vec![]);
    let b = Matrix::<i32>::from_vec(0, 3, vec![]);
    let p = &a * &b;
    assert_eq!(p.shape(), (2, 3));
    assert_eq!(p.as_slice(), &[0, 0, 0, 0, 0, 0]);
}

#[test]
fn optimized_matmul_square_matches_product() {
    let a = Matrix::<i64>::from_vec(2, 2, vec![1, 2, 3, 4]);
    let b = Matrix::<i64>::from_vec(2, 2, vec![5, 6, 7, 8]);
    let p = a.optimized_matmul(&b);
    assert_eq!(p.as_slice(), (&a * &b).as_slice());
}

#[test]
fn optimized_matmul_pads_with_zero_columns() {
    // other is 3 x 2: columns 0 and 1 hold the product, column 2 is zero
    let a = Matrix::<i64>::from_vec(1, 2, vec![1, 2]);
    let b = Matrix::<i64>::from_vec(3, 2, vec![3, 4, 5, 6, 7, 8]);
    let p = a.optimized_matmul(&b);
    assert_eq!(p.shape(), (1, 3));
    assert_eq!(p.as_slice(), &[1 * 3 + 2 * 5, 1 * 4 + 2 * 6, 0]);
}

#[test]
fn set_changes_one_entry_only() {
    let mut m = Matrix::<u8>::filled(2, 3, 7);
    m.set(1, 2, 9);
    assert_eq!(m.as_slice(), &[7, 7, 7, 7, 7, 9]);
}

#[test]
fn column_slice_takes_middle_columns() {
    let m = Matrix::<u8>::from_vec(2, 4, vec![1, 2, 3, 4, 5, 6, 7, 8]);
    let s = m.column_slice(1, 2);
    assert_eq!(s.shape(), (2, 2));
    assert_eq!(s.as_slice(), &[2, 3, 6, 7]);
}

#[test]
fn column_slice_full_width_is_identity() {
    let m = Matrix::<u8>::from_vec(2, 3, vec![1, 2, 3, 4, 5, 6]);
    let s = m.column_slice(0, 3);
    assert_eq!(s, m);
}

#[test]
fn map_converts_entries() {
    let m = Matrix::<u8>::from_vec(1, 3, vec![0, 51, 255]);
    let f = m.map(|x| x as f32 / 255.0);
    assert_eq!(f.shape(), (1, 3));
    assert_eq!(f.as_slice(), &[0.0, 0.2, 1.0]);
}

#[test]
fn rows_and_columns() {
    let m = Matrix::<u8>::filled(4, 7, 0);
    assert_eq!(m.rows(), 4);
    assert_eq!(m.columns(), 7);
}

#[test]
fn relu_on_integers() {
    let m = Matrix::<i32>::from_vec(2, 2, vec![-5, 0, 2, 9]);
    assert_eq!(ReLU.forward(&m).as_slice(), &[0, 0, 2, 9]);
    assert_eq!(ReLU.backward(&m).as_slice(), &[0, 0, 1, 1]);
}

#[test]
fn relu_maps_nan_to_zero() {
    let m = Matrix::<f32>::from_vec(1, 1, vec![f32::NAN]);
    assert_eq!(ReLU.forward(&m).as_slice(), &[0.0]);
}

#[test]
fn integer_product_is_exact() {
    let a: Matrix<u64> = Matrix::from_vec(2, 2, vec![1, 2, 3, 4]);
    let b: Matrix<u64> = Matrix::from_vec(2, 1, vec![5, 6]);
    let m = &a * &b;
    assert_eq!(m.as_slice(), &[17, 39]);
    let c = Matrix::from_vec(2, 2, vec![5u64, 6, 7, 8]);
    assert_eq!(a.optimized_matmul(&c).as_slice(), &[19, 22, 43, 50]);
}
