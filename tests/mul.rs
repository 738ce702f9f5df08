use linalg::matrix::mul::select_strategy;
use linalg::matrix::{multiply_scalar, multiply_simd, multiply_strassen, Matrix, MatrixError, MulStrategy};

#[test]
fn test_matrix_scalar_multiplication() {
    let m = Matrix::new([[1, 2], [3, 4]]);
    let result = m.mul_scalar(2);
    assert_eq!(result.as_slice(), &[2, 4, 6, 8]);
}

#[test]
fn test_matrix_scalar_multiplication_dimensions() {
    let m = Matrix::new([[1, 2], [3, 4], [5, 6]]);
    let result = m.mul_scalar(3);
    assert_eq!(result.rows(), 3);
    assert_eq!(result.cols(), 2);
}

#[test]
fn test_matrix_multiplication() {
    let m1 = Matrix::new([[1, 2], [3, 4]]);
    let m2 = Matrix::new([[5, 6], [7, 8]]);
    let result = m1.mul(&m2).unwrap();
    assert_eq!(result.as_slice().to_vec(), vec![19, 22, 43, 50]);
}

#[test]
fn test_matrix_multiplication_dimensions() {
    let m1 = Matrix::new([[1, 2, 3], [4, 5, 6]]);
    let m2 = Matrix::new([[7, 8], [9, 10], [11, 12]]);
    let result = m1.mul(&m2).unwrap();
    assert_eq!(result.rows(), 2);
    assert_eq!(result.cols(), 2);
}

#[test]
fn matrix_multiplication_incompatible_dimensions_is_refused() {
    let m1 = Matrix::new([[1, 2], [3, 4]]);
    let m2 = Matrix::new([[5, 6, 7], [8, 9, 10], [11, 12, 13]]);
    assert_eq!(m1.mul(&m2), Err(MatrixError::IncompatibleDimensions));
}

#[test]
fn test_matrix_ref_multiplication() {
    let m1 = Matrix::new([[1, 2], [3, 4]]);
    let m2 = Matrix::new([[5, 6], [7, 8]]);
    let result = (&m1).mul(&m2).unwrap();
    assert_eq!(result.as_slice().to_vec(), vec![19, 22, 43, 50]);
}

#[test]
fn test_matrix_owned_ref_multiplication() {
    let m1 = Matrix::new([[1, 2], [3, 4]]);
    let m2 = Matrix::new([[5, 6], [7, 8]]);
    let result = m1.mul(&m2).unwrap();
    assert_eq!(result.as_slice().to_vec(), vec![19, 22, 43, 50]);
}

#[test]
fn test_matrix_ref_owned_multiplication() {
    let m1 = Matrix::new([[1, 2], [3, 4]]);
    let m2 = Matrix::new([[5, 6], [7, 8]]);
    let result = (&m1).mul(&m2).unwrap();
    assert_eq!(result.as_slice().to_vec(), vec![19, 22, 43, 50]);
}

fn patterned(size: usize) -> (Matrix<i32>, Matrix<i32>) {
    let mut m1 = Matrix::<i32>::empty(size, size);
    let mut m2 = Matrix::<i32>::empty(size, size);
    for i in 0..size {
        for j in 0..size {
            *m1.get_mut(i, j).unwrap() = (i * j % 10) as i32;
            *m2.get_mut(i, j).unwrap() = ((i + j) % 10) as i32;
        }
    }
    (m1, m2)
}

#[test]
fn test_strassen_algorithm() {
    let (m1, m2) = patterned(128);
    let result_scalar = multiply_scalar(&m1, &m2);
    let result_strassen = multiply_strassen(&m1, &m2);
    assert_eq!(result_scalar, result_strassen);
}

#[test]
fn strassen_agrees_with_the_lane_pass() {
    let (m1, m2) = patterned(256);
    let result_simd = multiply_simd(&m1, &m2);
    let result_strassen = multiply_strassen(&m1, &m2);
    assert_eq!(result_simd, result_strassen);
}

#[test]
fn all_paths_agree_on_a_small_product() {
    let a: Matrix<i64> = Matrix::new([[1, -2, 3], [4, 5, -6], [7, 8, 9]]);
    let b: Matrix<i64> = Matrix::new([[2, 0, 1], [1, 3, -1], [0, 4, 5]]);
    let reference = multiply_scalar(&a, &b);
    assert_eq!(reference, Matrix::new([[0, 6, 18], [13, -9, -31], [22, 60, 44]]));
    assert_eq!(multiply_simd(&a, &b), reference);
    assert_eq!(multiply_strassen(&a, &b), reference);
    assert_eq!(a.multiply_with(&b, true).unwrap(), reference);
    assert_eq!(a.multiply_with(&b, false).unwrap(), reference);
}

#[test]
fn lane_path_on_a_non_power_of_two_shape_agrees() {
    let m = 300;
    let k = 37;
    let n = 250;
    let a_data: Vec<u32> = (0..m * k).map(|x| (x * 7 % 13) as u32).collect();
    let b_data: Vec<u32> = (0..k * n).map(|x| (x * 5 % 11) as u32).collect();
    let a = Matrix::from_vec(m, k, a_data).unwrap();
    let b = Matrix::from_vec(k, n, b_data).unwrap();
    assert_eq!(select_strategy(m, k, k, n, true), MulStrategy::Simd);
    assert_eq!(multiply_simd(&a, &b), multiply_scalar(&a, &b));
    assert_eq!(a.mul(&b).unwrap(), multiply_scalar(&a, &b));
}

#[test]
fn multiplication_is_associative() {
    let a: Matrix<i32> = Matrix::new([[1, 2, 3], [4, 5, 6]]);
    let b: Matrix<i32> = Matrix::new([[1, 0], [2, -1], [0, 3]]);
    let c: Matrix<i32> = Matrix::new([[2, 1, 0, 1], [1, 1, 1, -2]]);
    let left = a.mul(&b).unwrap().mul(&c).unwrap();
    let right = a.mul(&b.mul(&c).unwrap()).unwrap();
    assert_eq!(left, right);
}

#[test]
fn strategy_follows_the_cost_model() {
    assert_eq!(select_strategy(128, 128, 128, 128, false), MulStrategy::Strassen);
    assert_eq!(select_strategy(256, 256, 256, 256, true), MulStrategy::Strassen);
    assert_eq!(select_strategy(64, 64, 64, 64, true), MulStrategy::Scalar);
    assert_eq!(select_strategy(192, 192, 192, 192, false), MulStrategy::Scalar);
    assert_eq!(select_strategy(256, 16, 16, 256, true), MulStrategy::Simd);
    assert_eq!(select_strategy(256, 15, 15, 256, true), MulStrategy::Scalar);
    assert_eq!(select_strategy(300, 300, 300, 300, true), MulStrategy::Simd);
    assert_eq!(select_strategy(3, 3, 3, 3, true), MulStrategy::Scalar);
}

#[test]
fn scalar_multiplication_by_two() {
    let m: Matrix<i32> = Matrix::new([[1, 2], [3, 4]]);
    assert_eq!(m.mul_scalar(2), Matrix::new([[2, 4], [6, 8]]));
}

#[test]
fn multiplication_wraps_on_overflow() {
    let a: Matrix<u32> = Matrix::new([[u32::MAX, 2]]);
    let b: Matrix<u32> = Matrix::new([[2], [1]]);
    assert_eq!(*a.mul(&b).unwrap().get(0, 0).unwrap(), 0);
}

#[test]
fn empty_inner_dimension_gives_zeros() {
    let a = Matrix::<i32>::empty(2, 0);
    let b = Matrix::<i32>::empty(0, 3);
    let p = a.mul(&b).unwrap();
    assert_eq!(p, Matrix::new([[0, 0, 0], [0, 0, 0]]));
}

#[test]
fn identity_is_neutral_for_every_path() {
    let size = 128;
    let mut id = Matrix::<i64>::empty(size, size);
    let mut m = Matrix::<i64>::empty(size, size);
    for i in 0..size {
        *id.get_mut(i, i).unwrap() = 1;
        for j in 0..size {
            *m.get_mut(i, j).unwrap() = (i as i64 - 2 * j as i64) * 31;
        }
    }
    assert_eq!(multiply_strassen(&m, &id), m);
    assert_eq!(multiply_simd(&id, &m), m);
    assert_eq!(multiply_scalar(&m, &id), m);
}
