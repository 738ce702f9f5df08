use linalg::matrix::{Matrix, MatrixError};

#[test]
fn test_add_matrices() {
    let m1: Matrix<i32> = Matrix::new([[1, 2, 3], [4, 5, 6], [7, 8, 9]]);
    let m2: Matrix<i32> = Matrix::new([[1, 0, 0], [0, 1, 0], [0, 0, 1]]);
    let m3 = m1.add(&m2).unwrap();
    assert_eq!(m3.rows(), 3);
    assert_eq!(m3.cols(), 3);
    assert_eq!(*m3.get(0, 0).unwrap(), 2);
    assert_eq!(*m3.get(1, 1).unwrap(), 6);
    assert_eq!(*m3.get(2, 2).unwrap(), 10);
}

#[test]
fn test_add_matrix_refs() {
    let m1: Matrix<i32> = Matrix::new([[1, 2, 3], [4, 5, 6], [7, 8, 9]]);
    let m2: Matrix<i32> = Matrix::new([[1, 0, 0], [0, 1, 0], [0, 0, 1]]);
    let m3 = (&m1).add(&m2).unwrap();
    assert_eq!(m3.rows(), 3);
    assert_eq!(m3.cols(), 3);
    assert_eq!(*m3.get(0, 0).unwrap(), 2);
    assert_eq!(*m3.get(1, 1).unwrap(), 6);
    assert_eq!(*m3.get(2, 2).unwrap(), 10);
}

#[test]
fn test_add_assign_matrices() {
    let mut m1: Matrix<i32> = Matrix::new([[1, 2, 3], [4, 5, 6], [7, 8, 9]]);
    let m2: Matrix<i32> = Matrix::new([[1, 0, 0], [0, 1, 0], [0, 0, 1]]);
    m1.add_assign(&m2).unwrap();
    assert_eq!(m1.rows(), 3);
    assert_eq!(m1.cols(), 3);
    assert_eq!(*m1.get(0, 0).unwrap(), 2);
    assert_eq!(*m1.get(1, 1).unwrap(), 6);
    assert_eq!(*m1.get(2, 2).unwrap(), 10);
}

fn identity3() -> Matrix<i32> {
    Matrix::new([[1, 0, 0], [0, 1, 0], [0, 0, 1]])
}

fn sample3() -> Matrix<i32> {
    Matrix::new([[1, 2, 3], [4, 5, 6], [7, 8, 9]])
}

#[test]
fn add_and_sub_identity_scenario() {
    let a = sample3();
    let i = identity3();
    assert_eq!(a.add(&i).unwrap(), Matrix::new([[2, 2, 3], [4, 6, 6], [7, 8, 10]]));
    assert_eq!(a.sub(&i).unwrap(), Matrix::new([[0, 2, 3], [4, 4, 6], [7, 8, 8]]));
}

#[test]
fn add_commutes_and_associates() {
    let a = sample3();
    let b: Matrix<i32> = Matrix::new([[9, -8, 7], [6, 5, -4], [3, 2, 1]]);
    let c: Matrix<i32> = Matrix::new([[0, 1, 0], [i32::MAX, 0, 1], [1, i32::MIN, 1]]);
    assert_eq!(a.add(&b).unwrap(), b.add(&a).unwrap());
    let left = a.add(&b).unwrap().add(&c).unwrap();
    let right = a.add(&b.add(&c).unwrap()).unwrap();
    assert_eq!(left, right);
}

#[test]
fn add_then_sub_gives_back_the_left_operand() {
    let a: Matrix<u64> = Matrix::new([[u64::MAX, 1], [2, 3]]);
    let b: Matrix<u64> = Matrix::new([[5, u64::MAX], [0, 9]]);
    assert_eq!(a.add(&b).unwrap().sub(&b).unwrap(), a);
}

#[test]
fn add_of_different_shapes_is_refused() {
    let a: Matrix<i32> = Matrix::new([[1, 2], [3, 4]]);
    let b = sample3();
    assert_eq!(a.add(&b), Err(MatrixError::DimensionMismatch));
    assert_eq!(a.sub(&b), Err(MatrixError::DimensionMismatch));
    let mut c = a.clone();
    assert_eq!(c.add_assign(&b), Err(MatrixError::DimensionMismatch));
    assert_eq!(c.sub_assign(&b), Err(MatrixError::DimensionMismatch));
    assert_eq!(c, a);
}

#[test]
fn add_wraps_on_overflow() {
    let a: Matrix<i32> = Matrix::new([[i32::MAX]]);
    let b: Matrix<i32> = Matrix::new([[1]]);
    assert_eq!(*a.add(&b).unwrap().get(0, 0).unwrap(), i32::MIN);
    let c: Matrix<u32> = Matrix::new([[0]]);
    let d: Matrix<u32> = Matrix::new([[1]]);
    assert_eq!(*c.sub(&d).unwrap().get(0, 0).unwrap(), u32::MAX);
}

#[test]
fn large_add_takes_the_lane_path_and_agrees() {
    let size = 1024;
    let data1: Vec<i64> = (0..size * size).map(|x| x as i64).collect();
    let data2: Vec<i64> = (0..size * size).map(|x| 3 * x as i64 + 1).collect();
    let m1 = Matrix::from_vec(size, size, data1).unwrap();
    let m2 = Matrix::from_vec(size, size, data2).unwrap();
    let m3 = m1.add(&m2).unwrap();
    assert_eq!(m3.rows(), size);
    assert_eq!(m3.cols(), size);
    for (k, v) in m3.as_slice().iter().enumerate() {
        assert_eq!(*v, 4 * k as i64 + 1);
    }
    let back = m3.sub(&m2).unwrap();
    assert_eq!(back, m1);
}

#[test]
fn in_place_add_matches_add() {
    let a = sample3();
    let b: Matrix<i32> = Matrix::new([[3, 3, 3], [2, 2, 2], [1, 1, 1]]);
    let mut c = a.clone();
    c.add_assign(&b).unwrap();
    assert_eq!(c, a.add(&b).unwrap());
}
