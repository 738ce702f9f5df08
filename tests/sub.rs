use linalg::matrix::Matrix;

#[test]
fn test_matrix_sub() {
    let m1: Matrix<i32> = Matrix::new([[1, 2, 3], [4, 5, 6], [7, 8, 9]]);
    let m2: Matrix<i32> = Matrix::new([[1, 0, 0], [0, 1, 0], [0, 0, 1]]);
    let m3 = m1.sub(&m2).unwrap();
    assert_eq!(m3.rows(), 3);
    assert_eq!(m3.cols(), 3);
    assert_eq!(*m3.get(0, 0).unwrap(), 0);
    assert_eq!(*m3.get(1, 1).unwrap(), 4);
    assert_eq!(*m3.get(2, 2).unwrap(), 8);
}

#[test]
fn test_matrix_sub_ref() {
    let m1: Matrix<i32> = Matrix::new([[1, 2, 3], [4, 5, 6], [7, 8, 9]]);
    let m2: Matrix<i32> = Matrix::new([[1, 0, 0], [0, 1, 0], [0, 0, 1]]);
    let m3 = (&m1).sub(&m2).unwrap();
    assert_eq!(m3.rows(), 3);
    assert_eq!(m3.cols(), 3);
    assert_eq!(*m3.get(0, 0).unwrap(), 0);
    assert_eq!(*m3.get(1, 1).unwrap(), 4);
    assert_eq!(*m3.get(2, 2).unwrap(), 8);
}

#[test]
fn test_matrix_subassign() {
    let mut m1: Matrix<i32> = Matrix::new([[1, 2, 3], [4, 5, 6], [7, 8, 9]]);
    let m2: Matrix<i32> = Matrix::new([[1, 0, 0], [0, 1, 0], [0, 0, 1]]);
    m1.sub_assign(&m2).unwrap();
    assert_eq!(m1.rows(), 3);
    assert_eq!(m1.cols(), 3);
    assert_eq!(*m1.get(0, 0).unwrap(), 0);
    assert_eq!(*m1.get(1, 1).unwrap(), 4);
    assert_eq!(*m1.get(2, 2).unwrap(), 8);
}
