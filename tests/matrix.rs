use linalg::matrix::Matrix;

#[test]
fn matrix_test_create_matrix() {
    let m: Matrix<i32> = Matrix::new([[1, 2, 3], [4, 5, 6], [7, 8, 9]]);
    assert_eq!(m.cols(), 3);
    assert_eq!(m.rows(), 3);
}

#[test]
fn matrix_test_access_index() {
    let m: Matrix<i32> = Matrix::new([[1, 2, 3], [4, 5, 6], [7, 8, 9]]);
    assert_eq!(*m.get(0, 0).unwrap(), 1);
}

#[test]
fn matrix_test_write_index() {
    let mut m: Matrix<i32> = Matrix::new([[1, 2, 3], [4, 5, 6], [7, 8, 9]]);
    *m.get_mut(0, 0).unwrap() = 10;
    assert_eq!(*m.get(0, 0).unwrap(), 10);
}

#[test]
fn matrix_test_view_matrix() {
    let m: Matrix<i32> = Matrix::new([[1, 2, 3], [4, 5, 6], [7, 8, 9]]);
    let m_view = m.view(0..2, 0..2).unwrap();
    assert_eq!(m_view.rows, 2);
    assert_eq!(m_view.cols, 2);
    assert_eq!(*m_view.get(0, 0).unwrap(), 1);
}

#[test]
fn test_add_two_matrices() {
    let m1: Matrix<i32> = Matrix::new([[1, 2, 3], [4, 5, 6], [7, 8, 9]]);
    let m2: Matrix<i32> = Matrix::new([[1, 0, 0], [0, 1, 0], [0, 0, 1]]);
    let m3 = m1.add(&m2).unwrap();
    assert_eq!(m3.rows(), 3);
    assert_eq!(m3.cols(), 3);
    assert_eq!(*m3.get(0, 0).unwrap(), 2);
    assert_eq!(*m3.get(1, 1).unwrap(), 6);
    assert_eq!(*m3.get(2, 2).unwrap(), 10);
}

#[test]
fn test_add_assign_two_matrices() {
    let mut m1: Matrix<i32> = Matrix::new([[1, 2, 3], [4, 5, 6], [7, 8, 9]]);
    let m2: Matrix<i32> = Matrix::new([[1, 0, 0], [0, 1, 0], [0, 0, 1]]);
    m1.add_assign(&m2).unwrap();
    assert_eq!(m1.rows(), 3);
    assert_eq!(m1.cols(), 3);
    assert_eq!(*m1.get(0, 0).unwrap(), 2);
    assert_eq!(*m1.get(1, 1).unwrap(), 6);
    assert_eq!(*m1.get(2, 2).unwrap(), 10);
}
