use linalg::matrix::{Matrix, MatrixError};

#[test]
fn from_vec_checks_the_length() {
    let m = Matrix::from_vec(2, 3, vec![1i32, 2, 3, 4, 5, 6]).unwrap();
    assert_eq!(m, Matrix::new([[1, 2, 3], [4, 5, 6]]));
    assert_eq!(Matrix::from_vec(2, 3, vec![1i32, 2, 3]), Err(MatrixError::DataLengthMismatch));
    assert_eq!(Matrix::<i32>::from_vec(usize::MAX, 2, vec![]), Err(MatrixError::DataLengthMismatch));
}

#[test]
fn empty_is_zero_filled() {
    let m = Matrix::<u64>::empty(2, 3);
    assert_eq!(m.rows(), 2);
    assert_eq!(m.cols(), 3);
    assert_eq!(m.as_slice().to_vec(), vec![0u64; 6]);
    let z = Matrix::<i32>::empty(0, 4);
    assert_eq!(z.rows(), 0);
    assert_eq!(z.cols(), 4);
}

#[test]
fn access_out_of_range_is_refused() {
    let mut m: Matrix<i32> = Matrix::new([[1, 2], [3, 4]]);
    assert_eq!(m.get(2, 0), Err(MatrixError::IndexOutOfRange));
    assert_eq!(m.get(0, 2), Err(MatrixError::IndexOutOfRange));
    assert!(m.get_mut(5, 5).is_err());
    assert_eq!(m.set(0, 9, 1), Err(MatrixError::IndexOutOfRange));
    assert_eq!(m.set(1, 0, 30), Ok(()));
    assert_eq!(*m.get(1, 0).unwrap(), 30);
}

#[test]
fn view_selects_a_true_rectangle() {
    let m: Matrix<i32> = Matrix::new([[1, 2, 3], [4, 5, 6], [7, 8, 9]]);
    let v = m.view(1..3, 1..3).unwrap();
    assert_eq!(*v.get(0, 0).unwrap(), 5);
    assert_eq!(*v.get(0, 1).unwrap(), 6);
    assert_eq!(*v.get(1, 0).unwrap(), 8);
    assert_eq!(*v.get(1, 1).unwrap(), 9);
    assert!(v.get(2, 0).is_err());
    assert!(m.view(0..4, 0..1).is_err());
    assert!(m.view(2..1, 0..1).is_err());
    let e = m.view(3..3, 0..3).unwrap();
    assert_eq!(e.rows, 0);
}

#[test]
fn transpose_scenario_and_involution() {
    let m: Matrix<i32> = Matrix::new([[1, 2], [3, 4], [5, 6]]);
    let t = m.transpose();
    assert_eq!(t, Matrix::new([[1, 3, 5], [2, 4, 6]]));
    assert_eq!(t.transpose(), m);
}

#[test]
fn submatrix_copies_a_block() {
    let m: Matrix<i32> = Matrix::new([[1, 2, 3], [4, 5, 6], [7, 8, 9]]);
    assert_eq!(m.submatrix(1, 0, 2, 2), Matrix::new([[4, 5], [7, 8]]));
}
