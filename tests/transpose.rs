use linalg::matrix::Matrix;

#[test]
fn test_transpose() {
    let matrix = Matrix::new([[1, 2], [3, 4], [5, 6]]);
    let transposed = matrix.transpose();

    assert_eq!(transposed.rows(), 2);
    assert_eq!(transposed.cols(), 3);
    assert_eq!(transposed.as_slice().to_vec(), vec![1, 3, 5, 2, 4, 6]);
}

#[test]
fn test_transpose_square_matrix() {
    let matrix = Matrix::new([[1, 2], [3, 4]]);

    let transposed = matrix.transpose();

    assert_eq!(transposed.rows(), 2);
    assert_eq!(transposed.cols(), 2);
    assert_eq!(transposed.as_slice().to_vec(), vec![1, 3, 2, 4]);
}

#[test]
fn test_transpose_single_row_matrix() {
    let matrix = Matrix::new([[1, 2, 3]]);

    let transposed = matrix.transpose();

    assert_eq!(transposed.rows(), 3);
    assert_eq!(transposed.cols(), 1);
    assert_eq!(transposed.as_slice().to_vec(), vec![1, 2, 3]);
}
