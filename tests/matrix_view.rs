use linalg::matrix_view::MatrixView;

#[test]
fn matrix_view_test_create_matrix_view() {
    let data = [1, 2, 3, 4];
    let view: MatrixView<i32> = MatrixView::new(2, 3, &data);
    assert_eq!(view.cols, 3);
    assert_eq!(view.rows, 2);
    assert_eq!(view.data(), data);
}
