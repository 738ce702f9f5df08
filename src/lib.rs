//! Dense matrices over wrapping integer elements, with entry-wise
//! arithmetic, products by three interchangeable strategies, transposition
//! and read-only views, all verified against a model of nested rows.
pub mod matrix;
pub mod matrix_view;
