//! The matrix type and its operations.
pub mod add;
pub mod display;
pub mod laws;
pub mod mat;
pub mod mat_view;
pub mod model;
pub mod mul;
mod parallel;
pub mod simd;
pub mod strassen;
pub mod sub;
pub mod transpose;

pub use mat::{Matrix, MatrixError};
pub use mat_view::MatrixView;
pub use mul::{multiply_scalar, multiply_simd, MulStrategy};
pub use simd::SimdOps;
pub use strassen::multiply_strassen;
