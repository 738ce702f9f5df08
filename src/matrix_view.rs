//! The read-only window type, at the crate's top level.
pub use crate::matrix::mat_view::MatrixView;
