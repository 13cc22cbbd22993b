//! Verified layout routines for dense row-major matrices, the building blocks
//! of a small spectral-analysis and agent-lifecycle toolkit.

pub mod agent;
pub mod grid;
pub mod layout;
pub mod nested;
pub mod shape;
pub mod square;
pub mod symmetric;

pub use agent::merged_agent_id;
pub use layout::matrix_transpose;
pub use nested::{flatten_matrix, matrix_rows, FlatMatrix};
pub use shape::{eigen_input_accepted, is_square_storage, MAX_EIGEN_ORDER};
pub use square::{augment_with_identity, identity_matrix, matrix_diagonal, right_block, swap_rows};
pub use symmetric::symmetric_from_upper;
