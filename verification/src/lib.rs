//! Numeric-array helpers built around a square-shaped pairwise engine.
//!
//! The heart of the crate is the `square` module: given an n-row matrix and a
//! symmetric pairwise function, it evaluates the function once per unordered
//! pair of rows, balancing the triangular workload across parallel workers,
//! and optionally mirrors the lower triangle into the upper one.

mod boolarray;
mod generic;
mod primitives;
pub(crate) mod square;

pub use boolarray::ArrayWithBoolIterMethods;
pub use boolarray::ArrayWithBoolMaskMethods;
pub use boolarray::count_trues;
pub use generic::ArrayFromDuplicatedRows;
pub use primitives::InitValue;
pub use square::func::RowSlice;
pub use square::func::balanced_slice;
pub use square::func::covering_chain;
pub use square::func::doubled_area;
pub use square::func::in_slice;
pub use square::func::lemma_chain_ordered;
pub use square::func::lemma_partition_covers;
pub use square::func::mirror_along_diagonal;
pub use square::func::partition_arith_fits;
pub use square::func::square_rows;
pub use square::func::trapizoid_slices_of_lower_half;
pub use square::traits::SquareArrayError;
pub use square::traits::accepts_rows;
pub use square::traits::deterministic_rows;
pub use square::traits::from_mapped_array2_fn;
pub use square::traits::grid_of;
pub use square::traits::lemma_worker_count_independence;
pub use square::traits::mirror_requested;
pub use square::traits::pairwise_result;
pub use square::traits::rect_grid;
pub use square::traits::row_args;
pub use square::traits::row_output;
pub use square::traits::sized_outputs;
