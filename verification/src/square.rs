//! Square-shaped array computations.
//!
//! A pairwise function that is symmetric (`f(a, b) == f(b, a)`) only needs to
//! be evaluated on the lower triangle of its result matrix; the upper triangle
//! can be mirrored from it.  `func` holds the load-balancing partition of the
//! triangular workload and the mirror step; `traits` holds the parallel
//! pairwise evaluator.

pub mod func;
pub mod traits;
