//! Verified core of a pairwise-interaction micro-kernel.
//!
//! The numerical Lennard-Jones kernels themselves work on floating-point
//! data and live outside this library; what is verified here is everything
//! about them that is exact: the cubic-lattice enumeration, the lane-blocked
//! pair enumeration (every unordered pair visited exactly once, for any block
//! width), the static partition of blocks across workers, and the
//! scatter-add force accumulation that realises Newton's third law.
//! The integer benchmark kernels (Collatz iteration, dot products, matrix
//! transposition) are verified in full.

pub mod colatz;
pub mod forces;
pub mod lattice;
pub mod linalg;
pub mod pairs;
pub mod schedule;
pub mod transpose_u8;
