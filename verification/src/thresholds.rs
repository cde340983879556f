//! The sizes from which on a workload goes to the GPU.
//!
//! Below them the overhead of a dispatch outweighs what the GPU gains over SIMD.
use vstd::prelude::*;

verus! {

/// Minimum log size for FFTs.
pub const MIN_FFT_LOG_SIZE: u32 = 12;

/// Minimum log size for FRI folding.
pub const MIN_FRI_LOG_SIZE: u32 = 10;

/// Minimum log size for Merkle layers.
pub const MIN_MERKLE_LOG_SIZE: u32 = 10;

/// Minimum log size for quotient accumulation.
pub const MIN_QUOTIENT_LOG_SIZE: u32 = 10;

/// Minimum log size for multilinear extensions.
pub const MIN_MLE_LOG_SIZE: u32 = 10;

} // verus!
