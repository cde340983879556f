//! The Metal GPU backend of a circle STARK prover.
//!
//! Every operation is planned here: small workloads become requests for the SIMD backend, large
//! ones complete descriptions of GPU work. The answer to either is turned into the result here
//! too. Whoever owns the device and the SIMD backend carries out what lies in between.
pub mod acceptance_laws;
pub mod accumulation;
pub mod agreement;
pub mod backend;
pub mod bits;
pub mod buffer;
pub mod circle;
pub mod circle_laws;
pub mod column;
pub mod context;
pub mod context_laws;
pub mod device_model;
pub mod evaluation;
pub mod field_laws;
pub mod fields;
pub mod fold_laws;
pub mod fri;
pub mod gkr;
pub mod gpu;
pub mod hash;
pub mod init;
pub mod memory_laws;
pub mod merkle;
pub mod merkle_laws;
pub mod merkle_tree;
pub mod mle_laws;
pub mod poly;
pub mod poly_laws;
pub mod quotients;
pub mod secure_column;
pub mod simd_model;
pub mod thresholds;
pub mod validity;
