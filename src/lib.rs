//! Randomized and streaming experiments (secretary rule, L2 sketch, random
//! projections) expressed through a small algebra of composable algorithms.

pub mod error;
pub mod progress;
pub mod algorithm;
pub mod repeat;
pub mod reduce;
pub mod with_name;
pub mod random;
pub mod hash_function;
pub mod secretary;
pub mod matrix;
pub mod l2;
pub mod vec_extensions;
pub mod amplified;
pub mod table;
