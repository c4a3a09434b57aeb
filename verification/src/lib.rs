//! Symbolic analysis of PTX kernels: per-thread symbolic evaluation of a
//! lowered kernel, χ-context race detection over its memory accesses, and
//! exact canonical coefficients for comparing the results.

pub mod bit_field;
pub mod canon;
pub mod driver;
pub mod eval;
pub mod lowered;
pub mod sort;
pub mod symbolic;
pub mod symbols;
pub mod tensor_core;
pub mod tensor_map;
pub mod text;
pub mod types;
