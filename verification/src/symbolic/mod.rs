//! Symbolic expressions over the reals.

pub mod arena;
pub mod meaning;
pub mod orders;
pub mod readings;
pub mod reals;
pub mod sums;

use vstd::prelude::*;

verus! {

/// Handle to an expression of an arena.
#[derive(Debug, Clone, Copy, PartialEq, Eq, Structural, Hash)]
pub struct ExprId(pub usize);

} // verus!
