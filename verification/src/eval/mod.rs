//! Symbolic evaluation of a kernel's threads.

pub mod alu;
pub mod arith;
pub mod bitset;
pub mod collective;
pub mod config;
pub mod cooperative;
pub mod copies;
pub mod effects;
pub mod error;
pub mod exchanges;
pub mod flows;
pub mod fp8;
pub mod groups;
pub mod groupwise;
pub mod history;
pub mod int_ops;
pub mod integers;
pub mod interp;
pub mod issuing;
pub mod lanes;
pub mod laws;
pub mod lists;
pub mod machine;
pub mod matrices;
pub mod mbarrier;
pub mod mbarrier_history;
pub mod mem_access;
pub mod mem_ops;
pub mod memory;
pub mod moves;
pub mod outputs;
pub mod products;
pub mod race;
pub mod reductions;
pub mod schedule;
pub mod setup;
pub mod space_map;
pub mod step;
pub mod tables;
pub mod target;
pub mod tcgen05_mma;
pub mod tensor_map_table;
pub mod tensor_memory;
pub mod tensor_ops;
pub mod tensorwise;
pub mod transfers;
pub mod value;
pub mod warp;
pub mod warpgroup;
pub mod wgmma;
pub mod wgmma_history;
pub mod wgmma_regs;

use vstd::prelude::*;

verus! {

/// Linear index of a thread within its CTA.
#[derive(Debug, Clone, Copy, PartialEq, Eq, Structural, Hash)]
pub struct ThreadId(pub u32);

/// Threads per warp.
pub const WARP_SIZE: u32 = 32;

/// Threads per warpgroup: four contiguous warps.
pub const WARPGROUP_SIZE: u32 = 128;

} // verus!
