//! Resolved symbols of a kernel.

use vstd::prelude::*;

use crate::types::{RegClass, RegCounts};

verus! {

/// Index of a register within its class.
#[derive(Debug, Clone, Copy, PartialEq, Eq, Structural, Hash)]
pub struct RegIndex(pub u32);

/// A general-purpose register.
#[derive(Debug, Clone, Copy, PartialEq, Eq, Structural, Hash)]
pub struct RegId {
    pub class: RegClass,
    pub index: RegIndex,
}

impl RegId {
    pub fn new(class: RegClass, index: u32) -> (r: Self)
        ensures
            r == (RegId { class, index: RegIndex(index) }),
    {
        RegId { class, index: RegIndex(index) }
    }
}

/// A kernel parameter, by declaration order.
#[derive(Debug, Clone, Copy, PartialEq, Eq, Structural, Hash)]
pub struct ParamId(pub u32);

/// Special registers.
#[derive(Debug, Clone, Copy, PartialEq, Eq, Structural)]
pub enum SpecialRegKind {
    TidX,
    TidY,
    TidZ,
    NtidX,
    NtidY,
    NtidZ,
    CtaidX,
    CtaidY,
    CtaidZ,
    NctaidX,
    NctaidY,
    NctaidZ,
    LaneId,
    WarpId,
    NWarpId,
    DynamicSmemSize,
    SmId,
    NSmId,
    GridId,
    Clock,
    Clock64,
    GlobalTimer,
}

/// Where module-scope `.global` variables are placed.
pub const MODULE_GLOBAL_BASE: u64 = 0x4000_0000_0000_0000;

/// A module-scope `.global` variable.
#[derive(Debug)]
pub struct GlobalVar {
    pub name: String,
    pub addr: u64,
    pub size_bytes: u64,
}

/// A `.shared` variable. Every extern one aliases the dynamic window.
#[derive(Debug, Clone, Copy)]
pub struct SharedVar {
    pub offset: u64,
    pub size_bytes: u64,
    pub is_extern: bool,
}

/// A `.local` variable.
#[derive(Debug, Clone, Copy)]
pub struct LocalVar {
    pub offset: u64,
    pub size_bytes: u64,
}

/// The symbols a kernel refers to.
#[derive(Debug)]
pub struct SymbolTable {
    /// Parameter names, in declaration order.
    pub params: Vec<String>,
    pub global_vars: Vec<GlobalVar>,
    /// Bytes that the module-scope variables take from
    /// [`MODULE_GLOBAL_BASE`] on.
    pub module_global_size: u64,
    pub shared_vars: Vec<SharedVar>,
    /// Base of the dynamic shared-memory window, if the kernel uses one.
    pub extern_shared_base: Option<u64>,
    pub local_vars: Vec<LocalVar>,
    pub reg_counts: RegCounts,
    /// Source names of registers.
    pub reg_names: Vec<(RegId, String)>,
}

impl SymbolTable {
    /// The module-scope variables end within the address space.
    pub open spec fn wf(&self) -> bool {
        MODULE_GLOBAL_BASE + self.module_global_size <= u64::MAX
    }

    /// Position of the first name entry of `reg` from `i` on.
    pub open spec fn name_index(&self, reg: RegId, i: int) -> int
        decreases self.reg_names@.len() - i,
    {
        if i >= self.reg_names@.len() {
            self.reg_names@.len() as int
        } else if self.reg_names@[i].0 == reg {
            i
        } else {
            self.name_index(reg, i + 1)
        }
    }

    /// The source name of a register, if it has one.
    pub fn register_name(&self, reg: RegId) -> (r: Option<&String>)
        ensures
            match r {
                Some(name) => self.name_index(reg, 0) < self.reg_names@.len() && *name
                    == self.reg_names@[self.name_index(reg, 0)].1,
                None => self.name_index(reg, 0) == self.reg_names@.len(),
            },
    {
        let mut i: usize = 0;
        while i < self.reg_names.len()
            invariant
                i <= self.reg_names@.len(),
                self.name_index(reg, 0) == self.name_index(reg, i as int),
            decreases self.reg_names@.len() - i,
        {
            if self.reg_names[i].0 == reg {
                return Some(&self.reg_names[i].1);
            }
            i = i + 1;
        }
        None
    }
}

impl SpecialRegKind {
    pub open spec fn spec_as_str(&self) -> &'static str {
        match self {
            SpecialRegKind::TidX => "%tid.x",
            SpecialRegKind::TidY => "%tid.y",
            SpecialRegKind::TidZ => "%tid.z",
            SpecialRegKind::NtidX => "%ntid.x",
            SpecialRegKind::NtidY => "%ntid.y",
            SpecialRegKind::NtidZ => "%ntid.z",
            SpecialRegKind::CtaidX => "%ctaid.x",
            SpecialRegKind::CtaidY => "%ctaid.y",
            SpecialRegKind::CtaidZ => "%ctaid.z",
            SpecialRegKind::NctaidX => "%nctaid.x",
            SpecialRegKind::NctaidY => "%nctaid.y",
            SpecialRegKind::NctaidZ => "%nctaid.z",
            SpecialRegKind::LaneId => "%laneid",
            SpecialRegKind::WarpId => "%warpid",
            SpecialRegKind::NWarpId => "%nwarpid",
            SpecialRegKind::DynamicSmemSize => "%dynamic_smem_size",
            SpecialRegKind::SmId => "%smid",
            SpecialRegKind::NSmId => "%nsmid",
            SpecialRegKind::GridId => "%gridid",
            SpecialRegKind::Clock => "%clock",
            SpecialRegKind::Clock64 => "%clock64",
            SpecialRegKind::GlobalTimer => "%globaltimer",
        }
    }

    /// The name of the register.
    #[verifier::when_used_as_spec(spec_as_str)]
    pub fn as_str(&self) -> (r: &'static str)
        ensures
            r == self.spec_as_str(),
    {
        match self {
            SpecialRegKind::TidX => "%tid.x",
            SpecialRegKind::TidY => "%tid.y",
            SpecialRegKind::TidZ => "%tid.z",
            SpecialRegKind::NtidX => "%ntid.x",
            SpecialRegKind::NtidY => "%ntid.y",
            SpecialRegKind::NtidZ => "%ntid.z",
            SpecialRegKind::CtaidX => "%ctaid.x",
            SpecialRegKind::CtaidY => "%ctaid.y",
            SpecialRegKind::CtaidZ => "%ctaid.z",
            SpecialRegKind::NctaidX => "%nctaid.x",
            SpecialRegKind::NctaidY => "%nctaid.y",
            SpecialRegKind::NctaidZ => "%nctaid.z",
            SpecialRegKind::LaneId => "%laneid",
            SpecialRegKind::WarpId => "%warpid",
            SpecialRegKind::NWarpId => "%nwarpid",
            SpecialRegKind::DynamicSmemSize => "%dynamic_smem_size",
            SpecialRegKind::SmId => "%smid",
            SpecialRegKind::NSmId => "%nsmid",
            SpecialRegKind::GridId => "%gridid",
            SpecialRegKind::Clock => "%clock",
            SpecialRegKind::Clock64 => "%clock64",
            SpecialRegKind::GlobalTimer => "%globaltimer",
        }
    }
}

} // verus!
