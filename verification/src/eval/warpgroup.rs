//! Warpgroup-cooperative operations: `wgmma.mma_async`.
//!
//! Both operands are read from shared memory through their matrix
//! descriptors, and each thread computes its own share of the result, so an
//! exited lane costs nothing but its own missing output.

use vstd::prelude::*;

use crate::canon::coeff::Coeff;
use crate::eval::arith::{ByteFormat, Step, byte_spec, decode_fp8_byte, unsupported};
use crate::eval::error::{EvalError, EvalResult};
use crate::eval::interp::Interpreter;
use crate::eval::machine::{Machine, Out, kind_mismatch};
use crate::eval::tcgen05_mma::{
    Major, MatrixDescriptor, SwizzleMode, major_of, operand_addr, operand_element_addr,
};
use crate::eval::value::Value;
use crate::eval::wgmma::{decode_wgmma_matrix_descriptor, spec_wgmma_matrix_descriptor};
use crate::eval::{ThreadId, WARPGROUP_SIZE};
use crate::lowered::{InstrId, MemSpace, Operand};
use crate::symbolic::ExprId;
use crate::symbolic::arena::{ExprArena, Exprs};
use crate::symbols::RegId;
use crate::tensor_core::{FragmentElement, MmaShape, group_element};
use crate::types::ScalarType;

verus! {

/// An operand in shared memory.
#[derive(Debug, Clone, Copy, PartialEq, Eq, Structural)]
pub struct GroupOperand {
    pub desc: MatrixDescriptor,
    pub major: Major,
    pub ty: ScalarType,
}

/// An operand element read from shared memory: a concrete byte is decoded,
/// anything else already is its value.
pub open spec fn group_value_spec(
    s: Exprs,
    pc: InstrId,
    ty: ScalarType,
    e: ExprId,
) -> Step<ExprId> {
    match (ty, s.as_int(e)) {
        (ScalarType::E4m3, Some(raw)) => {
            byte_spec(s, pc, "wgmma.mma_async e4m3", raw as u8, ByteFormat::E4m3)
        },
        (ScalarType::E5m2, Some(raw)) => {
            byte_spec(s, pc, "wgmma.mma_async e5m2", raw as u8, ByteFormat::E5m2)
        },
        _ => {
            (s, Ok(e))
        },
    }
}

/// An operand element read from shared memory: a concrete byte is decoded,
/// anything else already is its value.
pub fn decode_group_element(
    arena: &mut ExprArena,
    pc: InstrId,
    ty: ScalarType,
    e: ExprId,
) -> (r: Result<ExprId, EvalError>)
    requires
        old(arena).wf(),
    ensures
        final(arena).wf(),
        (final(arena)@, r) == group_value_spec(old(arena)@, pc, ty, e),
{
    match (ty, arena.as_i64(e)) {
        (ScalarType::E4m3, Some(raw)) => {
            decode_fp8_byte(arena, pc, "wgmma.mma_async e4m3", raw as u8, ByteFormat::E4m3)
        },
        (ScalarType::E5m2, Some(raw)) => {
            decode_fp8_byte(arena, pc, "wgmma.mma_async e5m2", raw as u8, ByteFormat::E5m2)
        },
        _ => {
            Ok(e)
        },
    }
}

impl Machine {
    /// One element of an operand in shared memory.
    #[verifier::opaque]
    pub open spec fn group_operand(
        self,
        t: ThreadId,
        pc: InstrId,
        u: ThreadId,
        operand: GroupOperand,
        mn: u64,
        k: u64,
    ) -> Out<ExprId> {
        if operand.major == Major::Mn && operand.desc.swizzle_mode == SwizzleMode::NoSwizzle {
            (
                self,
                Err(
                    unsupported(
                        pc,
                        "wgmma.mma_async MN-major operand without swizzling is not modeled",
                    ),
                ),
            )
        } else {
            let bytes = operand.ty.size_bytes() as u64;
            match operand_addr(operand.desc, operand.major, mn as nat, k as nat, bytes as nat) {
                None => (
                    self,
                    Err(
                        unsupported(
                            pc,
                            "wgmma.mma_async operand past the end of the address space",
                        ),
                    ),
                ),
                Some(addr) => {
                    match self.mem_read(u, pc, MemSpace::Shared, addr, bytes) {
                        (m, Err(e)) => (m, Err(e)),
                        (m, Ok(v)) => {
                            match v {
                                Value::Scalar(e) => {
                                    match m.lift(group_value_spec(m.exprs, pc, operand.ty, e)) {
                                        (m, Err(e)) => (m, Err(e)),
                                        (m, Ok(x)) => {
                                            (m, Ok(x))
                                        },
                                    }
                                },
                                _ => {
                                    (
                                        m,
                                        Err(
                                            kind_mismatch(
                                                u,
                                                pc,
                                                "wgmma.mma_async A/B element is not a scalar",
                                            ),
                                        ),
                                    )
                                },
                            }
                        },
                    }
                },
            }
        }
    }

    /// Row `row` of `A` times column `col` of `B`, added to a seed from the
    /// `k`-th product on.
    pub open spec fn group_dot(
        self,
        t: ThreadId,
        pc: InstrId,
        u: ThreadId,
        a: GroupOperand,
        b: GroupOperand,
        row: u32,
        col: u32,
        k_dim: u32,
        sum: ExprId,
        k: int,
    ) -> Out<ExprId>
        decreases k_dim - k,
    {
        if k >= k_dim {
            (self, Ok(sum))
        } else {
            match self.group_operand(t, pc, u, a, row as u64, k as u64) {
                (m, Err(e)) => (m, Err(e)),
                (m, Ok(x)) => {
                    match m.group_operand(t, pc, u, b, col as u64, k as u64) {
                        (m, Err(e)) => (m, Err(e)),
                        (m, Ok(y)) => {
                            let (s, z) = m.exprs.fused(x, y, sum);
                            let m = m.with_exprs(s);
                            m.group_dot(t, pc, u, a, b, row, col, k_dim, z, k + 1)
                        },
                    }
                },
            }
        }
    }

    /// The value an accumulation starts from.
    #[verifier::opaque]
    pub open spec fn group_seed(
        self,
        t: ThreadId,
        pc: InstrId,
        u: ThreadId,
        reg: RegId,
        shape: MmaShape,
        accumulate: bool,
    ) -> Out<ExprId> {
        if accumulate {
            match self.read_accum(u, pc, reg, shape) {
                Err(e) => (self, Err(e)),
                Ok(v) => {
                    match v {
                        Value::Scalar(e) => {
                            (self, Ok(e))
                        },
                        _ => {
                            (
                                self,
                                Err(
                                    kind_mismatch(
                                        u,
                                        pc,
                                        "wgmma.mma_async accumulator register holds a packed pair",
                                    ),
                                ),
                            )
                        },
                    }
                },
            }
        } else {
            let (s, x) = self.exprs.real_const(Coeff::spec_zero());
            let m = self.with_exprs(s);
            (m, Ok(x))
        }
    }

    /// A lane's share of the result from its `i`-th element on.
    pub open spec fn group_lane(
        self,
        t: ThreadId,
        pc: InstrId,
        u: ThreadId,
        shape: MmaShape,
        dst: Seq<RegId>,
        a: GroupOperand,
        b: GroupOperand,
        accumulate: bool,
        i: int,
    ) -> Out<()>
        decreases shape.n / 2 - i,
    {
        if i >= shape.n / 2 {
            (self, Ok(()))
        } else {
            let elem = group_element((u.0 % WARPGROUP_SIZE) as u32, i as u32);
            if i >= dst.len() {
                (self, Err(unsupported(pc, "too few fragment registers")))
            } else {
                match self.group_seed(t, pc, u, dst[i], shape, accumulate) {
                    (m, Err(e)) => (m, Err(e)),
                    (m, Ok(seed)) => {
                        match m.group_dot(t, pc, u, a, b, elem.row, elem.col, shape.k, seed, 0) {
                            (m, Err(e)) => (m, Err(e)),
                            (m, Ok(x)) => {
                                match m.write_accum(u, pc, dst[i], shape, Value::Scalar(x)) {
                                    (m, Err(e)) => (m, Err(e)),
                                    (m, Ok(_)) => {
                                        m.group_lane(t, pc, u, shape, dst, a, b, accumulate, i + 1)
                                    },
                                }
                            },
                        }
                    },
                }
            }
        }
    }

    /// The members' shares of the result from the `k`-th member on.
    pub open spec fn group_lanes(
        self,
        t: ThreadId,
        pc: InstrId,
        members: Seq<ThreadId>,
        shape: MmaShape,
        dst: Seq<RegId>,
        a: GroupOperand,
        b: GroupOperand,
        accumulate: bool,
        k: int,
    ) -> Out<()>
        decreases members.len() - k,
    {
        if k >= members.len() {
            (self, Ok(()))
        } else {
            match self.group_lane(t, pc, members[k], shape, dst, a, b, accumulate, 0) {
                (m, Err(e)) => (m, Err(e)),
                (m, Ok(_)) => {
                    m.group_lanes(t, pc, members, shape, dst, a, b, accumulate, k + 1)
                },
            }
        }
    }

    /// `wgmma.mma_async`: `D = A*B + D`, or `A*B`, across a warpgroup. The
    /// descriptors and the choice are the same on every lane.
    #[verifier::opaque]
    pub open spec fn wgmma_mma(
        self,
        t: ThreadId,
        pc: InstrId,
        members: Seq<ThreadId>,
        shape: MmaShape,
        dst: Seq<RegId>,
        descs: (Operand, Operand),
        scale_d: Operand,
        types: (ScalarType, ScalarType),
        transposed: (bool, bool),
    ) -> Out<()> {
        match self.uniform_concrete(t, pc, members, descs.0, "wgmma.mma_async a-desc") {
            (m, Err(e)) => (m, Err(e)),
            (m, Ok(a_raw)) => {
                match m.uniform_concrete(t, pc, members, descs.1, "wgmma.mma_async b-desc") {
                    (m, Err(e)) => (m, Err(e)),
                    (m, Ok(b_raw)) => {
                        match m.uniform_concrete(
                            t,
                            pc,
                            members,
                            scale_d,
                            "wgmma.mma_async scale-d",
                        ) {
                            (m, Err(e)) => (m, Err(e)),
                            (m, Ok(scale)) => {
                                let da = spec_wgmma_matrix_descriptor(a_raw as u64);
                                let db = spec_wgmma_matrix_descriptor(b_raw as u64);
                                if da.base_offset != 0 || db.base_offset != 0 {
                                    (
                                        m,
                                        Err(
                                            unsupported(
                                                pc,
                                                "wgmma.mma_async with a nonzero matrix-descriptor base offset is not modeled",
                                            ),
                                        ),
                                    )
                                } else {
                                    let a = GroupOperand {
                                        desc: da,
                                        major: major_of(transposed.0),
                                        ty: types.0,
                                    };
                                    let b = GroupOperand {
                                        desc: db,
                                        major: major_of(transposed.1),
                                        ty: types.1,
                                    };
                                    m.group_lanes(t, pc, members, shape, dst, a, b, scale != 0, 0)
                                }
                            },
                        }
                    },
                }
            },
        }
    }
}

impl<'p> Interpreter<'p> {
    /// One element of an operand in shared memory.
    pub(crate) fn read_wgmma_element(
        &mut self,
        t: ThreadId,
        pc: InstrId,
        u: ThreadId,
        operand: GroupOperand,
        mn: u64,
        k: u64,
    ) -> (r: EvalResult<ExprId>)
        requires
            old(self).wf(),
            old(self).has(t),
            old(self).has(u),
        ensures
            final(self).wf(),
            final(self).setup == old(self).setup,
            final(self)@.pace() == old(self)@.pace(),
            (final(self)@, r) == old(self)@.group_operand(t, pc, u, operand, mn, k),
    {
        reveal(Machine::group_operand);
        if operand.major == Major::Mn && operand.desc.swizzle_mode == SwizzleMode::NoSwizzle {
            return Err(
                unsupported(
                    pc,
                    "wgmma.mma_async MN-major operand without swizzling is not modeled",
                ),
            );
        }
        let bytes: u64 = operand.ty.size_bytes() as u64;
        let addr = match operand_element_addr(&operand.desc, operand.major, mn, k, bytes) {
            None => {
                return Err(
                    unsupported(pc, "wgmma.mma_async operand past the end of the address space"),
                );
            },
            Some(v) => v,
        };
        let v = match self.mem_read(u, pc, MemSpace::Shared, addr, bytes) {
            Err(e) => {
                return Err(e);
            },
            Ok(v) => v,
        };
        match v {
            Value::Scalar(e) => {
                let x = match decode_group_element(&mut self.arena, pc, operand.ty, e) {
                    Err(e) => {
                        return Err(e);
                    },
                    Ok(v) => v,
                };
                Ok(x)
            },
            _ => {
                Err(kind_mismatch(u, pc, "wgmma.mma_async A/B element is not a scalar"))
            },
        }
    }

    /// Row `row` of `A` times column `col` of `B`, added to a seed from the
    /// `k`-th product on.
    pub(crate) fn group_dot(
        &mut self,
        t: ThreadId,
        pc: InstrId,
        u: ThreadId,
        a: GroupOperand,
        b: GroupOperand,
        row: u32,
        col: u32,
        k_dim: u32,
        seed: ExprId,
    ) -> (r: EvalResult<ExprId>)
        requires
            old(self).wf(),
            old(self).has(t),
            old(self).has(u),
        ensures
            final(self).wf(),
            final(self).setup == old(self).setup,
            final(self)@.pace() == old(self)@.pace(),
            (final(self)@, r) == old(self)@.group_dot(t, pc, u, a, b, row, col, k_dim, seed, 0),
    {
        let mut sum: ExprId = seed;
        let mut k: u32 = 0;
        while k < k_dim
            invariant
                self.wf(),
                self.has(t),
                self.setup == old(self).setup,
                self@.pace() == old(self)@.pace(),
                old(self).has(u),
                k <= k_dim,
                old(self)@.group_dot(t, pc, u, a, b, row, col, k_dim, seed, 0) == self@.group_dot(
                    t,
                    pc,
                    u,
                    a,
                    b,
                    row,
                    col,
                    k_dim,
                    sum,
                    k as int,
                ),
            decreases k_dim - k,
        {
            let x = match self.read_wgmma_element(t, pc, u, a, row as u64, k as u64) {
                Err(e) => {
                    return Err(e);
                },
                Ok(v) => v,
            };
            let y = match self.read_wgmma_element(t, pc, u, b, col as u64, k as u64) {
                Err(e) => {
                    return Err(e);
                },
                Ok(v) => v,
            };
            let z = self.arena.fma(x, y, sum);
            sum = z;
            k = k + 1;
        }
        Ok(sum)
    }

    /// The value an accumulation starts from.
    pub(crate) fn group_seed(
        &mut self,
        t: ThreadId,
        pc: InstrId,
        u: ThreadId,
        reg: RegId,
        shape: MmaShape,
        accumulate: bool,
    ) -> (r: EvalResult<ExprId>)
        requires
            old(self).wf(),
            old(self).has(t),
            old(self).has(u),
        ensures
            final(self).wf(),
            final(self).setup == old(self).setup,
            final(self)@.pace() == old(self)@.pace(),
            (final(self)@, r) == old(self)@.group_seed(t, pc, u, reg, shape, accumulate),
    {
        reveal(Machine::group_seed);
        if accumulate {
            let v = match self.read_reg_wgmma_accum(u, pc, reg, shape) {
                Err(e) => {
                    return Err(e);
                },
                Ok(v) => v,
            };
            match v {
                Value::Scalar(e) => {
                    Ok(e)
                },
                _ => {
                    Err(
                        kind_mismatch(
                            u,
                            pc,
                            "wgmma.mma_async accumulator register holds a packed pair",
                        ),
                    )
                },
            }
        } else {
            let x = self.arena.real_const(Coeff::zero());
            Ok(x)
        }
    }

    /// A lane's share of the result from its `i`-th element on.
    pub(crate) fn group_lane(
        &mut self,
        t: ThreadId,
        pc: InstrId,
        u: ThreadId,
        shape: MmaShape,
        dst: &Vec<RegId>,
        a: GroupOperand,
        b: GroupOperand,
        accumulate: bool,
    ) -> (r: EvalResult<()>)
        requires
            old(self).wf(),
            old(self).has(t),
            old(self).has(u),
        ensures
            final(self).wf(),
            final(self).setup == old(self).setup,
            final(self)@.pace() == old(self)@.pace(),
            (final(self)@, r) == old(self)@.group_lane(t, pc, u, shape, dst@, a, b, accumulate, 0),
    {
        let mut i: u32 = 0;
        while i < shape.n / 2
            invariant
                self.wf(),
                self.has(t),
                self.setup == old(self).setup,
                self@.pace() == old(self)@.pace(),
                old(self).has(u),
                i <= shape.n / 2,
                old(self)@.group_lane(t, pc, u, shape, dst@, a, b, accumulate, 0) == self@.group_lane(
                    t,
                    pc,
                    u,
                    shape,
                    dst@,
                    a,
                    b,
                    accumulate,
                    i as int,
                ),
            decreases shape.n / 2 - i,
        {
            let elem: FragmentElement = group_element(u.0 % WARPGROUP_SIZE, i);
            if i as usize >= dst.len() {
                return Err(unsupported(pc, "too few fragment registers"));
            }
            let seed = match self.group_seed(t, pc, u, dst[i as usize], shape, accumulate) {
                Err(e) => {
                    return Err(e);
                },
                Ok(v) => v,
            };
            let x = match self.group_dot(t, pc, u, a, b, elem.row, elem.col, shape.k, seed) {
                Err(e) => {
                    return Err(e);
                },
                Ok(v) => v,
            };
            if let Err(e) = self.write_reg_wgmma_accum(
                u,
                pc,
                dst[i as usize],
                shape,
                Value::Scalar(x),
            ) {
                return Err(e);
            }
            
            i = i + 1;
        }
        Ok(())
    }

    /// The members' shares of the result from the `k`-th member on.
    pub(crate) fn group_lanes(
        &mut self,
        t: ThreadId,
        pc: InstrId,
        members: &Vec<ThreadId>,
        shape: MmaShape,
        dst: &Vec<RegId>,
        a: GroupOperand,
        b: GroupOperand,
        accumulate: bool,
    ) -> (r: EvalResult<()>)
        requires
            old(self).wf(),
            old(self).has(t),
            old(self).has_all(members@),
        ensures
            final(self).wf(),
            final(self).setup == old(self).setup,
            final(self)@.pace() == old(self)@.pace(),
            (final(self)@, r) == old(self)@.group_lanes(
                t,
                pc,
                members@,
                shape,
                dst@,
                a,
                b,
                accumulate,
                0,
            ),
    {
        let mut k: usize = 0;
        while k < members.len()
            invariant
                self.wf(),
                self.has(t),
                self.setup == old(self).setup,
                self@.pace() == old(self)@.pace(),
                old(self).has_all(members@),
                k <= members@.len(),
                old(self)@.group_lanes(t, pc, members@, shape, dst@, a, b, accumulate, 0) == self@.group_lanes(
                    t,
                    pc,
                    members@,
                    shape,
                    dst@,
                    a,
                    b,
                    accumulate,
                    k as int,
                ),
            decreases members@.len() - k,
        {
            if let Err(e) = self.group_lane(t, pc, members[k], shape, dst, a, b, accumulate) {
                return Err(e);
            }
            
            k = k + 1;
        }
        Ok(())
    }

    /// `wgmma.mma_async`: `D = A*B + D`, or `A*B`, across a warpgroup. The
    /// descriptors and the choice are the same on every lane.
    pub(crate) fn exec_wgmma_mma_async(
        &mut self,
        t: ThreadId,
        pc: InstrId,
        members: &Vec<ThreadId>,
        shape: MmaShape,
        dst: &Vec<RegId>,
        descs: (Operand, Operand),
        scale_d: &Operand,
        types: (ScalarType, ScalarType),
        transposed: (bool, bool),
    ) -> (r: EvalResult<()>)
        requires
            old(self).wf(),
            old(self).has(t),
            old(self).has_all(members@),
        ensures
            final(self).wf(),
            final(self).setup == old(self).setup,
            final(self)@.pace() == old(self)@.pace(),
            (final(self)@, r) == old(self)@.wgmma_mma(
                t,
                pc,
                members@,
                shape,
                dst@,
                descs,
                *scale_d,
                types,
                transposed,
            ),
    {
        reveal(Machine::wgmma_mma);
        let a_raw = match self.uniform_concrete(
            t,
            pc,
            members,
            &descs.0,
            "wgmma.mma_async a-desc",
        ) {
            Err(e) => {
                return Err(e);
            },
            Ok(v) => v,
        };
        let b_raw = match self.uniform_concrete(
            t,
            pc,
            members,
            &descs.1,
            "wgmma.mma_async b-desc",
        ) {
            Err(e) => {
                return Err(e);
            },
            Ok(v) => v,
        };
        let scale = match self.uniform_concrete(
            t,
            pc,
            members,
            scale_d,
            "wgmma.mma_async scale-d",
        ) {
            Err(e) => {
                return Err(e);
            },
            Ok(v) => v,
        };
        let da: MatrixDescriptor = decode_wgmma_matrix_descriptor(a_raw as u64);
        let db: MatrixDescriptor = decode_wgmma_matrix_descriptor(b_raw as u64);
        if da.base_offset != 0 || db.base_offset != 0 {
            return Err(
                unsupported(
                    pc,
                    "wgmma.mma_async with a nonzero matrix-descriptor base offset is not modeled",
                ),
            );
        }
        let a: GroupOperand = GroupOperand { desc: da, major: major_of(transposed.0), ty: types.0 };
        let b: GroupOperand = GroupOperand { desc: db, major: major_of(transposed.1), ty: types.1 };
        self.group_lanes(t, pc, members, shape, dst, a, b, scale != 0)
    }
}

} // verus!
