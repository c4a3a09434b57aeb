//! Memory, synchronization and control instructions of a single thread.

use vstd::prelude::*;

use crate::eval::arith::{
    canon_loaded, canon_stored, loaded_spec, reg_bits, stored_spec, unsupported,
};
use crate::eval::error::{AccessSite, Detail, EvalError, EvalResult, WarpFault};
use crate::eval::interp::{Interpreter, copy_models, group_models};
use crate::eval::lists::{thread_at, thread_at_mut};
use crate::eval::machine::{
    CopyModel, Machine, Out, PendingCopy, Stats, Status, ThreadModel, mem_error, mem_hazard_error,
    viewed,
};
use crate::eval::mbarrier::Mbarrier;
use crate::eval::memory::{MemAccessError, mbarrier_at, write_refused, written};
use crate::eval::race::{AsyncHazardInfo, MemHazard};
use crate::eval::tensor_map_table::TensorMapFields;
use crate::eval::value::{MbarrierId, Value};
use crate::eval::{ThreadId, WARP_SIZE};
use crate::lowered::{CpAsyncSrcSize, InstrId, MemSpace, Operand};
use crate::symbols::RegId;
use crate::types::ScalarType;

verus! {

pub open spec fn spec_operand_reg_bits(op: Operand) -> Option<u32> {
    match op {
        Operand::Reg(reg) => Some(reg_bits(reg)),
        _ => None,
    }
}

/// Storage width of a register operand.
#[verifier::when_used_as_spec(spec_operand_reg_bits)]
pub fn operand_reg_bits(op: Operand) -> (r: Option<u32>)
    ensures
        r == spec_operand_reg_bits(op),
{
    match op {
        Operand::Reg(reg) => Some(reg_bits(reg)),
        _ => None,
    }
}

/// Address of a vector's `k`-th element.
pub open spec fn spec_element_at(addr: u64, k: u64, ty: ScalarType) -> u64 {
    addr.wrapping_add(k.wrapping_mul(ty.size_bytes() as u64))
}

/// Address of a vector's `k`-th element.
#[verifier::when_used_as_spec(spec_element_at)]
pub fn element_at(addr: u64, k: u64, ty: ScalarType) -> (r: u64)
    ensures
        r == spec_element_at(addr, k, ty),
{
    addr.wrapping_add(k.wrapping_mul(ty.size_bytes() as u64))
}

/// Bytes of a vector of `n` elements.
pub open spec fn spec_footprint(n: u64, ty: ScalarType) -> u64 {
    n.wrapping_mul(ty.size_bytes() as u64)
}

/// Bytes of a vector of `n` elements.
#[verifier::when_used_as_spec(spec_footprint)]
pub fn footprint(n: u64, ty: ScalarType) -> (r: u64)
    ensures
        r == spec_footprint(n, ty),
{
    n.wrapping_mul(ty.size_bytes() as u64)
}

/// Address of the `i`-th word of a slot.
pub open spec fn spec_word_at(addr: u64, i: u64) -> u64 {
    addr.wrapping_add(i.wrapping_mul(4))
}

/// Address of the `i`-th word of a slot.
#[verifier::when_used_as_spec(spec_word_at)]
pub fn word_at(addr: u64, i: u64) -> (r: u64)
    ensures
        r == spec_word_at(addr, i),
{
    addr.wrapping_add(i.wrapping_mul(4))
}

/// The copies in the groups from the `i`-th on.
pub open spec fn grouped_copies(groups: Seq<Seq<CopyModel>>, i: int) -> nat
    decreases groups.len() - i,
{
    if i < 0 || i >= groups.len() {
        0
    } else {
        groups[i].len() + grouped_copies(groups, i + 1)
    }
}

/// The copies a thread has issued and not waited for, as far as a counter can
/// hold them.
pub open spec fn pending_copies(thread: ThreadModel) -> u64 {
    let n = thread.uncommitted.len() + grouped_copies(thread.groups, 0);
    if n > u64::MAX {
        u64::MAX
    } else {
        n as u64
    }
}

/// The live lanes among the `n` first ones of the warp that starts at `base`.
pub open spec fn live_mask(threads: Seq<ThreadModel>, base: u32, n: nat) -> u32
    decreases n,
{
    if n == 0 {
        0
    } else {
        let lane = (n - 1) as u32;
        let rest = live_mask(threads, base, (n - 1) as nat);
        if base + lane < threads.len() && threads[base + lane].status != Status::Exited {
            rest | (1u32 << lane)
        } else {
            rest
        }
    }
}

impl Machine {
    pub open spec fn with_mbarriers(self, mbarriers: Seq<Mbarrier>) -> Machine {
        Machine { mbarriers, ..self }
    }

    pub open spec fn with_maps(self, maps: Map<(MemSpace, u64), TensorMapFields>) -> Machine {
        Machine { maps, ..self }
    }

    /// One more `bar.sync`.
    pub open spec fn counting_block_sync(self) -> Machine {
        Machine {
            stats: Stats {
                block_syncs: if self.stats.block_syncs == u64::MAX {
                    u64::MAX
                } else {
                    (self.stats.block_syncs + 1) as u64
                },
                ..self.stats
            },
            ..self
        }
    }

    /// One more issued copy.
    pub open spec fn with_copy(self, t: ThreadId, copy: CopyModel) -> Machine {
        let th = self.thread(t);
        self.with_thread(t, ThreadModel { uncommitted: th.uncommitted.push(copy), ..th })
    }

    /// The uncommitted copies sealed into a group.
    pub open spec fn with_commit(self, t: ThreadId) -> Machine {
        let th = self.thread(t);
        self.with_thread(
            t,
            ThreadModel {
                uncommitted: Seq::empty(),
                groups: th.groups.push(th.uncommitted),
                ..th
            },
        )
    }

    /// The oldest group taken off.
    pub open spec fn without_group(self, t: ThreadId) -> Machine {
        let th = self.thread(t);
        self.with_thread(t, ThreadModel { groups: th.groups.remove(0), ..th })
    }

    /// The lock on a copy's source released.
    pub open spec fn without_source(self, t: ThreadId, copy: CopyModel) -> Machine {
        if copy.real_bytes > 0 {
            self.with_race(
                self.race.released_src(
                    MemSpace::Global,
                    copy.src_addr,
                    copy.src_addr + copy.real_bytes,
                    (t, copy.pc),
                ),
            )
        } else {
            self
        }
    }

    /// The bounds error of a copy's source: only its copied prefix counts.
    pub open spec fn source_error(
        self,
        t: ThreadId,
        pc: InstrId,
        src: u64,
        real_bytes: u64,
    ) -> Option<
        EvalError,
    > {
        if real_bytes > 0 {
            self.bounds_error(t, pc, MemSpace::Global, src, real_bytes)
        } else {
            None
        }
    }

    /// Locks a copy's destination, unless a byte of it is locked already.
    pub open spec fn lock_dst(self, t: ThreadId, pc: InstrId, dst: u64, size: u64) -> Out<()> {
        match self.race.first_dst_locked(MemSpace::Shared, dst, size) {
            Some(b) => (
                self,
                Err(
                    mem_hazard_error(
                        MemHazard::AsyncCopy(
                            AsyncHazardInfo {
                                space: MemSpace::Shared,
                                addr: b,
                                prior: AccessSite {
                                    thread: (self.race.locks[(MemSpace::Shared, b)].dst->0).0,
                                    pc: (self.race.locks[(MemSpace::Shared, b)].dst->0).1,
                                    is_write: true,
                                },
                                current: AccessSite { thread: t, pc, is_write: true },
                            },
                        ),
                    ),
                ),
            ),
            None => (
                self.with_race(
                    self.race.locked_dst(MemSpace::Shared, dst, dst + size, (t, pc)),
                ),
                Ok(()),
            ),
        }
    }

    /// Whether an mbarrier object's counters can take an arrival.
    pub open spec fn can_arrive(self, id: MbarrierId, count: u64, expect_tx: Option<u64>) -> bool {
        let b = self.mbarriers[id.0 as int];
        b.can_arrive(count) && (expect_tx matches Some(tx) ==> b.can_expect(tx))
    }

    /// `ld`.
    #[verifier::opaque]
    pub open spec fn load(
        self,
        t: ThreadId,
        pc: InstrId,
        dst: RegId,
        space: MemSpace,
        base: Operand,
        offset: i64,
        ty: ScalarType,
    ) -> Out<()> {
        match self.effective_addr(t, pc, base, offset) {
            (m, Err(e)) => (m, Err(e)),
            (m, Ok(addr)) => {
                match m.mem_read(t, pc, space, addr, ty.size_bytes() as u64) {
                    (m, Err(e)) => (m, Err(e)),
                    (m, Ok(v)) => {
                        match m.lift(loaded_spec(m.exprs, t, pc, ty, dst, v)) {
                            (m, Err(e)) => (m, Err(e)),
                            (m, Ok(w)) => {
                                m.write_reg(t, pc, dst, w)
                            },
                        }
                    },
                }
            },
        }
    }

    /// The elements of a vector load from the `k`-th on.
    pub open spec fn load_elements(
        self,
        t: ThreadId,
        pc: InstrId,
        space: MemSpace,
        addr: u64,
        dst: Seq<RegId>,
        ty: ScalarType,
        k: int,
    ) -> Out<()>
        decreases dst.len() - k,
    {
        if k >= dst.len() {
            (self, Ok(()))
        } else {
            match self.mem_read(
                t,
                pc,
                space,
                element_at(addr, k as u64, ty),
                ty.size_bytes() as u64,
            ) {
                (m, Err(e)) => (m, Err(e)),
                (m, Ok(v)) => {
                    match m.lift(loaded_spec(m.exprs, t, pc, ty, dst[k], v)) {
                        (m, Err(e)) => (m, Err(e)),
                        (m, Ok(w)) => {
                            match m.write_reg(t, pc, dst[k], w) {
                                (m, Err(e)) => (m, Err(e)),
                                (m, Ok(_)) => {
                                    m.load_elements(t, pc, space, addr, dst, ty, k + 1)
                                },
                            }
                        },
                    }
                },
            }
        }
    }

    /// A vector load: one access of the whole size as far as bounds and
    /// alignment go.
    #[verifier::opaque]
    pub open spec fn load_vec(
        self,
        t: ThreadId,
        pc: InstrId,
        dst: Seq<RegId>,
        space: MemSpace,
        base: Operand,
        offset: i64,
        ty: ScalarType,
    ) -> Out<()> {
        match self.effective_addr(t, pc, base, offset) {
            (m, Err(e)) => (m, Err(e)),
            (m, Ok(addr)) => {
                let total = footprint(dst.len() as u64, ty);
                match m.bounds_error(t, pc, space, addr, total) {
                    Some(e) => (m, Err(e)),
                    None => {
                        match Machine::alignment_error(t, pc, space, addr, total) {
                            Some(e) => (m, Err(e)),
                            None => {
                                m.load_elements(t, pc, space, addr, dst, ty, 0)
                            },
                        }
                    },
                }
            },
        }
    }

    /// `st`.
    #[verifier::opaque]
    pub open spec fn store(
        self,
        t: ThreadId,
        pc: InstrId,
        space: MemSpace,
        base: Operand,
        offset: i64,
        src: Operand,
        ty: ScalarType,
    ) -> Out<()> {
        match self.effective_addr(t, pc, base, offset) {
            (m, Err(e)) => (m, Err(e)),
            (m, Ok(addr)) => {
                match m.operand_value(t, pc, src) {
                    (m, Err(e)) => (m, Err(e)),
                    (m, Ok(v)) => {
                        match m.lift(stored_spec(m.exprs, t, pc, ty, operand_reg_bits(src), v)) {
                            (m, Err(e)) => (m, Err(e)),
                            (m, Ok(w)) => {
                                m.mem_write(t, pc, space, addr, ty.size_bytes() as u64, w)
                            },
                        }
                    },
                }
            },
        }
    }

    /// The elements of a vector store from the `k`-th on.
    pub open spec fn store_elements(
        self,
        t: ThreadId,
        pc: InstrId,
        space: MemSpace,
        addr: u64,
        src: Seq<Operand>,
        ty: ScalarType,
        k: int,
    ) -> Out<()>
        decreases src.len() - k,
    {
        if k >= src.len() {
            (self, Ok(()))
        } else {
            match self.operand_value(t, pc, src[k]) {
                (m, Err(e)) => (m, Err(e)),
                (m, Ok(v)) => {
                    match m.lift(stored_spec(m.exprs, t, pc, ty, operand_reg_bits(src[k]), v)) {
                        (m, Err(e)) => (m, Err(e)),
                        (m, Ok(w)) => {
                            match m.mem_write(
                                t,
                                pc,
                                space,
                                element_at(addr, k as u64, ty),
                                ty.size_bytes() as u64,
                                w,
                            ) {
                                (m, Err(e)) => (m, Err(e)),
                                (m, Ok(_)) => {
                                    m.store_elements(t, pc, space, addr, src, ty, k + 1)
                                },
                            }
                        },
                    }
                },
            }
        }
    }

    /// A vector store: one access of the whole size as far as bounds and
    /// alignment go.
    #[verifier::opaque]
    pub open spec fn store_vec(
        self,
        t: ThreadId,
        pc: InstrId,
        space: MemSpace,
        base: Operand,
        offset: i64,
        src: Seq<Operand>,
        ty: ScalarType,
    ) -> Out<()> {
        match self.effective_addr(t, pc, base, offset) {
            (m, Err(e)) => (m, Err(e)),
            (m, Ok(addr)) => {
                let total = footprint(src.len() as u64, ty);
                match m.bounds_error(t, pc, space, addr, total) {
                    Some(e) => (m, Err(e)),
                    None => {
                        match Machine::alignment_error(t, pc, space, addr, total) {
                            Some(e) => (m, Err(e)),
                            None => {
                                m.store_elements(t, pc, space, addr, src, ty, 0)
                            },
                        }
                    },
                }
            },
        }
    }

    /// How many bytes of a `cp.async` come from its source; the rest of the
    /// slot is zero-filled.
    #[verifier::opaque]
    pub open spec fn copied_bytes(
        self,
        t: ThreadId,
        pc: InstrId,
        cp_size: u64,
        src_size: CpAsyncSrcSize,
    ) -> Out<u64> {
        match src_size {
            CpAsyncSrcSize::Full => {
                (self, Ok(cp_size))
            },
            CpAsyncSrcSize::Sized(op) => {
                match self.concrete_operand(t, pc, op, "cp.async src-size") {
                    (m, Err(e)) => (m, Err(e)),
                    (m, Ok(n)) => {
                        if n < 0 || n as u64 > cp_size {
                            (
                                m,
                                Err(
                                    EvalError::Unsupported {
                                        pc,
                                        what: Detail::CopySizeOutOfRange { n, cp_size },
                                    },
                                ),
                            )
                        } else {
                            (m, Ok(n as u64))
                        }
                    },
                }
            },
            CpAsyncSrcSize::IgnoreSrc(op) => {
                match self.operand_value(t, pc, op) {
                    (m, Err(e)) => (m, Err(e)),
                    (m, Ok(v)) => {
                        match m.concrete_bool(t, pc, v, "cp.async ignore-src") {
                            Err(e) => (m, Err(e)),
                            Ok(ignore) => {
                                (m, Ok(if ignore { 0u64 } else { cp_size }))
                            },
                        }
                    },
                }
            },
        }
    }

    /// The words of a `cp.async` from the `i`-th on: those inside the copied
    /// prefix are read from global memory.
    pub open spec fn copied_words(
        self,
        t: ThreadId,
        pc: InstrId,
        src: u64,
        cp_size: u64,
        real_bytes: u64,
        zero: Value,
        words: Seq<Value>,
        i: int,
    ) -> Out<Seq<Value>>
        decreases cp_size / 4 - i,
    {
        if i >= cp_size / 4 {
            (self, Ok(words))
        } else {
            if i * 4 < real_bytes {
                match self.mem_read(t, pc, MemSpace::Global, src.wrapping_add((i * 4) as u64), 4) {
                    (m, Err(e)) => (m, Err(e)),
                    (m, Ok(v)) => {
                        m.copied_words(t, pc, src, cp_size, real_bytes, zero, words.push(v), i + 1)
                    },
                }
            } else {
                self.copied_words(t, pc, src, cp_size, real_bytes, zero, words.push(zero), i + 1)
            }
        }
    }

    /// `cp.async`: the source is read at issue, the destination and the copied
    /// prefix of the source stay locked until the copy is waited for.
    #[verifier::opaque]
    pub open spec fn cp_async(
        self,
        t: ThreadId,
        pc: InstrId,
        dst_base: Operand,
        dst_offset: i64,
        src_base: Operand,
        src_offset: i64,
        cp_size: u32,
        src_size: CpAsyncSrcSize,
    ) -> Out<()> {
        match self.effective_addr(t, pc, dst_base, dst_offset) {
            (m, Err(e)) => (m, Err(e)),
            (m, Ok(dst)) => {
                match m.effective_addr(t, pc, src_base, src_offset) {
                    (m, Err(e)) => (m, Err(e)),
                    (m, Ok(src)) => {
                        let size = cp_size as u64;
                        match m.copied_bytes(t, pc, size, src_size) {
                            (m, Err(e)) => (m, Err(e)),
                            (m, Ok(real_bytes)) => {
                                if real_bytes % 4 != 0 {
                                    (
                                        m,
                                        Err(
                                            EvalError::Unsupported {
                                                pc,
                                                what: Detail::CopySizeNotWords { real_bytes },
                                            },
                                        ),
                                    )
                                } else {
                                    match m.bounds_error(t, pc, MemSpace::Shared, dst, size) {
                                        Some(e) => (m, Err(e)),
                                        None => {
                                            match Machine::alignment_error(
                                                t,
                                                pc,
                                                MemSpace::Shared,
                                                dst,
                                                size,
                                            ) {
                                                Some(e) => (m, Err(e)),
                                                None => {
                                                    match m.source_error(t, pc, src, real_bytes) {
                                                        Some(e) => (m, Err(e)),
                                                        None => {
                                                            match Machine::alignment_error(
                                                                t,
                                                                pc,
                                                                MemSpace::Global,
                                                                src,
                                                                size,
                                                            ) {
                                                                Some(e) => (m, Err(e)),
                                                                None => {
                                                                    match m.lock_copy(
                                                                        t,
                                                                        pc,
                                                                        dst,
                                                                        size,
                                                                        src,
                                                                        real_bytes,
                                                                    ) {
                                                                        (m, Err(e)) => (m, Err(e)),
                                                                        (m, Ok(_)) => {
                                                                            let (s, zero) = m.exprs.int_const(0);
                                                                            let m = m.with_exprs(s);
                                                                            match m.copied_words(
                                                                                t,
                                                                                pc,
                                                                                src,
                                                                                size,
                                                                                real_bytes,
                                                                                Value::Scalar(zero),
                                                                                Seq::empty(),
                                                                                0,
                                                                            ) {
                                                                                (m, Err(e)) => (m, Err(e)),
                                                                                (m, Ok(words)) => {
                                                                                    let m = m.with_copy(
                                                                                        t,
                                                                                        CopyModel {
                                                                                            dst_addr: dst,
                                                                                            src_addr: src,
                                                                                            cp_size: size,
                                                                                            real_bytes,
                                                                                            words,
                                                                                            pc,
                                                                                        },
                                                                                    );
                                                                                    (m, Ok(()))
                                                                                },
                                                                            }
                                                                        },
                                                                    }
                                                                },
                                                            }
                                                        },
                                                    }
                                                },
                                            }
                                        },
                                    }
                                }
                            },
                        }
                    },
                }
            },
        }
    }

    /// Locks the destination of an asynchronous copy, and the copied prefix of
    /// its source.
    #[verifier::opaque]
    pub open spec fn lock_copy(
        self,
        t: ThreadId,
        pc: InstrId,
        dst: u64,
        size: u64,
        src: u64,
        real_bytes: u64,
    ) -> Out<()> {
        match self.lock_dst(t, pc, dst, size) {
            (m, Err(e)) => (m, Err(e)),
            (m, Ok(_)) => {
                if real_bytes > 0 {
                    let m = m.with_race(
                        m.race.locked_src(MemSpace::Global, src, src + real_bytes, (t, pc)),
                    );
                    (m, Ok(()))
                } else {
                    (m, Ok(()))
                }
            },
        }
    }

    /// The deferred writes of a copy from its `i`-th word on.
    pub open spec fn store_words(
        self,
        t: ThreadId,
        pc: InstrId,
        dst: u64,
        words: Seq<Value>,
        i: int,
    ) -> Out<()>
        decreases words.len() - i,
    {
        if i >= words.len() {
            (self, Ok(()))
        } else {
            match self.mem_write(t, pc, MemSpace::Shared, word_at(dst, i as u64), 4, words[i]) {
                (m, Err(e)) => (m, Err(e)),
                (m, Ok(_)) => {
                    m.store_words(t, pc, dst, words, i + 1)
                },
            }
        }
    }

    /// Completes a copy: its locks are released, then its words are written; on
    /// targets with proxies the written range stays unfenced.
    #[verifier::opaque]
    pub open spec fn complete_copy(self, t: ThreadId, pc: InstrId, copy: CopyModel) -> Out<()> {
        if copy.dst_addr + copy.cp_size > u64::MAX || copy.src_addr + copy.real_bytes > u64::MAX {
            (self, Err(unsupported(pc, "asynchronous copy past the end of the address space")))
        } else {
            let m = self.with_race(
                self.race.released_dst(
                    MemSpace::Shared,
                    copy.dst_addr,
                    copy.dst_addr + copy.cp_size,
                ),
            );
            let m = m.without_source(t, copy);
            match m.store_words(t, copy.pc, copy.dst_addr, copy.words, 0) {
                (m, Err(e)) => (m, Err(e)),
                (m, Ok(_)) => {
                    if m.env.features.async_proxy_fence {
                        let m = m.with_race(
                            m.race.mark_async(
                                MemSpace::Shared,
                                copy.dst_addr,
                                copy.dst_addr + copy.cp_size,
                                AccessSite { thread: t, pc: copy.pc, is_write: true },
                            ),
                        );
                        (m, Ok(()))
                    } else {
                        (m, Ok(()))
                    }
                },
            }
        }
    }

    /// Completes the copies of a group from the `k`-th on.
    pub open spec fn complete_copies(
        self,
        t: ThreadId,
        pc: InstrId,
        copies: Seq<CopyModel>,
        k: int,
    ) -> Out<()>
        decreases copies.len() - k,
    {
        if k >= copies.len() {
            (self, Ok(()))
        } else {
            match self.complete_copy(t, pc, copies[k]) {
                (m, Err(e)) => (m, Err(e)),
                (m, Ok(_)) => {
                    m.complete_copies(t, pc, copies, k + 1)
                },
            }
        }
    }

    /// Completes groups, oldest first, until `rounds` of them are done or none
    /// is left.
    pub open spec fn complete_groups(
        self,
        t: ThreadId,
        pc: InstrId,
        rounds: u64,
        k: int,
    ) -> Out<()>
        decreases rounds - k,
    {
        if k >= rounds {
            (self, Ok(()))
        } else {
            if self.thread(t).groups.len() == 0 {
                self.complete_groups(t, pc, rounds, k + 1)
            } else {
                let group = self.thread(t).groups[0];
                let m = self.without_group(t);
                match m.complete_copies(t, pc, group, 0) {
                    (m, Err(e)) => (m, Err(e)),
                    (m, Ok(_)) => {
                        m.complete_groups(t, pc, rounds, k + 1)
                    },
                }
            }
        }
    }

    /// `cp.async.wait_group`: at most `n` groups stay pending.
    #[verifier::opaque]
    pub open spec fn cp_async_wait(self, t: ThreadId, pc: InstrId, n: u32) -> Out<()> {
        let pending = self.thread(t).groups.len() as u64;
        if pending > n {
            self.complete_groups(t, pc, (pending - n) as u64, 0)
        } else {
            (self, Ok(()))
        }
    }

    /// A thread exit: no asynchronous copy may be pending.
    #[verifier::opaque]
    pub open spec fn exit(self, t: ThreadId, pc: InstrId) -> Out<()> {
        let pending = pending_copies(self.thread(t));
        if pending > 0 {
            (
                self,
                Err(EvalError::Unsupported { pc, what: Detail::PendingCopies { count: pending } }),
            )
        } else {
            let m = self.with_status(t, Status::Exited);
            (m, Ok(()))
        }
    }

    /// The mbarrier object at an address in shared memory.
    #[verifier::opaque]
    pub open spec fn mbarrier(
        self,
        t: ThreadId,
        pc: InstrId,
        base: Operand,
        offset: i64,
    ) -> Out<MbarrierId> {
        match self.effective_addr(t, pc, base, offset) {
            (m, Err(e)) => (m, Err(e)),
            (m, Ok(addr)) => {
                m.mbarrier_id(t, pc, addr)
            },
        }
    }

    /// The live mbarrier object at an address in shared memory.
    #[verifier::opaque]
    pub open spec fn mbarrier_id(self, t: ThreadId, pc: InstrId, addr: u64) -> Out<MbarrierId> {
        match self.bounds_error(t, pc, MemSpace::Shared, addr, 8) {
            Some(e) => (self, Err(e)),
            None => {
                match Machine::alignment_error(t, pc, MemSpace::Shared, addr, 8) {
                    Some(e) => (self, Err(e)),
                    None => {
                        match mbarrier_at(self.shared, addr) {
                            Some(id) => {
                                (self, Ok(id))
                            },
                            None => {
                                (
                                    self,
                                    Err(
                                        mem_error(
                                            t,
                                            pc,
                                            MemSpace::Shared,
                                            MemAccessError::NoLiveMbarrier { addr },
                                        ),
                                    ),
                                )
                            },
                        }
                    },
                }
            },
        }
    }

    /// `mbarrier.init`.
    #[verifier::opaque]
    pub open spec fn mbarrier_init(
        self,
        t: ThreadId,
        pc: InstrId,
        base: Operand,
        offset: i64,
        count: Operand,
    ) -> Out<()> {
        match self.effective_addr(t, pc, base, offset) {
            (m, Err(e)) => (m, Err(e)),
            (m, Ok(addr)) => {
                match m.bounds_error(t, pc, MemSpace::Shared, addr, 8) {
                    Some(e) => (m, Err(e)),
                    None => {
                        match Machine::alignment_error(t, pc, MemSpace::Shared, addr, 8) {
                            Some(e) => (m, Err(e)),
                            None => {
                                match m.non_negative_operand(t, pc, count, "mbarrier.init count") {
                                    (m, Err(e)) => (m, Err(e)),
                                    (m, Ok(expected)) => {
                                        let id = MbarrierId(m.mbarriers.len() as usize);
                                        let m = m.with_mbarriers(
                                            m.mbarriers.push(Mbarrier::initial(expected)),
                                        );
                                        match write_refused(
                                            m.shared,
                                            addr,
                                            8,
                                            Value::Mbarrier(id),
                                            0,
                                        ) {
                                            Some(e) => {
                                                (m, Err(mem_error(t, pc, MemSpace::Shared, e)))
                                            },
                                            None => {
                                                let m = m.with_memory(
                                                    MemSpace::Shared,
                                                    t,
                                                    written(m.shared, addr, 8, Value::Mbarrier(id)),
                                                );
                                                (m, Ok(()))
                                            },
                                        }
                                    },
                                }
                            },
                        }
                    },
                }
            },
        }
    }

    /// `mbarrier.inval`.
    #[verifier::opaque]
    pub open spec fn mbarrier_inval(
        self,
        t: ThreadId,
        pc: InstrId,
        base: Operand,
        offset: i64,
    ) -> Out<()> {
        match self.effective_addr(t, pc, base, offset) {
            (m, Err(e)) => (m, Err(e)),
            (m, Ok(addr)) => {
                match m.bounds_error(t, pc, MemSpace::Shared, addr, 8) {
                    Some(e) => (m, Err(e)),
                    None => {
                        match Machine::alignment_error(t, pc, MemSpace::Shared, addr, 8) {
                            Some(e) => (m, Err(e)),
                            None => {
                                match mbarrier_at(m.shared, addr) {
                                    Some(_) => {
                                        let m = m.with_memory(
                                            MemSpace::Shared,
                                            t,
                                            m.shared.remove(addr),
                                        );
                                        (m, Ok(()))
                                    },
                                    None => {
                                        (
                                            m,
                                            Err(
                                                mem_error(
                                                    t,
                                                    pc,
                                                    MemSpace::Shared,
                                                    MemAccessError::NoLiveMbarrier { addr },
                                                ),
                                            ),
                                        )
                                    },
                                }
                            },
                        }
                    },
                }
            },
        }
    }

    /// An optional non-negative operand.
    #[verifier::opaque]
    pub open spec fn optional_count(
        self,
        t: ThreadId,
        pc: InstrId,
        op: Option<Operand>,
        what: &'static str,
    ) -> Out<Option<u64>> {
        match op {
            None => {
                (self, Ok(None))
            },
            Some(o) => {
                match self.non_negative_operand(t, pc, o, what) {
                    (m, Err(e)) => (m, Err(e)),
                    (m, Ok(v)) => {
                        (m, Ok(Some(v)))
                    },
                }
            },
        }
    }

    /// An arrival on an mbarrier object.
    #[verifier::opaque]
    pub open spec fn arrive(
        self,
        t: ThreadId,
        pc: InstrId,
        id: MbarrierId,
        count: u64,
        expect_tx: Option<u64>,
    ) -> Out<()> {
        if id.0 >= self.mbarriers.len() {
            (self, Err(unsupported(pc, "mbarrier handle without an object")))
        } else {
            if !self.can_arrive(id, count, expect_tx) {
                (self, Err(unsupported(pc, "mbarrier arrival out of the object's range")))
            } else {
                let m = self.with_mbarriers(
                    self.mbarriers.update(
                        id.0 as int,
                        self.mbarriers[id.0 as int].arrived_expecting(t, count, expect_tx),
                    ),
                );
                (m, Ok(()))
            }
        }
    }

    /// `mbarrier.arrive`: the phase token it returns is not modelled.
    #[verifier::opaque]
    pub open spec fn mbarrier_arrive(
        self,
        t: ThreadId,
        pc: InstrId,
        state: Option<RegId>,
        base: Operand,
        offset: i64,
        count: Option<Operand>,
        expect_tx: Option<Operand>,
    ) -> Out<()> {
        match self.mbarrier(t, pc, base, offset) {
            (m, Err(e)) => (m, Err(e)),
            (m, Ok(id)) => {
                match m.optional_count(t, pc, count, "mbarrier.arrive count") {
                    (m, Err(e)) => (m, Err(e)),
                    (m, Ok(n)) => {
                        match m.optional_count(
                            t,
                            pc,
                            expect_tx,
                            "mbarrier.arrive.expect_tx txCount",
                        ) {
                            (m, Err(e)) => (m, Err(e)),
                            (m, Ok(tx)) => {
                                match m.arrive(t, pc, id, if let Some(c) = n { c } else { 1 }, tx) {
                                    (m, Err(e)) => (m, Err(e)),
                                    (m, Ok(_)) => {
                                        match state {
                                            None => {
                                                (m, Ok(()))
                                            },
                                            Some(dst) => {
                                                let (s, token) = m.exprs.undefined();
                                                let m = m.with_exprs(s);
                                                m.write_reg(t, pc, dst, Value::Scalar(token))
                                            },
                                        }
                                    },
                                }
                            },
                        }
                    },
                }
            },
        }
    }

    /// Completes transactions of an mbarrier object.
    #[verifier::opaque]
    pub open spec fn complete_tx(
        self,
        t: ThreadId,
        pc: InstrId,
        id: MbarrierId,
        tx: u64,
    ) -> Out<()> {
        if id.0 >= self.mbarriers.len() {
            (self, Err(unsupported(pc, "mbarrier handle without an object")))
        } else {
            if !self.mbarriers[id.0 as int].can_complete(tx) {
                (self, Err(unsupported(pc, "mbarrier transaction count out of the object's range")))
            } else {
                let m = self.with_mbarriers(
                    self.mbarriers.update(
                        id.0 as int,
                        self.mbarriers[id.0 as int].tx_completed(tx),
                    ),
                );
                (m, Ok(()))
            }
        }
    }

    /// `mbarrier.complete_tx`.
    #[verifier::opaque]
    pub open spec fn mbarrier_complete_tx(
        self,
        t: ThreadId,
        pc: InstrId,
        base: Operand,
        offset: i64,
        tx_count: Operand,
    ) -> Out<()> {
        match self.mbarrier(t, pc, base, offset) {
            (m, Err(e)) => (m, Err(e)),
            (m, Ok(id)) => {
                match m.non_negative_operand(t, pc, tx_count, "mbarrier.complete_tx txCount") {
                    (m, Err(e)) => (m, Err(e)),
                    (m, Ok(tx)) => {
                        m.complete_tx(t, pc, id, tx)
                    },
                }
            },
        }
    }

    /// An mbarrier wait blocks the thread.
    #[verifier::opaque]
    pub open spec fn mbarrier_wait(
        self,
        t: ThreadId,
        pc: InstrId,
        base: Operand,
        offset: i64,
        phase_parity: Operand,
    ) -> Out<()> {
        match self.mbarrier(t, pc, base, offset) {
            (m, Err(e)) => (m, Err(e)),
            (m, Ok(id)) => {
                match m.concrete_operand(t, pc, phase_parity, "mbarrier wait phaseParity") {
                    (m, Err(e)) => (m, Err(e)),
                    (m, Ok(parity)) => {
                        if parity != 0 && parity != 1 {
                            (
                                m,
                                Err(
                                    EvalError::Unsupported {
                                        pc,
                                        what: Detail::PhaseParity { value: parity },
                                    },
                                ),
                            )
                        } else {
                            let m = m.with_status(
                                t,
                                Status::AtMbarrier { id, phase_parity: parity == 1 },
                            );
                            (m, Ok(()))
                        }
                    },
                }
            },
        }
    }

    /// `tcgen05.commit`: one arrival on an mbarrier object.
    #[verifier::opaque]
    pub open spec fn tcgen05_commit(
        self,
        t: ThreadId,
        pc: InstrId,
        base: Operand,
        offset: i64,
    ) -> Out<()> {
        match self.mbarrier(t, pc, base, offset) {
            (m, Err(e)) => (m, Err(e)),
            (m, Ok(id)) => {
                m.arrive(t, pc, id, 1, None)
            },
        }
    }

    /// `tensormap.cp_fenceproxy`: copies a tensor-map object from shared to
    /// global memory.
    #[verifier::opaque]
    pub open spec fn tensormap_copy(
        self,
        t: ThreadId,
        pc: InstrId,
        dst_base: Operand,
        dst_offset: i64,
        src_base: Operand,
        src_offset: i64,
    ) -> Out<()> {
        match self.effective_addr(t, pc, dst_base, dst_offset) {
            (m, Err(e)) => (m, Err(e)),
            (m, Ok(dst)) => {
                match m.effective_addr(t, pc, src_base, src_offset) {
                    (m, Err(e)) => (m, Err(e)),
                    (m, Ok(src)) => {
                        if !m.maps.contains_key((MemSpace::Shared, src)) {
                            (
                                m,
                                Err(
                                    EvalError::TensorMapNotFound {
                                        thread: t,
                                        pc,
                                        space: MemSpace::Shared,
                                        addr: src,
                                    },
                                ),
                            )
                        } else {
                            let m = m.with_maps(
                                m.maps.insert(
                                    (MemSpace::Global, dst),
                                    m.maps[(MemSpace::Shared, src)],
                                ),
                            );
                            (m, Ok(()))
                        }
                    },
                }
            },
        }
    }

    /// `activemask`: the lanes of the warp that have not exited.
    #[verifier::opaque]
    pub open spec fn activemask(self, t: ThreadId, pc: InstrId, dst: RegId) -> Out<()> {
        let mask = live_mask(self.threads, (t.0 / WARP_SIZE * WARP_SIZE) as u32, WARP_SIZE as nat);
        let (s, x) = self.exprs.int_const(mask as i64);
        let m = self.with_exprs(s);
        m.write_reg(t, pc, dst, Value::Scalar(x))
    }

    /// Blocks a thread at a warp-cooperative instruction with the given lane
    /// mask.
    #[verifier::opaque]
    pub open spec fn block_at_warp_op(self, t: ThreadId, pc: InstrId, mask: u32) -> Out<()> {
        if mask == 0 {
            (
                self,
                Err(
                    EvalError::WarpMismatch {
                        pc,
                        reason: WarpFault::Text { text: "empty lane mask" },
                    },
                ),
            )
        } else {
            let lane = t.0 % WARP_SIZE;
            if (mask >> lane) & 1 == 0 {
                (
                    self,
                    Err(
                        EvalError::WarpMismatch {
                            pc,
                            reason: WarpFault::LaneNotInMask { lane, mask },
                        },
                    ),
                )
            } else {
                let m = self.with_status(t, Status::AtWarpOp { mask });
                (m, Ok(()))
            }
        }
    }

    /// Blocks a thread at a warp-cooperative instruction whose mask is an
    /// operand.
    #[verifier::opaque]
    pub open spec fn block_with_mask(
        self,
        t: ThreadId,
        pc: InstrId,
        mask: Operand,
        what: &'static str,
    ) -> Out<()> {
        match self.concrete_operand(t, pc, mask, what) {
            (m, Err(e)) => (m, Err(e)),
            (m, Ok(m0)) => {
                m.block_at_warp_op(t, pc, m0 as u32)
            },
        }
    }

    /// `bar.sync` blocks the thread.
    #[verifier::opaque]
    pub open spec fn bar_sync(self, t: ThreadId, pc: InstrId, id: u32) -> Out<()> {
        let m = self.counting_block_sync();
        let m = m.with_status(t, Status::AtBarrier { id });
        (m, Ok(()))
    }
}

impl<'p> Interpreter<'p> {
    fn check_source(
        &self,
        t: ThreadId,
        pc: InstrId,
        src: u64,
        real_bytes: u64,
    ) -> (r: EvalResult<()>)
        requires
            self.wf(),
        ensures
            match self@.source_error(t, pc, src, real_bytes) {
                Some(e) => r == Err::<(), EvalError>(e),
                None => r == Ok::<(), EvalError>(()) && (real_bytes > 0 ==> src + real_bytes
                    <= u64::MAX),
            },
    {
        if real_bytes > 0 {
            self.check_bounds(t, pc, MemSpace::Global, src, real_bytes)
        } else {
            Ok(())
        }
    }

    fn lock_dst(&mut self, t: ThreadId, pc: InstrId, dst: u64, size: u64) -> (r: EvalResult<()>)
        requires
            old(self).wf(),
            old(self).has(t),
            dst + size <= u64::MAX,
        ensures
            final(self).wf(),
            final(self).setup == old(self).setup,
            final(self)@.pace() == old(self)@.pace(),
            (final(self)@, r) == old(self)@.lock_dst(t, pc, dst, size),
    {
        match self.race.lock_dst(MemSpace::Shared, dst, size, t, pc) {
            Ok(_) => Ok(()),
            Err(h) => Err(mem_hazard_error(h)),
        }
    }

    fn push_copy(&mut self, t: ThreadId, copy: PendingCopy)
        requires
            old(self).wf(),
            old(self).has(t),
        ensures
            final(self).wf(),
            final(self).setup == old(self).setup,
            final(self)@.pace() == old(self)@.pace(),
            final(self)@ == old(self)@.with_copy(t, copy@),
    {
        let i: usize = t.0 as usize;
        thread_at_mut(&mut self.threads, i).uncommitted.push(copy);
        assert(copy_models(self.threads@[i as int].uncommitted@) =~= copy_models(
            old(self).threads@[i as int].uncommitted@,
        ).push(copy@));
        assert(self@.threads =~= old(self)@.with_copy(t, copy@).threads);
        assert(self@.pace().1 =~= old(self)@.pace().1);
    }

    /// Seals the uncommitted copies of a thread into a group.
    pub(crate) fn commit_copies(&mut self, t: ThreadId)
        requires
            old(self).wf(),
            old(self).has(t),
        ensures
            final(self).wf(),
            final(self).setup == old(self).setup,
            final(self)@.pace() == old(self)@.pace(),
            final(self)@ == old(self)@.with_commit(t),
    {
        let i: usize = t.0 as usize;
        let mut group: Vec<PendingCopy> = Vec::new();
        let th = thread_at_mut(&mut self.threads, i);
        std::mem::swap(&mut th.uncommitted, &mut group);
        let ghost sealed = group;
        th.groups.push(group);
        assert(copy_models(self.threads@[i as int].uncommitted@) =~= Seq::empty());
        assert(group_models(self.threads@[i as int].groups@) =~= group_models(
            old(self).threads@[i as int].groups@,
        ).push(copy_models(sealed@)));
        assert(self@.threads =~= old(self)@.with_commit(t).threads);
        assert(self@.pace().1 =~= old(self)@.pace().1);
    }

    /// Takes off the oldest group of a thread.
    fn take_group(&mut self, t: ThreadId) -> (r: Vec<PendingCopy>)
        requires
            old(self).wf(),
            old(self).has(t),
            old(self)@.thread(t).groups.len() > 0,
        ensures
            final(self).wf(),
            final(self).setup == old(self).setup,
            final(self)@.pace() == old(self)@.pace(),
            copy_models(r@) == old(self)@.thread(t).groups[0],
            final(self)@ == old(self)@.without_group(t),
    {
        let i: usize = t.0 as usize;
        let group = thread_at_mut(&mut self.threads, i).groups.remove(0);
        assert(group_models(self.threads@[i as int].groups@) =~= group_models(
            old(self).threads@[i as int].groups@,
        ).remove(0));
        assert(self@.threads =~= old(self)@.without_group(t).threads);
        assert(self@.pace().1 =~= old(self)@.pace().1);
        group
    }

    fn release_source(&mut self, t: ThreadId, copy: &PendingCopy)
        requires
            old(self).wf(),
            old(self).has(t),
            copy.src_addr + copy.real_bytes <= u64::MAX,
        ensures
            final(self).wf(),
            final(self).setup == old(self).setup,
            final(self)@.pace() == old(self)@.pace(),
            final(self)@ == old(self)@.without_source(t, copy@),
    {
        if copy.real_bytes > 0 {
            self.race.release_src(MemSpace::Global, copy.src_addr, copy.real_bytes, t, copy.pc);
        }
    }

    fn count_pending(&self, t: ThreadId) -> (r: u64)
        requires
            self.wf(),
            self.has(t),
        ensures
            r == pending_copies(self@.thread(t)),
    {
        let th = thread_at(&self.threads, t.0 as usize);
        let ghost groups = group_models(th.groups@);
        let mut n: u64 = th.uncommitted.len() as u64;
        let mut i: usize = 0;
        while i < th.groups.len()
            invariant
                i <= th.groups@.len(),
                groups == group_models(th.groups@),
                n < u64::MAX ==> n + grouped_copies(groups, i as int)
                    == copy_models(th.uncommitted@).len() + grouped_copies(groups, 0),
                n == u64::MAX ==> copy_models(th.uncommitted@).len() + grouped_copies(groups, 0)
                    >= u64::MAX,
            decreases th.groups@.len() - i,
        {
            assert(groups[i as int].len() == th.groups@[i as int]@.len());
            n = n.saturating_add(th.groups[i].len() as u64);
            i = i + 1;
        }
        n
    }

    fn live_lanes(&self, t: ThreadId) -> (r: u32)
        requires
            self.wf(),
            self.has(t),
        ensures
            r == live_mask(self@.threads, (t.0 / WARP_SIZE * WARP_SIZE) as u32, WARP_SIZE as nat),
    {
        let base: u32 = t.0 / WARP_SIZE * WARP_SIZE;
        let mut mask: u32 = 0;
        let mut lane: u32 = 0;
        while lane < WARP_SIZE
            invariant
                self.wf(),
                self.has(t),
                base == t.0 / WARP_SIZE * WARP_SIZE,
                lane <= WARP_SIZE,
                mask == live_mask(self@.threads, base, lane as nat),
            decreases WARP_SIZE - lane,
        {
            if self.setup.n_threads > base && lane < self.setup.n_threads - base {
                if thread_at(&self.threads, (base + lane) as usize).status != Status::Exited {
                    mask = mask | (1u32 << lane);
                }
            }
            lane = lane + 1;
        }
        mask
    }

    /// `ld`.
    pub(crate) fn load(
        &mut self,
        t: ThreadId,
        pc: InstrId,
        dst: RegId,
        space: MemSpace,
        base: &Operand,
        offset: i64,
        ty: ScalarType,
    ) -> (r: EvalResult<()>)
        requires
            old(self).wf(),
            old(self).has(t),
        ensures
            final(self).wf(),
            final(self).setup == old(self).setup,
            final(self)@.pace() == old(self)@.pace(),
            (final(self)@, r) == old(self)@.load(t, pc, dst, space, *base, offset, ty),
    {
        reveal(Machine::load);
        let addr = match self.effective_addr(t, pc, base, offset) {
            Err(e) => {
                return Err(e);
            },
            Ok(v) => v,
        };
        let v = match self.mem_read(t, pc, space, addr, ty.size_bytes() as u64) {
            Err(e) => {
                return Err(e);
            },
            Ok(v) => v,
        };
        let w = match canon_loaded(&mut self.arena, t, pc, ty, dst, v) {
            Err(e) => {
                return Err(e);
            },
            Ok(v) => v,
        };
        self.write_reg(t, pc, dst, w)
    }

    /// The elements of a vector load from the `k`-th on.
    pub(crate) fn load_elements(
        &mut self,
        t: ThreadId,
        pc: InstrId,
        space: MemSpace,
        addr: u64,
        dst: &Vec<RegId>,
        ty: ScalarType,
    ) -> (r: EvalResult<()>)
        requires
            old(self).wf(),
            old(self).has(t),
        ensures
            final(self).wf(),
            final(self).setup == old(self).setup,
            final(self)@.pace() == old(self)@.pace(),
            (final(self)@, r) == old(self)@.load_elements(t, pc, space, addr, dst@, ty, 0),
    {
        let mut k: usize = 0;
        while k < dst.len()
            invariant
                self.wf(),
                self.has(t),
                self.setup == old(self).setup,
                self@.pace() == old(self)@.pace(),
                k <= dst@.len(),
                old(self)@.load_elements(t, pc, space, addr, dst@, ty, 0) == self@.load_elements(
                    t,
                    pc,
                    space,
                    addr,
                    dst@,
                    ty,
                    k as int,
                ),
            decreases dst@.len() - k,
        {
            let v = match self.mem_read(
                t,
                pc,
                space,
                element_at(addr, k as u64, ty),
                ty.size_bytes() as u64,
            ) {
                Err(e) => {
                    return Err(e);
                },
                Ok(v) => v,
            };
            let w = match canon_loaded(&mut self.arena, t, pc, ty, dst[k], v) {
                Err(e) => {
                    return Err(e);
                },
                Ok(v) => v,
            };
            if let Err(e) = self.write_reg(t, pc, dst[k], w) {
                return Err(e);
            }
                k = k + 1;
        }
        Ok(())
    }

    /// A vector load: one access of the whole size as far as bounds and
    /// alignment go.
    pub(crate) fn load_vec(
        &mut self,
        t: ThreadId,
        pc: InstrId,
        dst: &Vec<RegId>,
        space: MemSpace,
        base: &Operand,
        offset: i64,
        ty: ScalarType,
    ) -> (r: EvalResult<()>)
        requires
            old(self).wf(),
            old(self).has(t),
        ensures
            final(self).wf(),
            final(self).setup == old(self).setup,
            final(self)@.pace() == old(self)@.pace(),
            (final(self)@, r) == old(self)@.load_vec(t, pc, dst@, space, *base, offset, ty),
    {
        reveal(Machine::load_vec);
        let addr = match self.effective_addr(t, pc, base, offset) {
            Err(e) => {
                return Err(e);
            },
            Ok(v) => v,
        };
        let total: u64 = footprint(dst.len() as u64, ty);
        if let Err(e) = self.check_bounds(t, pc, space, addr, total) {
            return Err(e);
        }
        if let Err(e) = self.check_alignment(t, pc, space, addr, total) {
            return Err(e);
        }
        self.load_elements(t, pc, space, addr, dst, ty)
    }

    /// `st`.
    pub(crate) fn store(
        &mut self,
        t: ThreadId,
        pc: InstrId,
        space: MemSpace,
        base: &Operand,
        offset: i64,
        src: &Operand,
        ty: ScalarType,
    ) -> (r: EvalResult<()>)
        requires
            old(self).wf(),
            old(self).has(t),
        ensures
            final(self).wf(),
            final(self).setup == old(self).setup,
            final(self)@.pace() == old(self)@.pace(),
            (final(self)@, r) == old(self)@.store(t, pc, space, *base, offset, *src, ty),
    {
        reveal(Machine::store);
        let addr = match self.effective_addr(t, pc, base, offset) {
            Err(e) => {
                return Err(e);
            },
            Ok(v) => v,
        };
        let v = match self.operand_value(t, pc, src) {
            Err(e) => {
                return Err(e);
            },
            Ok(v) => v,
        };
        let w = match canon_stored(&mut self.arena, t, pc, ty, operand_reg_bits(*src), v) {
            Err(e) => {
                return Err(e);
            },
            Ok(v) => v,
        };
        self.mem_write(t, pc, space, addr, ty.size_bytes() as u64, w)
    }

    /// The elements of a vector store from the `k`-th on.
    pub(crate) fn store_elements(
        &mut self,
        t: ThreadId,
        pc: InstrId,
        space: MemSpace,
        addr: u64,
        src: &Vec<Operand>,
        ty: ScalarType,
    ) -> (r: EvalResult<()>)
        requires
            old(self).wf(),
            old(self).has(t),
        ensures
            final(self).wf(),
            final(self).setup == old(self).setup,
            final(self)@.pace() == old(self)@.pace(),
            (final(self)@, r) == old(self)@.store_elements(t, pc, space, addr, src@, ty, 0),
    {
        let mut k: usize = 0;
        while k < src.len()
            invariant
                self.wf(),
                self.has(t),
                self.setup == old(self).setup,
                self@.pace() == old(self)@.pace(),
                k <= src@.len(),
                old(self)@.store_elements(t, pc, space, addr, src@, ty, 0) == self@.store_elements(
                    t,
                    pc,
                    space,
                    addr,
                    src@,
                    ty,
                    k as int,
                ),
            decreases src@.len() - k,
        {
            let v = match self.operand_value(t, pc, &src[k]) {
                Err(e) => {
                    return Err(e);
                },
                Ok(v) => v,
            };
            let w = match canon_stored(&mut self.arena, t, pc, ty, operand_reg_bits(src[k]), v) {
                Err(e) => {
                    return Err(e);
                },
                Ok(v) => v,
            };
            if let Err(e) = self.mem_write(
                t,
                pc,
                space,
                element_at(addr, k as u64, ty),
                ty.size_bytes() as u64,
                w,
            ) {
                return Err(e);
            }
                k = k + 1;
        }
        Ok(())
    }

    /// A vector store: one access of the whole size as far as bounds and
    /// alignment go.
    pub(crate) fn store_vec(
        &mut self,
        t: ThreadId,
        pc: InstrId,
        space: MemSpace,
        base: &Operand,
        offset: i64,
        src: &Vec<Operand>,
        ty: ScalarType,
    ) -> (r: EvalResult<()>)
        requires
            old(self).wf(),
            old(self).has(t),
        ensures
            final(self).wf(),
            final(self).setup == old(self).setup,
            final(self)@.pace() == old(self)@.pace(),
            (final(self)@, r) == old(self)@.store_vec(t, pc, space, *base, offset, src@, ty),
    {
        reveal(Machine::store_vec);
        let addr = match self.effective_addr(t, pc, base, offset) {
            Err(e) => {
                return Err(e);
            },
            Ok(v) => v,
        };
        let total: u64 = footprint(src.len() as u64, ty);
        if let Err(e) = self.check_bounds(t, pc, space, addr, total) {
            return Err(e);
        }
        if let Err(e) = self.check_alignment(t, pc, space, addr, total) {
            return Err(e);
        }
        self.store_elements(t, pc, space, addr, src, ty)
    }

    /// How many bytes of a `cp.async` come from its source; the rest of the
    /// slot is zero-filled.
    pub(crate) fn copied_bytes(
        &mut self,
        t: ThreadId,
        pc: InstrId,
        cp_size: u64,
        src_size: CpAsyncSrcSize,
    ) -> (r: EvalResult<u64>)
        requires
            old(self).wf(),
            old(self).has(t),
        ensures
            final(self).wf(),
            final(self).setup == old(self).setup,
            final(self)@.pace() == old(self)@.pace(),
            (final(self)@, r) == old(self)@.copied_bytes(t, pc, cp_size, src_size),
    {
        reveal(Machine::copied_bytes);
        match src_size {
            CpAsyncSrcSize::Full => {
                Ok(cp_size)
            },
            CpAsyncSrcSize::Sized(op) => {
                let n = match self.concrete_operand(t, pc, &op, "cp.async src-size") {
                    Err(e) => {
                        return Err(e);
                    },
                    Ok(v) => v,
                };
                if n < 0 || n as u64 > cp_size {
                    return Err(
                        EvalError::Unsupported {
                            pc,
                            what: Detail::CopySizeOutOfRange { n, cp_size },
                        },
                    );
                }
                Ok(n as u64)
            },
            CpAsyncSrcSize::IgnoreSrc(op) => {
                let v = match self.operand_value(t, pc, &op) {
                    Err(e) => {
                        return Err(e);
                    },
                    Ok(v) => v,
                };
                let ignore = match self.as_concrete_bool(t, pc, v, "cp.async ignore-src") {
                    Err(e) => {
                        return Err(e);
                    },
                    Ok(v) => v,
                };
                Ok(if ignore { 0u64 } else { cp_size })
            },
        }
    }

    /// The words of a `cp.async` from the `i`-th on: those inside the copied
    /// prefix are read from global memory.
    pub(crate) fn copied_words(
        &mut self,
        t: ThreadId,
        pc: InstrId,
        src: u64,
        cp_size: u64,
        real_bytes: u64,
        zero: Value,
    ) -> (r: EvalResult<Vec<Value>>)
        requires
            old(self).wf(),
            old(self).has(t),
        ensures
            final(self).wf(),
            final(self).setup == old(self).setup,
            final(self)@.pace() == old(self)@.pace(),
            (final(self)@, viewed(r)) == old(self)@.copied_words(
                t,
                pc,
                src,
                cp_size,
                real_bytes,
                zero,
                Seq::empty(),
                0,
            ),
    {
        let mut words: Vec<Value> = Vec::new();
        let mut i: u64 = 0;
        while i < cp_size / 4
            invariant
                self.wf(),
                self.has(t),
                self.setup == old(self).setup,
                self@.pace() == old(self)@.pace(),
                i <= cp_size / 4,
                old(self)@.copied_words(t, pc, src, cp_size, real_bytes, zero, Seq::empty(), 0) == self@.copied_words(
                    t,
                    pc,
                    src,
                    cp_size,
                    real_bytes,
                    zero,
                    words@,
                    i as int,
                ),
            decreases cp_size / 4 - i,
        {
            if i * 4 < real_bytes {
                let v = match self.mem_read(t, pc, MemSpace::Global, src.wrapping_add(i * 4), 4) {
                    Err(e) => {
                        return Err(e);
                    },
                    Ok(v) => v,
                };
                words.push(v);
            } else {
                words.push(zero);
            }
            i = i + 1;
        }
        Ok(words)
    }

    /// `cp.async`: the source is read at issue, the destination and the copied
    /// prefix of the source stay locked until the copy is waited for.
    pub(crate) fn cp_async(
        &mut self,
        t: ThreadId,
        pc: InstrId,
        dst_base: &Operand,
        dst_offset: i64,
        src_base: &Operand,
        src_offset: i64,
        cp_size: u32,
        src_size: CpAsyncSrcSize,
    ) -> (r: EvalResult<()>)
        requires
            old(self).wf(),
            old(self).has(t),
        ensures
            final(self).wf(),
            final(self).setup == old(self).setup,
            final(self)@.pace() == old(self)@.pace(),
            (final(self)@, r) == old(self)@.cp_async(
                t,
                pc,
                *dst_base,
                dst_offset,
                *src_base,
                src_offset,
                cp_size,
                src_size,
            ),
    {
        reveal(Machine::cp_async);
        let dst = match self.effective_addr(t, pc, dst_base, dst_offset) {
            Err(e) => {
                return Err(e);
            },
            Ok(v) => v,
        };
        let src = match self.effective_addr(t, pc, src_base, src_offset) {
            Err(e) => {
                return Err(e);
            },
            Ok(v) => v,
        };
        let size: u64 = cp_size as u64;
        let real_bytes = match self.copied_bytes(t, pc, size, src_size) {
            Err(e) => {
                return Err(e);
            },
            Ok(v) => v,
        };
        if real_bytes % 4 != 0 {
            return Err(
                EvalError::Unsupported { pc, what: Detail::CopySizeNotWords { real_bytes } },
            );
        }
        if let Err(e) = self.check_bounds(t, pc, MemSpace::Shared, dst, size) {
            return Err(e);
        }
        if let Err(e) = self.check_alignment(t, pc, MemSpace::Shared, dst, size) {
            return Err(e);
        }
        if let Err(e) = self.check_source(t, pc, src, real_bytes) {
            return Err(e);
        }
        if let Err(e) = self.check_alignment(t, pc, MemSpace::Global, src, size) {
            return Err(e);
        }
        if let Err(e) = self.lock_copy(t, pc, dst, size, src, real_bytes) {
            return Err(e);
        }
        let zero = self.arena.int_const(0);
        let words = match self.copied_words(t, pc, src, size, real_bytes, Value::Scalar(zero)) {
            Err(e) => {
                return Err(e);
            },
            Ok(v) => v,
        };
        self.push_copy(
            t,
            PendingCopy { dst_addr: dst, src_addr: src, cp_size: size, real_bytes, words, pc },
        );
        Ok(())
    }

    /// Locks the destination of an asynchronous copy, and the copied prefix of
    /// its source.
    pub(crate) fn lock_copy(
        &mut self,
        t: ThreadId,
        pc: InstrId,
        dst: u64,
        size: u64,
        src: u64,
        real_bytes: u64,
    ) -> (r: EvalResult<()>)
        requires
            old(self).wf(),
            old(self).has(t),
            dst + size <= u64::MAX,
            real_bytes > 0 ==> src + real_bytes <= u64::MAX,
        ensures
            final(self).wf(),
            final(self).setup == old(self).setup,
            final(self)@.pace() == old(self)@.pace(),
            (final(self)@, r) == old(self)@.lock_copy(t, pc, dst, size, src, real_bytes),
    {
        reveal(Machine::lock_copy);
        if let Err(e) = self.lock_dst(t, pc, dst, size) {
            return Err(e);
        }
        if real_bytes > 0 {
            self.race.lock_src(MemSpace::Global, src, real_bytes, t, pc);
            Ok(())
        } else {
            Ok(())
        }
    }

    /// The deferred writes of a copy from its `i`-th word on.
    pub(crate) fn store_words(
        &mut self,
        t: ThreadId,
        pc: InstrId,
        dst: u64,
        words: &Vec<Value>,
    ) -> (r: EvalResult<()>)
        requires
            old(self).wf(),
            old(self).has(t),
        ensures
            final(self).wf(),
            final(self).setup == old(self).setup,
            final(self)@.pace() == old(self)@.pace(),
            (final(self)@, r) == old(self)@.store_words(t, pc, dst, words@, 0),
    {
        let mut i: usize = 0;
        while i < words.len()
            invariant
                self.wf(),
                self.has(t),
                self.setup == old(self).setup,
                self@.pace() == old(self)@.pace(),
                i <= words@.len(),
                old(self)@.store_words(t, pc, dst, words@, 0) == self@.store_words(
                    t,
                    pc,
                    dst,
                    words@,
                    i as int,
                ),
            decreases words@.len() - i,
        {
            if let Err(e) = self.mem_write(
                t,
                pc,
                MemSpace::Shared,
                word_at(dst, i as u64),
                4,
                words[i],
            ) {
                return Err(e);
            }
                i = i + 1;
        }
        Ok(())
    }

    /// Completes a copy: its locks are released, then its words are written; on
    /// targets with proxies the written range stays unfenced.
    pub(crate) fn complete_copy(
        &mut self,
        t: ThreadId,
        pc: InstrId,
        copy: &PendingCopy,
    ) -> (r: EvalResult<()>)
        requires
            old(self).wf(),
            old(self).has(t),
        ensures
            final(self).wf(),
            final(self).setup == old(self).setup,
            final(self)@.pace() == old(self)@.pace(),
            (final(self)@, r) == old(self)@.complete_copy(t, pc, copy@),
    {
        reveal(Machine::complete_copy);
        if copy.dst_addr > u64::MAX - copy.cp_size || copy.src_addr > u64::MAX - copy.real_bytes {
            return Err(unsupported(pc, "asynchronous copy past the end of the address space"));
        }
        self.race.release_dst(MemSpace::Shared, copy.dst_addr, copy.cp_size, t, copy.pc);
        self.release_source(t, copy);
        if let Err(e) = self.store_words(t, copy.pc, copy.dst_addr, &copy.words) {
            return Err(e);
        }
        if self.setup.features.async_proxy_fence {
            self.race.mark_async_proxy_unfenced(
                MemSpace::Shared,
                copy.dst_addr,
                copy.cp_size,
                t,
                copy.pc,
            );
            Ok(())
        } else {
            Ok(())
        }
    }

    /// Completes the copies of a group from the `k`-th on.
    pub(crate) fn complete_copies(
        &mut self,
        t: ThreadId,
        pc: InstrId,
        copies: &Vec<PendingCopy>,
    ) -> (r: EvalResult<()>)
        requires
            old(self).wf(),
            old(self).has(t),
        ensures
            final(self).wf(),
            final(self).setup == old(self).setup,
            final(self)@.pace() == old(self)@.pace(),
            (final(self)@, r) == old(self)@.complete_copies(t, pc, copy_models(copies@), 0),
    {
        let mut k: usize = 0;
        while k < copies.len()
            invariant
                self.wf(),
                self.has(t),
                self.setup == old(self).setup,
                self@.pace() == old(self)@.pace(),
                k <= copies@.len(),
                old(self)@.complete_copies(t, pc, copy_models(copies@), 0) == self@.complete_copies(
                    t,
                    pc,
                    copy_models(copies@),
                    k as int,
                ),
            decreases copies@.len() - k,
        {
            assert(copy_models(copies@)[k as int] == copies@[k as int]@);
            if let Err(e) = self.complete_copy(t, pc, &copies[k]) {
                return Err(e);
            }
                k = k + 1;
        }
        Ok(())
    }

    /// Completes groups, oldest first, until `rounds` of them are done or none
    /// is left.
    pub(crate) fn complete_groups(
        &mut self,
        t: ThreadId,
        pc: InstrId,
        rounds: u64,
    ) -> (r: EvalResult<()>)
        requires
            old(self).wf(),
            old(self).has(t),
        ensures
            final(self).wf(),
            final(self).setup == old(self).setup,
            final(self)@.pace() == old(self)@.pace(),
            (final(self)@, r) == old(self)@.complete_groups(t, pc, rounds, 0),
    {
        let mut k: u64 = 0;
        while k < rounds
            invariant
                self.wf(),
                self.has(t),
                self.setup == old(self).setup,
                self@.pace() == old(self)@.pace(),
                k <= rounds,
                old(self)@.complete_groups(t, pc, rounds, 0) == self@.complete_groups(
                    t,
                    pc,
                    rounds,
                    k as int,
                ),
            decreases rounds - k,
        {
            if thread_at(&self.threads, t.0 as usize).groups.len() == 0 {
                    } else {
                let group: Vec<PendingCopy> = self.take_group(t);
                        if let Err(e) = self.complete_copies(t, pc, &group) {
                    return Err(e);
                }
                    }
            k = k + 1;
        }
        Ok(())
    }

    /// `cp.async.wait_group`: at most `n` groups stay pending.
    pub(crate) fn cp_async_wait(
        &mut self,
        t: ThreadId,
        pc: InstrId,
        n: u32,
    ) -> (r: EvalResult<()>)
        requires
            old(self).wf(),
            old(self).has(t),
        ensures
            final(self).wf(),
            final(self).setup == old(self).setup,
            final(self)@.pace() == old(self)@.pace(),
            (final(self)@, r) == old(self)@.cp_async_wait(t, pc, n),
    {
        reveal(Machine::cp_async_wait);
        let pending: u64 = thread_at(&self.threads, t.0 as usize).groups.len() as u64;
        if pending > n as u64 {
            self.complete_groups(t, pc, pending - n as u64)
        } else {
            Ok(())
        }
    }

    /// A thread exit: no asynchronous copy may be pending.
    pub(crate) fn exit(&mut self, t: ThreadId, pc: InstrId) -> (r: EvalResult<()>)
        requires
            old(self).wf(),
            old(self).has(t),
        ensures
            final(self).wf(),
            final(self).setup == old(self).setup,
            final(self)@.stats.instructions == old(self)@.stats.instructions,
            (final(self)@, r) == old(self)@.exit(t, pc),
    {
        reveal(Machine::exit);
        let pending: u64 = self.count_pending(t);
        if pending > 0 {
            return Err(
                EvalError::Unsupported { pc, what: Detail::PendingCopies { count: pending } },
            );
        }
        self.set_status(t, Status::Exited);
        Ok(())
    }

    /// The mbarrier object at an address in shared memory.
    pub(crate) fn mbarrier(
        &mut self,
        t: ThreadId,
        pc: InstrId,
        base: &Operand,
        offset: i64,
    ) -> (r: EvalResult<MbarrierId>)
        requires
            old(self).wf(),
            old(self).has(t),
        ensures
            final(self).wf(),
            final(self).setup == old(self).setup,
            final(self)@.pace() == old(self)@.pace(),
            (final(self)@, r) == old(self)@.mbarrier(t, pc, *base, offset),
    {
        reveal(Machine::mbarrier);
        let addr = match self.effective_addr(t, pc, base, offset) {
            Err(e) => {
                return Err(e);
            },
            Ok(v) => v,
        };
        self.mbarrier_id(t, pc, addr)
    }

    /// The live mbarrier object at an address in shared memory.
    pub(crate) fn mbarrier_id(
        &mut self,
        t: ThreadId,
        pc: InstrId,
        addr: u64,
    ) -> (r: EvalResult<MbarrierId>)
        requires
            old(self).wf(),
            old(self).has(t),
        ensures
            final(self).wf(),
            final(self).setup == old(self).setup,
            final(self)@.pace() == old(self)@.pace(),
            (final(self)@, r) == old(self)@.mbarrier_id(t, pc, addr),
    {
        reveal(Machine::mbarrier_id);
        if let Err(e) = self.check_bounds(t, pc, MemSpace::Shared, addr, 8) {
            return Err(e);
        }
        if let Err(e) = self.check_alignment(t, pc, MemSpace::Shared, addr, 8) {
            return Err(e);
        }
        match self.shared.read_mbarrier(addr) {
            Ok(id) => {
                Ok(id)
            },
            Err(e) => {
                Err(mem_error(t, pc, MemSpace::Shared, e))
            },
        }
    }

    /// `mbarrier.init`.
    pub(crate) fn mbarrier_init(
        &mut self,
        t: ThreadId,
        pc: InstrId,
        base: &Operand,
        offset: i64,
        count: &Operand,
    ) -> (r: EvalResult<()>)
        requires
            old(self).wf(),
            old(self).has(t),
        ensures
            final(self).wf(),
            final(self).setup == old(self).setup,
            final(self)@.pace() == old(self)@.pace(),
            (final(self)@, r) == old(self)@.mbarrier_init(t, pc, *base, offset, *count),
    {
        reveal(Machine::mbarrier_init);
        let addr = match self.effective_addr(t, pc, base, offset) {
            Err(e) => {
                return Err(e);
            },
            Ok(v) => v,
        };
        if let Err(e) = self.check_bounds(t, pc, MemSpace::Shared, addr, 8) {
            return Err(e);
        }
        if let Err(e) = self.check_alignment(t, pc, MemSpace::Shared, addr, 8) {
            return Err(e);
        }
        let expected = match self.non_negative_operand(t, pc, count, "mbarrier.init count") {
            Err(e) => {
                return Err(e);
            },
            Ok(v) => v,
        };
        let id: MbarrierId = self.mbarriers.init(expected);
        match self.shared.write(addr, 8, Value::Mbarrier(id)) {
            Err(e) => {
                Err(mem_error(t, pc, MemSpace::Shared, e))
            },
            Ok(_) => {
                        Ok(())
            },
        }
    }

    /// `mbarrier.inval`.
    pub(crate) fn mbarrier_inval(
        &mut self,
        t: ThreadId,
        pc: InstrId,
        base: &Operand,
        offset: i64,
    ) -> (r: EvalResult<()>)
        requires
            old(self).wf(),
            old(self).has(t),
        ensures
            final(self).wf(),
            final(self).setup == old(self).setup,
            final(self)@.pace() == old(self)@.pace(),
            (final(self)@, r) == old(self)@.mbarrier_inval(t, pc, *base, offset),
    {
        reveal(Machine::mbarrier_inval);
        let addr = match self.effective_addr(t, pc, base, offset) {
            Err(e) => {
                return Err(e);
            },
            Ok(v) => v,
        };
        if let Err(e) = self.check_bounds(t, pc, MemSpace::Shared, addr, 8) {
            return Err(e);
        }
        if let Err(e) = self.check_alignment(t, pc, MemSpace::Shared, addr, 8) {
            return Err(e);
        }
        match self.shared.invalidate_mbarrier(addr) {
            Ok(_) => {
                        Ok(())
            },
            Err(e) => {
                Err(mem_error(t, pc, MemSpace::Shared, e))
            },
        }
    }

    /// An optional non-negative operand.
    pub(crate) fn optional_count(
        &mut self,
        t: ThreadId,
        pc: InstrId,
        op: Option<Operand>,
        what: &'static str,
    ) -> (r: EvalResult<Option<u64>>)
        requires
            old(self).wf(),
            old(self).has(t),
        ensures
            final(self).wf(),
            final(self).setup == old(self).setup,
            final(self)@.pace() == old(self)@.pace(),
            (final(self)@, r) == old(self)@.optional_count(t, pc, op, what),
    {
        reveal(Machine::optional_count);
        match op {
            None => {
                Ok(None)
            },
            Some(o) => {
                let v = match self.non_negative_operand(t, pc, &o, what) {
                    Err(e) => {
                        return Err(e);
                    },
                    Ok(v) => v,
                };
                Ok(Some(v))
            },
        }
    }

    /// An arrival on an mbarrier object.
    pub(crate) fn arrive(
        &mut self,
        t: ThreadId,
        pc: InstrId,
        id: MbarrierId,
        count: u64,
        expect_tx: Option<u64>,
    ) -> (r: EvalResult<()>)
        requires
            old(self).wf(),
            old(self).has(t),
        ensures
            final(self).wf(),
            final(self).setup == old(self).setup,
            final(self)@.pace() == old(self)@.pace(),
            (final(self)@, r) == old(self)@.arrive(t, pc, id, count, expect_tx),
    {
        reveal(Machine::arrive);
        if id.0 >= self.mbarriers.len() {
            return Err(unsupported(pc, "mbarrier handle without an object"));
        }
        if !self.mbarriers.arrival_in_range(id, count, expect_tx) {
            return Err(unsupported(pc, "mbarrier arrival out of the object's range"));
        }
        self.mbarriers.arrive(id, t, count, expect_tx);
        Ok(())
    }

    /// `mbarrier.arrive`: the phase token it returns is not modelled.
    pub(crate) fn mbarrier_arrive(
        &mut self,
        t: ThreadId,
        pc: InstrId,
        state: Option<RegId>,
        base: &Operand,
        offset: i64,
        count: Option<Operand>,
        expect_tx: Option<Operand>,
    ) -> (r: EvalResult<()>)
        requires
            old(self).wf(),
            old(self).has(t),
        ensures
            final(self).wf(),
            final(self).setup == old(self).setup,
            final(self)@.pace() == old(self)@.pace(),
            (final(self)@, r) == old(self)@.mbarrier_arrive(
                t,
                pc,
                state,
                *base,
                offset,
                count,
                expect_tx,
            ),
    {
        reveal(Machine::mbarrier_arrive);
        let id = match self.mbarrier(t, pc, base, offset) {
            Err(e) => {
                return Err(e);
            },
            Ok(v) => v,
        };
        let n = match self.optional_count(t, pc, count, "mbarrier.arrive count") {
            Err(e) => {
                return Err(e);
            },
            Ok(v) => v,
        };
        let tx = match self.optional_count(t, pc, expect_tx, "mbarrier.arrive.expect_tx txCount") {
            Err(e) => {
                return Err(e);
            },
            Ok(v) => v,
        };
        if let Err(e) = self.arrive(t, pc, id, match n { Some(c) => c, None => 1 }, tx) {
            return Err(e);
        }
        match state {
            None => {
                Ok(())
            },
            Some(dst) => {
                let token = self.arena.undefined();
                self.write_reg(t, pc, dst, Value::Scalar(token))
            },
        }
    }

    /// Completes transactions of an mbarrier object.
    pub(crate) fn complete_tx(
        &mut self,
        t: ThreadId,
        pc: InstrId,
        id: MbarrierId,
        tx: u64,
    ) -> (r: EvalResult<()>)
        requires
            old(self).wf(),
            old(self).has(t),
        ensures
            final(self).wf(),
            final(self).setup == old(self).setup,
            final(self)@.pace() == old(self)@.pace(),
            (final(self)@, r) == old(self)@.complete_tx(t, pc, id, tx),
    {
        reveal(Machine::complete_tx);
        if id.0 >= self.mbarriers.len() {
            return Err(unsupported(pc, "mbarrier handle without an object"));
        }
        if !self.mbarriers.completion_in_range(id, tx) {
            return Err(unsupported(pc, "mbarrier transaction count out of the object's range"));
        }
        self.mbarriers.complete_tx(id, tx);
        Ok(())
    }

    /// `mbarrier.complete_tx`.
    pub(crate) fn mbarrier_complete_tx(
        &mut self,
        t: ThreadId,
        pc: InstrId,
        base: &Operand,
        offset: i64,
        tx_count: &Operand,
    ) -> (r: EvalResult<()>)
        requires
            old(self).wf(),
            old(self).has(t),
        ensures
            final(self).wf(),
            final(self).setup == old(self).setup,
            final(self)@.pace() == old(self)@.pace(),
            (final(self)@, r) == old(self)@.mbarrier_complete_tx(t, pc, *base, offset, *tx_count),
    {
        reveal(Machine::mbarrier_complete_tx);
        let id = match self.mbarrier(t, pc, base, offset) {
            Err(e) => {
                return Err(e);
            },
            Ok(v) => v,
        };
        let tx = match self.non_negative_operand(t, pc, tx_count, "mbarrier.complete_tx txCount") {
            Err(e) => {
                return Err(e);
            },
            Ok(v) => v,
        };
        self.complete_tx(t, pc, id, tx)
    }

    /// An mbarrier wait blocks the thread.
    pub(crate) fn mbarrier_wait(
        &mut self,
        t: ThreadId,
        pc: InstrId,
        base: &Operand,
        offset: i64,
        phase_parity: &Operand,
    ) -> (r: EvalResult<()>)
        requires
            old(self).wf(),
            old(self).has(t),
        ensures
            final(self).wf(),
            final(self).setup == old(self).setup,
            final(self)@.stats.instructions == old(self)@.stats.instructions,
            (final(self)@, r) == old(self)@.mbarrier_wait(t, pc, *base, offset, *phase_parity),
    {
        reveal(Machine::mbarrier_wait);
        let id = match self.mbarrier(t, pc, base, offset) {
            Err(e) => {
                return Err(e);
            },
            Ok(v) => v,
        };
        let parity = match self.concrete_operand(t, pc, phase_parity, "mbarrier wait phaseParity") {
            Err(e) => {
                return Err(e);
            },
            Ok(v) => v,
        };
        if parity != 0 && parity != 1 {
            return Err(EvalError::Unsupported { pc, what: Detail::PhaseParity { value: parity } });
        }
        self.set_status(t, Status::AtMbarrier { id, phase_parity: parity == 1 });
        Ok(())
    }

    /// `tcgen05.commit`: one arrival on an mbarrier object.
    pub(crate) fn tcgen05_commit(
        &mut self,
        t: ThreadId,
        pc: InstrId,
        base: &Operand,
        offset: i64,
    ) -> (r: EvalResult<()>)
        requires
            old(self).wf(),
            old(self).has(t),
        ensures
            final(self).wf(),
            final(self).setup == old(self).setup,
            final(self)@.pace() == old(self)@.pace(),
            (final(self)@, r) == old(self)@.tcgen05_commit(t, pc, *base, offset),
    {
        reveal(Machine::tcgen05_commit);
        let id = match self.mbarrier(t, pc, base, offset) {
            Err(e) => {
                return Err(e);
            },
            Ok(v) => v,
        };
        self.arrive(t, pc, id, 1, None)
    }

    /// `tensormap.cp_fenceproxy`: copies a tensor-map object from shared to
    /// global memory.
    pub(crate) fn tensormap_copy(
        &mut self,
        t: ThreadId,
        pc: InstrId,
        dst_base: &Operand,
        dst_offset: i64,
        src_base: &Operand,
        src_offset: i64,
    ) -> (r: EvalResult<()>)
        requires
            old(self).wf(),
            old(self).has(t),
        ensures
            final(self).wf(),
            final(self).setup == old(self).setup,
            final(self)@.pace() == old(self)@.pace(),
            (final(self)@, r) == old(self)@.tensormap_copy(
                t,
                pc,
                *dst_base,
                dst_offset,
                *src_base,
                src_offset,
            ),
    {
        reveal(Machine::tensormap_copy);
        let dst = match self.effective_addr(t, pc, dst_base, dst_offset) {
            Err(e) => {
                return Err(e);
            },
            Ok(v) => v,
        };
        let src = match self.effective_addr(t, pc, src_base, src_offset) {
            Err(e) => {
                return Err(e);
            },
            Ok(v) => v,
        };
        if self.tensor_maps.copy_entry(MemSpace::Global, dst, MemSpace::Shared, src).is_none() {
            return Err(
                EvalError::TensorMapNotFound { thread: t, pc, space: MemSpace::Shared, addr: src },
            );
        }
        Ok(())
    }

    /// `activemask`: the lanes of the warp that have not exited.
    pub(crate) fn activemask(
        &mut self,
        t: ThreadId,
        pc: InstrId,
        dst: RegId,
    ) -> (r: EvalResult<()>)
        requires
            old(self).wf(),
            old(self).has(t),
        ensures
            final(self).wf(),
            final(self).setup == old(self).setup,
            final(self)@.pace() == old(self)@.pace(),
            (final(self)@, r) == old(self)@.activemask(t, pc, dst),
    {
        reveal(Machine::activemask);
        let mask: u32 = self.live_lanes(t);
        let x = self.arena.int_const(mask as i64);
        self.write_reg(t, pc, dst, Value::Scalar(x))
    }

    /// Blocks a thread at a warp-cooperative instruction with the given lane
    /// mask.
    pub(crate) fn block_at_warp_op(
        &mut self,
        t: ThreadId,
        pc: InstrId,
        mask: u32,
    ) -> (r: EvalResult<()>)
        requires
            old(self).wf(),
            old(self).has(t),
        ensures
            final(self).wf(),
            final(self).setup == old(self).setup,
            final(self)@.stats.instructions == old(self)@.stats.instructions,
            (final(self)@, r) == old(self)@.block_at_warp_op(t, pc, mask),
    {
        reveal(Machine::block_at_warp_op);
        if mask == 0 {
            return Err(
                EvalError::WarpMismatch { pc, reason: WarpFault::Text { text: "empty lane mask" } },
            );
        }
        let lane: u32 = t.0 % WARP_SIZE;
        if (mask >> lane) & 1 == 0 {
            return Err(
                EvalError::WarpMismatch { pc, reason: WarpFault::LaneNotInMask { lane, mask } },
            );
        }
        self.set_status(t, Status::AtWarpOp { mask });
        Ok(())
    }

    /// Blocks a thread at a warp-cooperative instruction whose mask is an
    /// operand.
    pub(crate) fn block_with_mask(
        &mut self,
        t: ThreadId,
        pc: InstrId,
        mask: &Operand,
        what: &'static str,
    ) -> (r: EvalResult<()>)
        requires
            old(self).wf(),
            old(self).has(t),
        ensures
            final(self).wf(),
            final(self).setup == old(self).setup,
            final(self)@.stats.instructions == old(self)@.stats.instructions,
            (final(self)@, r) == old(self)@.block_with_mask(t, pc, *mask, what),
    {
        reveal(Machine::block_with_mask);
        let m0 = match self.concrete_operand(t, pc, mask, what) {
            Err(e) => {
                return Err(e);
            },
            Ok(v) => v,
        };
        self.block_at_warp_op(t, pc, m0 as u32)
    }

    /// `bar.sync` blocks the thread.
    pub(crate) fn bar_sync(&mut self, t: ThreadId, pc: InstrId, id: u32) -> (r: EvalResult<()>)
        requires
            old(self).wf(),
            old(self).has(t),
        ensures
            final(self).wf(),
            final(self).setup == old(self).setup,
            final(self)@.stats.instructions == old(self)@.stats.instructions,
            (final(self)@, r) == old(self)@.bar_sync(t, pc, id),
    {
        reveal(Machine::bar_sync);
        self.stats.block_syncs = self.stats.block_syncs.saturating_add(1);
        self.set_status(t, Status::AtBarrier { id });
        Ok(())
    }
}

} // verus!
