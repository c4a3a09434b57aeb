//! χ-context race detection.
//!
//! For every byte of shared and global memory the tracker holds:
//!
//! - `rd`: for each thread that has read the byte, the set of threads that
//!   have *not* synchronized with it since that read, and
//! - `wr`: the last writer and the set of threads that have not synchronized
//!   with it since the write.
//!
//! A read races if the reader hasn't synchronized with the last writer; a
//! write races if the writer hasn't synchronized with every reader or the
//! last writer. Synchronizing a group removes the group from the pending sets
//! of its members. A full-CTA barrier empties every set, so it is a wholesale
//! clear.
//!
//! Access sites (thread, pc) are retained so races can be reported with both
//! source locations.
//!
//! Separately, the in-flight window of every uncompleted `cp.async` copy is
//! held as locks: its destination range is locked against all access, its
//! source range against writes only.
//!
//! A third, later state tracks the async-vs-generic-proxy ordering
//! requirement: once a copy's destination lock is released, its bytes are
//! *not yet* safe to access through the generic proxy until the accessing
//! thread has executed a matching `fence.proxy.async`. A barrier alone never
//! satisfies this requirement. The reverse direction - an async-proxy read of
//! bytes a generic write landed - puts the fence on the *writer*.

use vstd::prelude::*;
use std::collections::HashMap;
use vstd::std_specs::iter::IteratorSpec;
use fixedbitset::FixedBitSet;

use crate::eval::ThreadId;
use crate::eval::bitset::{bits, bitset_blocks, bitset_len, fill, full_set, has_member};
use crate::eval::error::AccessSite;
use crate::eval::space_map::SpaceMap;
use crate::lowered::{InstrId, MemSpace};

verus! {

/// A detected race: the recorded prior access and the current one.
#[derive(Debug, Clone, Copy)]
pub struct RaceInfo {
    pub space: MemSpace,
    pub addr: u64,
    pub prior: AccessSite,
    pub current: AccessSite,
}

/// A detected in-flight `cp.async` hazard: an access that conflicts with a
/// still-uncompleted copy's lock.
#[derive(Debug, Clone, Copy)]
pub struct AsyncHazardInfo {
    pub space: MemSpace,
    pub addr: u64,
    pub prior: AccessSite,
    pub current: AccessSite,
}

/// A detected missing-`fence.proxy.async` hazard.
#[derive(Debug, Clone, Copy)]
pub struct AsyncProxyFenceHazardInfo {
    pub space: MemSpace,
    pub addr: u64,
    pub prior: AccessSite,
    pub current: AccessSite,
}

/// Any kind of memory hazard `read`/`write` can report.
#[derive(Debug, Clone, Copy)]
pub enum MemHazard {
    Race(RaceInfo),
    AsyncCopy(AsyncHazardInfo),
    AsyncProxyUnfenced(AsyncProxyFenceHazardInfo),
    /// An async-proxy read of bytes a generic-proxy write landed, the writer
    /// not having executed `fence.proxy.async` since.
    GenericProxyUnfenced(AsyncProxyFenceHazardInfo),
}

/// The memory proxy an access goes through: ordinary loads/stores use the
/// generic proxy; tensor-core operand reads use the async proxy.
#[derive(Debug, Clone, Copy, PartialEq, Eq, Structural)]
pub enum Proxy {
    Generic,
    Async,
}

/// A detected in-flight `tcgen05.ld`/`.st` hazard: an access to Tensor Memory
/// that conflicts with a not yet waited-for op's column range.
#[derive(Debug, Clone, Copy)]
pub struct Tcgen05HazardInfo {
    pub quadrant: u32,
    pub start_col: u32,
    pub num_cols: u32,
    pub prior: AccessSite,
    pub current: AccessSite,
}

// ---------------------------------------------------------------------------
// Model
// ---------------------------------------------------------------------------

/// χ state of one byte.
#[verifier::ext_equal]
pub struct Chi {
    /// reader thread → (threads not yet synced with it, pc of the read)
    pub rd: Map<u32, (Set<usize>, InstrId)>,
    /// last writer: (thread, threads not yet synced with it, pc of the write)
    pub wr: Option<(u32, Set<usize>, InstrId)>,
}

/// In-flight copy locks of one byte.
#[verifier::ext_equal]
pub struct Locks {
    /// Holder of the destination lock, which blocks all access.
    pub dst: Option<(ThreadId, InstrId)>,
    /// Holders of source locks, which block writes only.
    pub src: Seq<(ThreadId, InstrId)>,
}

/// Pending Tensor Memory footprints of one lane quadrant: `(start column,
/// number of columns, issuing access)` of each un-waited `.ld` and `.st`.
#[verifier::ext_equal]
pub struct Footprints {
    pub ld: Seq<(u32, u32, AccessSite)>,
    pub st: Seq<(u32, u32, AccessSite)>,
}

/// What a [`RaceTracker`] holds.
#[verifier::ext_equal]
pub struct RaceState {
    pub n_threads: usize,
    /// χ state of every byte of every space.
    pub chi: Map<(MemSpace, u64), Chi>,
    /// Copy locks of every byte of every space.
    pub locks: Map<(MemSpace, u64), Locks>,
    /// One entry per lane quadrant.
    pub tcgen05: Seq<Footprints>,
    /// Bytes written through the async proxy, with the write and the threads
    /// that have not fenced since. The writer itself is not exempt.
    pub async_unfenced: Map<(MemSpace, u64), (AccessSite, Set<usize>)>,
    /// Shared bytes whose last write went through the generic proxy and whose
    /// writer has not fenced since.
    pub generic_unfenced: Map<u64, AccessSite>,
}

/// A byte that nobody has accessed since the last full synchronization.
pub open spec fn no_chi() -> Chi {
    Chi { rd: Map::empty(), wr: None }
}

/// A byte that no in-flight copy covers.
pub open spec fn no_locks() -> Locks {
    Locks { dst: None, src: Seq::empty() }
}

/// The first position in `[from, to)` that satisfies `p`.
pub open spec fn first_byte(from: int, to: int, p: spec_fn(u64) -> bool) -> Option<u64>
    decreases to - from,
{
    if from >= to {
        None
    } else if p(from as u64) {
        Some(from as u64)
    } else {
        first_byte(from + 1, to, p)
    }
}

/// Whether a read by `t` conflicts with the byte's last writer.
pub open spec fn read_races(c: Chi, t: u32) -> bool {
    c.wr matches Some((w, pending, pc)) && w != t && pending.contains(t as usize)
}

/// Whether a write by `t` conflicts with the recorded read of `reader`.
pub open spec fn reader_conflicts(c: Chi, t: u32, reader: u32) -> bool {
    c.rd.contains_key(reader) && reader != t && c.rd[reader].0.contains(t as usize)
}

/// The lowest-numbered reader that a write by `t` conflicts with.
pub open spec fn lowest_reader(c: Chi, t: u32) -> Option<u32> {
    if exists|r: u32| reader_conflicts(c, t, r) {
        Some(
            choose|r: u32|
                reader_conflicts(c, t, r) && forall|q: u32|
                    #[trigger] reader_conflicts(c, t, q) ==> r <= q,
        )
    } else {
        None
    }
}

/// The access that a write by `t` races with: the lowest-numbered
/// conflicting reader, else the last writer unless the write stores what the
/// byte already holds.
pub open spec fn write_conflict(c: Chi, t: u32, same_value: bool) -> Option<AccessSite> {
    match lowest_reader(c, t) {
        Some(r) => Some(AccessSite { thread: ThreadId(r), pc: c.rd[r].1, is_write: false }),
        None => match c.wr {
            Some((w, pending, pc)) if !same_value && read_races(c, t) => Some(
                AccessSite { thread: ThreadId(w), pc, is_write: true },
            ),
            _ => None,
        },
    }
}

/// The lock that a write to the byte runs into, destination lock first.
pub open spec fn write_lock(l: Locks) -> Option<AccessSite> {
    match l.dst {
        Some((holder, pc)) => Some(AccessSite { thread: holder, pc, is_write: true }),
        None => if l.src.len() > 0 {
            Some(AccessSite { thread: l.src[0].0, pc: l.src[0].1, is_write: false })
        } else {
            None
        },
    }
}

impl RaceState {
    /// No accesses, locks or marks.
    pub open spec fn initial(n_threads: usize) -> RaceState {
        RaceState {
            n_threads,
            chi: Map::new(|k: (MemSpace, u64)| true, |k: (MemSpace, u64)| no_chi()),
            locks: Map::new(|k: (MemSpace, u64)| true, |k: (MemSpace, u64)| no_locks()),
            tcgen05: Seq::new(4, |i: int| Footprints { ld: Seq::empty(), st: Seq::empty() }),
            async_unfenced: Map::empty(),
            generic_unfenced: Map::empty(),
        }
    }

    /// First byte of the range that some copy's destination lock covers.
    pub open spec fn first_dst_locked(self, space: MemSpace, addr: u64, width: u64) -> Option<u64> {
        first_byte(addr as int, addr + width, |b: u64| self.locks[(space, b)].dst is Some)
    }

    /// First byte of the range that some copy's lock covers.
    pub open spec fn first_locked(self, space: MemSpace, addr: u64, width: u64) -> Option<u64> {
        first_byte(addr as int, addr + width, |b: u64| write_lock(self.locks[(space, b)]) is Some)
    }

    /// First byte of the range whose async-proxy write `t` has not fenced.
    pub open spec fn first_async_unfenced(
        self,
        space: MemSpace,
        addr: u64,
        width: u64,
        t: u32,
    ) -> Option<u64> {
        first_byte(
            addr as int,
            addr + width,
            |b: u64|
                self.async_unfenced.contains_key((space, b)) && self.async_unfenced[(
                    space,
                    b,
                )].1.contains(t as usize),
        )
    }

    /// First shared byte of the range whose generic-proxy write its writer
    /// has not fenced.
    pub open spec fn first_generic_unfenced(
        self,
        space: MemSpace,
        addr: u64,
        width: u64,
    ) -> Option<u64> {
        if space == MemSpace::Shared {
            first_byte(
                addr as int,
                addr + width,
                |b: u64| self.generic_unfenced.contains_key(b),
            )
        } else {
            None
        }
    }

    /// The hazard of an access to async-proxy-written bytes.
    pub open spec fn async_fence_hazard(
        self,
        space: MemSpace,
        addr: u64,
        width: u64,
        current: AccessSite,
    ) -> Option<MemHazard> {
        match self.first_async_unfenced(space, addr, width, current.thread.0) {
            Some(b) => Some(
                MemHazard::AsyncProxyUnfenced(
                    AsyncProxyFenceHazardInfo {
                        space,
                        addr: b,
                        prior: self.async_unfenced[(space, b)].0,
                        current,
                    },
                ),
            ),
            None => None,
        }
    }

    /// The hazard of an async-proxy access to generic-proxy-written bytes.
    pub open spec fn generic_fence_hazard(
        self,
        space: MemSpace,
        addr: u64,
        width: u64,
        current: AccessSite,
    ) -> Option<MemHazard> {
        match self.first_generic_unfenced(space, addr, width) {
            Some(b) => Some(
                MemHazard::GenericProxyUnfenced(
                    AsyncProxyFenceHazardInfo {
                        space,
                        addr: b,
                        prior: self.generic_unfenced[b],
                        current,
                    },
                ),
            ),
            None => None,
        }
    }

    /// The hazard a read meets before χ is consulted.
    pub open spec fn read_pre_hazard(
        self,
        space: MemSpace,
        addr: u64,
        width: u64,
        current: AccessSite,
        proxy: Proxy,
    ) -> Option<MemHazard> {
        match self.first_dst_locked(space, addr, width) {
            Some(b) => {
                let holder = self.locks[(space, b)].dst->0;
                Some(
                    MemHazard::AsyncCopy(
                        AsyncHazardInfo {
                            space,
                            addr: b,
                            prior: AccessSite { thread: holder.0, pc: holder.1, is_write: true },
                            current,
                        },
                    ),
                )
            },
            None => match proxy {
                Proxy::Generic => self.async_fence_hazard(space, addr, width, current),
                Proxy::Async => self.generic_fence_hazard(space, addr, width, current),
            },
        }
    }

    /// First byte of the range whose last writer a read by `t` races with.
    pub open spec fn first_read_race(
        self,
        space: MemSpace,
        addr: u64,
        width: u64,
        t: u32,
    ) -> Option<u64> {
        first_byte(addr as int, addr + width, |b: u64| read_races(self.chi[(space, b)], t))
    }

    /// The hazard a read reports, if any.
    pub open spec fn read_hazard(
        self,
        space: MemSpace,
        addr: u64,
        width: u64,
        thread: ThreadId,
        pc: InstrId,
        proxy: Proxy,
    ) -> Option<MemHazard> {
        let current = AccessSite { thread, pc, is_write: false };
        match self.read_pre_hazard(space, addr, width, current, proxy) {
            Some(h) => Some(h),
            None => match self.first_read_race(space, addr, width, thread.0) {
                Some(b) => {
                    let wr = self.chi[(space, b)].wr->0;
                    Some(
                        MemHazard::Race(
                            RaceInfo {
                                space,
                                addr: b,
                                prior: AccessSite {
                                    thread: ThreadId(wr.0),
                                    pc: wr.2,
                                    is_write: true,
                                },
                                current,
                            },
                        ),
                    )
                },
                None => None,
            },
        }
    }

    /// The bytes `[from, to)` read by `t` at `pc`.
    pub open spec fn mark_read(
        self,
        space: MemSpace,
        from: u64,
        to: int,
        t: u32,
        pc: InstrId,
    ) -> RaceState {
        RaceState {
            chi: Map::new(
                |k: (MemSpace, u64)| true,
                |k: (MemSpace, u64)|
                    if k.0 == space && from <= k.1 < to {
                        Chi {
                            rd: self.chi[k].rd.insert(t, (full_set(self.n_threads), pc)),
                            wr: self.chi[k].wr,
                        }
                    } else {
                        self.chi[k]
                    },
            ),
            ..self
        }
    }

    /// The state after a read: every byte before the racing one is recorded
    /// as read, all of them if none races, and none if the read was refused
    /// before χ was consulted.
    pub open spec fn after_read(
        self,
        space: MemSpace,
        addr: u64,
        width: u64,
        thread: ThreadId,
        pc: InstrId,
        proxy: Proxy,
    ) -> RaceState {
        let current = AccessSite { thread, pc, is_write: false };
        if self.read_pre_hazard(space, addr, width, current, proxy) is Some {
            self
        } else {
            match self.first_read_race(space, addr, width, thread.0) {
                Some(b) => self.mark_read(space, addr, b as int, thread.0, pc),
                None => self.mark_read(space, addr, addr + width, thread.0, pc),
            }
        }
    }

    /// The hazard a write meets before χ is consulted.
    pub open spec fn write_pre_hazard(
        self,
        space: MemSpace,
        addr: u64,
        width: u64,
        current: AccessSite,
    ) -> Option<MemHazard> {
        match self.first_locked(space, addr, width) {
            Some(b) => Some(
                MemHazard::AsyncCopy(
                    AsyncHazardInfo {
                        space,
                        addr: b,
                        prior: write_lock(self.locks[(space, b)])->0,
                        current,
                    },
                ),
            ),
            None => self.async_fence_hazard(space, addr, width, current),
        }
    }

    /// First byte of the range that a write by `t` races on.
    pub open spec fn first_write_race(
        self,
        space: MemSpace,
        addr: u64,
        width: u64,
        t: u32,
        same_value: bool,
    ) -> Option<u64> {
        first_byte(
            addr as int,
            addr + width,
            |b: u64| write_conflict(self.chi[(space, b)], t, same_value) is Some,
        )
    }

    /// The hazard a write reports, if any.
    pub open spec fn write_hazard(
        self,
        space: MemSpace,
        addr: u64,
        width: u64,
        thread: ThreadId,
        pc: InstrId,
        same_value: bool,
    ) -> Option<MemHazard> {
        let current = AccessSite { thread, pc, is_write: true };
        match self.write_pre_hazard(space, addr, width, current) {
            Some(h) => Some(h),
            None => match self.first_write_race(space, addr, width, thread.0, same_value) {
                Some(b) => Some(
                    MemHazard::Race(
                        RaceInfo {
                            space,
                            addr: b,
                            prior: write_conflict(
                                self.chi[(space, b)],
                                thread.0,
                                same_value,
                            )->0,
                            current,
                        },
                    ),
                ),
                None => None,
            },
        }
    }

    /// The bytes `[from, to)` written by `t` at `pc`; read sets are left
    /// unchanged.
    pub open spec fn mark_written(
        self,
        space: MemSpace,
        from: u64,
        to: int,
        t: u32,
        pc: InstrId,
    ) -> RaceState {
        RaceState {
            chi: Map::new(
                |k: (MemSpace, u64)| true,
                |k: (MemSpace, u64)|
                    if k.0 == space && from <= k.1 < to {
                        Chi { rd: self.chi[k].rd, wr: Some((t, full_set(self.n_threads), pc)) }
                    } else {
                        self.chi[k]
                    },
            ),
            ..self
        }
    }

    /// The state after a write, as for [`Self::after_read`].
    pub open spec fn after_write(
        self,
        space: MemSpace,
        addr: u64,
        width: u64,
        thread: ThreadId,
        pc: InstrId,
        same_value: bool,
    ) -> RaceState {
        let current = AccessSite { thread, pc, is_write: true };
        if self.write_pre_hazard(space, addr, width, current) is Some {
            self
        } else {
            match self.first_write_race(space, addr, width, thread.0, same_value) {
                Some(b) => self.mark_written(space, addr, b as int, thread.0, pc),
                None => self.mark_written(space, addr, addr + width, thread.0, pc),
            }
        }
    }
}

impl RaceState {
    /// The shared bytes `[addr, addr + width)` written through the generic
    /// proxy.
    pub open spec fn mark_generic(
        self,
        addr: u64,
        to: int,
        site: AccessSite,
    ) -> RaceState {
        RaceState {
            generic_unfenced: Map::new(
                |b: u64| self.generic_unfenced.contains_key(b) || addr <= b < to,
                |b: u64|
                    if addr <= b < to {
                        site
                    } else {
                        self.generic_unfenced[b]
                    },
            ),
            ..self
        }
    }

    /// The bytes `[addr, to)` written through the async proxy, which
    /// supersedes a generic-proxy mark of the same bytes.
    pub open spec fn mark_async(
        self,
        space: MemSpace,
        addr: u64,
        to: int,
        site: AccessSite,
    ) -> RaceState {
        RaceState {
            async_unfenced: Map::new(
                |k: (MemSpace, u64)|
                    self.async_unfenced.contains_key(k) || (k.0 == space && addr <= k.1 < to),
                |k: (MemSpace, u64)|
                    if k.0 == space && addr <= k.1 < to {
                        (site, full_set(self.n_threads))
                    } else {
                        self.async_unfenced[k]
                    },
            ),
            generic_unfenced: Map::new(
                |b: u64|
                    self.generic_unfenced.contains_key(b) && !(space == MemSpace::Shared && addr <= b
                        < to),
                |b: u64| self.generic_unfenced[b],
            ),
            ..self
        }
    }

    /// `fence.proxy.async` by `t`: its generic-proxy writes to shared memory
    /// are released, and its bit leaves every matching async-proxy mark, a
    /// mark without bits being dropped.
    pub open spec fn fence(self, t: ThreadId, restrict: Option<MemSpace>) -> RaceState {
        RaceState {
            generic_unfenced: Map::new(
                |b: u64|
                    self.generic_unfenced.contains_key(b) && !(fence_covers(
                        restrict,
                        MemSpace::Shared,
                    ) && self.generic_unfenced[b].thread == t),
                |b: u64| self.generic_unfenced[b],
            ),
            async_unfenced: Map::new(
                |k: (MemSpace, u64)|
                    self.async_unfenced.contains_key(k) && fenced_pending(
                        self.async_unfenced[k].1,
                        k.0,
                        t,
                        restrict,
                    ) != Set::<usize>::empty(),
                |k: (MemSpace, u64)|
                    (
                        self.async_unfenced[k].0,
                        fenced_pending(self.async_unfenced[k].1, k.0, t, restrict),
                    ),
            ),
            ..self
        }
    }

    /// The destination range `[addr, to)` locked by a copy.
    pub open spec fn locked_dst(
        self,
        space: MemSpace,
        addr: u64,
        to: int,
        holder: (ThreadId, InstrId),
    ) -> RaceState {
        RaceState {
            locks: Map::new(
                |k: (MemSpace, u64)| true,
                |k: (MemSpace, u64)|
                    if k.0 == space && addr <= k.1 < to {
                        Locks { dst: Some(holder), src: self.locks[k].src }
                    } else {
                        self.locks[k]
                    },
            ),
            ..self
        }
    }

    /// The source range `[addr, to)` locked by a copy.
    pub open spec fn locked_src(
        self,
        space: MemSpace,
        addr: u64,
        to: int,
        holder: (ThreadId, InstrId),
    ) -> RaceState {
        RaceState {
            locks: Map::new(
                |k: (MemSpace, u64)| true,
                |k: (MemSpace, u64)|
                    if k.0 == space && addr <= k.1 < to {
                        Locks { dst: self.locks[k].dst, src: self.locks[k].src.push(holder) }
                    } else {
                        self.locks[k]
                    },
            ),
            ..self
        }
    }

    /// The destination range `[addr, to)` released.
    pub open spec fn released_dst(self, space: MemSpace, addr: u64, to: int) -> RaceState {
        RaceState {
            locks: Map::new(
                |k: (MemSpace, u64)| true,
                |k: (MemSpace, u64)|
                    if k.0 == space && addr <= k.1 < to {
                        Locks { dst: None, src: self.locks[k].src }
                    } else {
                        self.locks[k]
                    },
            ),
            ..self
        }
    }

    /// One source lock of `holder` released on each byte of `[addr, to)`.
    pub open spec fn released_src(
        self,
        space: MemSpace,
        addr: u64,
        to: int,
        holder: (ThreadId, InstrId),
    ) -> RaceState {
        RaceState {
            locks: Map::new(
                |k: (MemSpace, u64)| true,
                |k: (MemSpace, u64)|
                    if k.0 == space && addr <= k.1 < to {
                        Locks {
                            dst: self.locks[k].dst,
                            src: without_holder(self.locks[k].src, holder),
                        }
                    } else {
                        self.locks[k]
                    },
            ),
            ..self
        }
    }

    /// The full CTA synchronized: no access is pending any more.
    pub open spec fn synced_all(self) -> RaceState {
        RaceState {
            chi: Map::new(|k: (MemSpace, u64)| true, |k: (MemSpace, u64)| no_chi()),
            ..self
        }
    }

    /// The threads of `group` synchronized.
    pub open spec fn synced_group(self, group: Set<usize>) -> RaceState {
        RaceState {
            chi: Map::new(
                |k: (MemSpace, u64)| true,
                |k: (MemSpace, u64)| sync_chi(self.chi[k], group),
            ),
            ..self
        }
    }

    /// An mbarrier phase's waiters synchronized with its participants, in one
    /// pass. Without a waiter nobody synchronizes.
    pub open spec fn synced_waiters(
        self,
        participants: Set<usize>,
        waiters: Set<usize>,
    ) -> RaceState {
        if waiters == Set::<usize>::empty() {
            self
        } else {
            RaceState {
                chi: Map::new(
                    |k: (MemSpace, u64)| true,
                    |k: (MemSpace, u64)| sync_waiters_chi(self.chi[k], participants, waiters),
                ),
                ..self
            }
        }
    }

    /// The waiters `ws` synchronized with the participants one after the
    /// other.
    pub open spec fn synced_each(self, participants: Set<usize>, ws: Seq<usize>) -> RaceState
        decreases ws.len(),
    {
        if ws.len() == 0 {
            self
        } else {
            self.synced_each(participants, ws.drop_last()).synced_group(
                participants.insert(ws.last()),
            )
        }
    }

    /// The pending access that a new Tensor Memory access conflicts with.
    pub open spec fn tcgen05_conflict(
        self,
        quadrant: u32,
        start_col: u32,
        num_cols: u32,
        is_st: bool,
    ) -> Option<AccessSite> {
        let q = self.tcgen05[quadrant as int];
        match first_overlap(q.ld, 0, start_col, num_cols) {
            Some(site) if is_st => Some(site),
            _ => first_overlap(q.st, 0, start_col, num_cols),
        }
    }

    /// A Tensor Memory access recorded as pending.
    pub open spec fn tcgen05_pending(
        self,
        quadrant: u32,
        is_st: bool,
        entry: (u32, u32, AccessSite),
    ) -> RaceState {
        let q = self.tcgen05[quadrant as int];
        RaceState {
            tcgen05: self.tcgen05.update(
                quadrant as int,
                if is_st {
                    Footprints { ld: q.ld, st: q.st.push(entry) }
                } else {
                    Footprints { ld: q.ld.push(entry), st: q.st }
                },
            ),
            ..self
        }
    }

    /// Every pending `.ld` or `.st` of the quadrant released.
    pub open spec fn tcgen05_released(self, quadrant: u32, is_st: bool) -> RaceState {
        let q = self.tcgen05[quadrant as int];
        RaceState {
            tcgen05: self.tcgen05.update(
                quadrant as int,
                if is_st {
                    Footprints { ld: q.ld, st: Seq::empty() }
                } else {
                    Footprints { ld: Seq::empty(), st: q.st }
                },
            ),
            ..self
        }
    }
}

/// Whether a fence restricted to `restrict` covers `space`.
pub open spec fn fence_covers(restrict: Option<MemSpace>, space: MemSpace) -> bool {
    restrict matches Some(r) ==> r == space
}

/// The threads that still have to fence a mark after `t` fenced.
pub open spec fn fenced_pending(
    pending: Set<usize>,
    space: MemSpace,
    t: ThreadId,
    restrict: Option<MemSpace>,
) -> Set<usize> {
    if fence_covers(restrict, space) {
        pending.remove(t.0 as usize)
    } else {
        pending
    }
}

/// Position of the first occurrence of `holder`.
pub open spec fn holder_index(
    s: Seq<(ThreadId, InstrId)>,
    i: int,
    holder: (ThreadId, InstrId),
) -> int
    decreases s.len() - i,
{
    if i >= s.len() {
        s.len() as int
    } else if s[i] == holder {
        i
    } else {
        holder_index(s, i + 1, holder)
    }
}

/// `s` without its first occurrence of `holder`, whose place the last element
/// takes.
pub open spec fn without_holder(
    s: Seq<(ThreadId, InstrId)>,
    holder: (ThreadId, InstrId),
) -> Seq<(ThreadId, InstrId)> {
    let i = holder_index(s, 0, holder);
    if i < s.len() {
        s.update(i, s.last()).drop_last()
    } else {
        s
    }
}

/// χ of one byte once the threads of `group` synchronized: the group leaves
/// the pending sets of its members, and an access nobody is pending on is
/// forgotten.
pub open spec fn sync_chi(c: Chi, group: Set<usize>) -> Chi {
    Chi {
        rd: Map::new(
            |r: u32|
                c.rd.contains_key(r) && !(group.contains(r as usize) && c.rd[r].0.difference(group)
                    == Set::<usize>::empty()),
            |r: u32|
                if group.contains(r as usize) {
                    (c.rd[r].0.difference(group), c.rd[r].1)
                } else {
                    c.rd[r]
                },
        ),
        wr: match c.wr {
            Some((w, pending, pc)) if group.contains(w as usize) => if pending.difference(group)
                == Set::<usize>::empty() {
                None
            } else {
                Some((w, pending.difference(group), pc))
            },
            _ => c.wr,
        },
    }
}

/// The threads an access by `a` is synchronized with when each of `waiters`
/// synchronizes with `participants`: a participant's accesses lose every
/// group it belongs to, another waiter's only its own group.
pub open spec fn waiter_loss(participants: Set<usize>, waiters: Set<usize>, a: u32) -> Set<usize> {
    if participants.contains(a as usize) {
        participants.union(waiters)
    } else if waiters.contains(a as usize) {
        participants.insert(a as usize)
    } else {
        Set::empty()
    }
}

/// χ of one byte once each of `waiters` synchronized with `participants`.
pub open spec fn sync_waiters_chi(c: Chi, participants: Set<usize>, waiters: Set<usize>) -> Chi {
    Chi {
        rd: Map::new(
            |r: u32|
                c.rd.contains_key(r) && c.rd[r].0.difference(
                    waiter_loss(participants, waiters, r),
                ) != Set::<usize>::empty(),
            |r: u32|
                (c.rd[r].0.difference(waiter_loss(participants, waiters, r)), c.rd[r].1),
        ),
        wr: match c.wr {
            Some((w, pending, pc)) => {
                let rest = pending.difference(waiter_loss(participants, waiters, w));
                if rest == Set::<usize>::empty() {
                    None
                } else {
                    Some((w, rest, pc))
                }
            },
            None => None,
        },
    }
}

/// The first footprint from position `i` on that overlaps
/// `[start_col, start_col + num_cols)`.
pub open spec fn first_overlap(
    list: Seq<(u32, u32, AccessSite)>,
    i: int,
    start_col: u32,
    num_cols: u32,
) -> Option<AccessSite>
    decreases list.len() - i,
{
    if i >= list.len() {
        None
    } else if list[i].0 < start_col + num_cols && start_col < list[i].0 + list[i].1 {
        Some(list[i].2)
    } else {
        first_overlap(list, i + 1, start_col, num_cols)
    }
}

// ---------------------------------------------------------------------------
// Tracker
// ---------------------------------------------------------------------------

/// In-flight copy locks of one byte.
#[derive(Debug)]
struct AsyncLockCell {
    /// Set while a destination range covers this byte: blocks all access
    /// until released. At most one copy may hold a byte this way.
    dst_holder: Option<(ThreadId, InstrId)>,
    /// Set while a source range covers this byte: blocks writes only.
    /// Multiple in-flight copies may share a source byte for reading.
    src_holders: Vec<(ThreadId, InstrId)>,
}

/// χ state of one byte.
#[derive(Debug)]
struct ChiCell {
    /// reader thread → (threads not yet synced with it, pc of the read)
    rd: HashMap<u32, (FixedBitSet, InstrId)>,
    /// last writer: (thread, threads not yet synced with it, pc of the write)
    wr: Option<(u32, FixedBitSet, InstrId)>,
}

/// One byte's "written via the async proxy, not yet fenced" state.
#[derive(Debug)]
struct AsyncProxyUnfenced {
    site: AccessSite,
    pending: FixedBitSet,
}

/// One lane quadrant's pending Tensor Memory footprints. A pending `.st`
/// blocks any overlapping access; a pending `.ld` blocks only an overlapping
/// `.st`.
#[derive(Debug)]
struct Tcgen05Pending {
    ld: Vec<(u32, u32, AccessSite)>,
    st: Vec<(u32, u32, AccessSite)>,
}

impl AsyncLockCell {
    spec fn model(&self) -> Locks {
        Locks { dst: self.dst_holder, src: self.src_holders@ }
    }
}

spec fn wr_model(wr: Option<(u32, FixedBitSet, InstrId)>) -> Option<(u32, Set<usize>, InstrId)> {
    match wr {
        Some((w, pending, pc)) => Some((w, bits(pending), pc)),
        None => None,
    }
}

spec fn rd_model(rd: Map<u32, (FixedBitSet, InstrId)>) -> Map<u32, (Set<usize>, InstrId)> {
    rd.map_values(|e: (FixedBitSet, InstrId)| (bits(e.0), e.1))
}

/// A pending set: of the CTA's length, with no stray bits, and empty only in
/// a CTA without threads.
spec fn pending_wf(s: FixedBitSet, n: usize) -> bool {
    &&& bitset_len(s) == n
    &&& bitset_blocks(s).subset_of(full_set(n))
    &&& n > 0 ==> bitset_blocks(s) != Set::<usize>::empty()
}

impl ChiCell {
    spec fn model(&self) -> Chi {
        Chi { rd: rd_model(self.rd@), wr: wr_model(self.wr) }
    }

    spec fn wf(&self, n: usize) -> bool {
        &&& forall|r: u32| #[trigger] self.rd@.contains_key(r) ==> pending_wf(self.rd@[r].0, n)
        &&& self.wr matches Some((w, pending, pc)) ==> pending_wf(pending, n)
    }

    fn empty() -> (c: ChiCell)
        ensures
            c.model() == no_chi(),
            forall|n: usize| c.wf(n),
    {
        let c = ChiCell { rd: HashMap::new(), wr: None };
        assert(c.model().rd =~= no_chi().rd);
        c
    }
}

spec fn footprints_model(p: Tcgen05Pending) -> Footprints {
    Footprints { ld: p.ld@, st: p.st@ }
}

spec fn footprints_wf(list: Seq<(u32, u32, AccessSite)>) -> bool {
    forall|i: int| 0 <= i < list.len() ==> (#[trigger] list[i]).0 + list[i].1 <= u32::MAX
}

spec fn pending_footprints_wf(p: Tcgen05Pending) -> bool {
    footprints_wf(p.ld@) && footprints_wf(p.st@)
}

spec fn chi_model(m: Map<(MemSpace, u64), ChiCell>) -> Map<(MemSpace, u64), Chi> {
    Map::new(
        |k: (MemSpace, u64)| true,
        |k: (MemSpace, u64)|
            if m.contains_key(k) {
                m[k].model()
            } else {
                no_chi()
            },
    )
}

spec fn locks_model(m: Map<(MemSpace, u64), AsyncLockCell>) -> Map<(MemSpace, u64), Locks> {
    Map::new(
        |k: (MemSpace, u64)| true,
        |k: (MemSpace, u64)|
            if m.contains_key(k) {
                m[k].model()
            } else {
                no_locks()
            },
    )
}

spec fn unfenced_model(m: Map<(MemSpace, u64), AsyncProxyUnfenced>) -> Map<
    (MemSpace, u64),
    (AccessSite, Set<usize>),
> {
    m.map_values(|c: AsyncProxyUnfenced| (c.site, bits(c.pending)))
}

/// χ-context tracker over all racy memory (shared + global), plus in-flight
/// `cp.async` lock state, plus in-flight `tcgen05.ld`/`.st` lock state.
#[derive(Debug)]
pub struct RaceTracker {
    n_threads: usize,
    /// Precomputed full thread set.
    all: FixedBitSet,
    cells: SpaceMap<ChiCell>,
    async_locks: SpaceMap<AsyncLockCell>,
    /// Indexed by quadrant `0..4`.
    tcgen05_pending: Vec<Tcgen05Pending>,
    async_proxy_unfenced: SpaceMap<AsyncProxyUnfenced>,
    generic_unfenced: HashMap<u64, AccessSite>,
}

impl View for RaceTracker {
    type V = RaceState;

    closed spec fn view(&self) -> RaceState {
        RaceState {
            n_threads: self.n_threads,
            chi: chi_model(self.cells@),
            locks: locks_model(self.async_locks@),
            tcgen05: self.tcgen05_pending@.map_values(|p: Tcgen05Pending| footprints_model(p)),
            async_unfenced: unfenced_model(self.async_proxy_unfenced@),
            generic_unfenced: self.generic_unfenced@,
        }
    }
}

impl RaceTracker {
    /// Validity of a tracker.
    pub closed spec fn wf(&self) -> bool {
        &&& self.cells.wf()
        &&& self.async_locks.wf()
        &&& self.async_proxy_unfenced.wf()
        &&& bitset_len(self.all) == self.n_threads
        &&& bitset_blocks(self.all) == full_set(self.n_threads)
        &&& forall|k: (MemSpace, u64)| #[trigger]
            self.cells@.contains_key(k) ==> self.cells@[k].wf(self.n_threads)
        &&& forall|k: (MemSpace, u64)| #[trigger]
            self.async_proxy_unfenced@.contains_key(k) ==> {
                &&& bitset_len(self.async_proxy_unfenced@[k].pending) == self.n_threads
                &&& bitset_blocks(self.async_proxy_unfenced@[k].pending).subset_of(
                    full_set(self.n_threads),
                )
            }
        &&& self.tcgen05_pending@.len() == 4
        &&& forall|q: int|
            0 <= q < self.tcgen05_pending@.len() ==> pending_footprints_wf(
                #[trigger] self.tcgen05_pending@[q],
            )
    }

    pub fn new(n_threads: usize) -> (r: Self)
        ensures
            r.wf(),
            r@ == RaceState::initial(n_threads),
    {
        let mut all = FixedBitSet::with_capacity(n_threads);
        fill(&mut all);
        assert(bitset_blocks(all) =~= full_set(n_threads));
        let mut tcgen05_pending: Vec<Tcgen05Pending> = Vec::new();
        tcgen05_pending.push(Tcgen05Pending { ld: Vec::new(), st: Vec::new() });
        tcgen05_pending.push(Tcgen05Pending { ld: Vec::new(), st: Vec::new() });
        tcgen05_pending.push(Tcgen05Pending { ld: Vec::new(), st: Vec::new() });
        tcgen05_pending.push(Tcgen05Pending { ld: Vec::new(), st: Vec::new() });
        let r = RaceTracker {
            n_threads,
            all,
            cells: SpaceMap::new(),
            async_locks: SpaceMap::new(),
            tcgen05_pending,
            async_proxy_unfenced: SpaceMap::new(),
            generic_unfenced: HashMap::new(),
        };
        assert(r@ =~~= RaceState::initial(n_threads));
        r
    }

    /// Whether `reader` has a recorded read of the byte that `t` has not
    /// synchronized with.
    pub fn read_pending(&self, space: MemSpace, addr: u64, reader: u32, t: usize) -> (r: bool)
        ensures
            r == (self@.chi[(space, addr)].rd.contains_key(reader) && self@.chi[(
                space,
                addr,
            )].rd[reader].0.contains(t)),
    {
        match self.cells.get(space, addr) {
            None => false,
            Some(cell) => match cell.rd.get(&reader) {
                None => false,
                Some(e) => e.0.contains(t),
            },
        }
    }

    /// The last writer of the byte.
    pub fn last_writer(&self, space: MemSpace, addr: u64) -> (r: Option<u32>)
        ensures
            r == (match self@.chi[(space, addr)].wr {
                Some((w, _, _)) => Some(w),
                None => None,
            }),
    {
        match self.cells.get(space, addr) {
            None => None,
            Some(cell) => match &cell.wr {
                None => None,
                Some(e) => Some(e.0),
            },
        }
    }

    /// Whether `t` has not synchronized with the byte's last writer.
    pub fn write_pending(&self, space: MemSpace, addr: u64, t: usize) -> (r: bool)
        ensures
            r == (self@.chi[(space, addr)].wr matches Some((_, pending, _)) && pending.contains(
                t,
            )),
    {
        match self.cells.get(space, addr) {
            None => false,
            Some(cell) => match &cell.wr {
                None => false,
                Some(e) => e.1.contains(t),
            },
        }
    }


    /// [`Self::read_via`] through the generic proxy.
    pub fn read(
        &mut self,
        space: MemSpace,
        addr: u64,
        width: u64,
        thread: ThreadId,
        pc: InstrId,
    ) -> (r: Result<(), MemHazard>)
        requires
            old(self).wf(),
            addr + width <= u64::MAX,
        ensures
            final(self).wf(),
            r == (match old(self)@.read_hazard(space, addr, width, thread, pc, Proxy::Generic) {
                Some(h) => Err::<(), MemHazard>(h),
                None => Ok(()),
            }),
            final(self)@ == old(self)@.after_read(space, addr, width, thread, pc, Proxy::Generic),
    {
        self.read_via(space, addr, width, thread, pc, Proxy::Generic)
    }

    /// Record a read of `[addr, addr + width)` by `thread`, checking for a
    /// race with the last writer of each byte, for an in-flight copy, and for
    /// the fence that the proxy needs.
    pub fn read_via(
        &mut self,
        space: MemSpace,
        addr: u64,
        width: u64,
        thread: ThreadId,
        pc: InstrId,
        proxy: Proxy,
    ) -> (r: Result<(), MemHazard>)
        requires
            old(self).wf(),
            addr + width <= u64::MAX,
        ensures
            final(self).wf(),
            r == (match old(self)@.read_hazard(space, addr, width, thread, pc, proxy) {
                Some(h) => Err::<(), MemHazard>(h),
                None => Ok(()),
            }),
            final(self)@ == old(self)@.after_read(space, addr, width, thread, pc, proxy),
    {
        let t: u32 = thread.0;
        let end: u64 = addr + width;
        let current = AccessSite { thread, pc, is_write: false };
        match self.check_dst_locks(space, addr, width, current) {
            Err(h) => {
                return Err(h);
            },
            Ok(_) => {},
        }
        let fenced = match proxy {
            Proxy::Generic => self.check_async_proxy_fence(space, addr, width, current),
            Proxy::Async => self.check_generic_proxy_fence(space, addr, width, current),
        };
        match fenced {
            Err(h) => {
                return Err(h);
            },
            Ok(_) => {},
        }
        let ghost p = |b: u64| read_races(old(self)@.chi[(space, b)], t);
        let mut byte: u64 = addr;
        assert(self@ =~~= old(self)@.mark_read(space, addr, addr as int, t, pc));
        while byte < end
            invariant
                addr <= byte <= end,
                end == addr + width,
                t == thread.0,
                current == (AccessSite { thread, pc, is_write: false }),
                self.wf(),
                self@ == old(self)@.mark_read(space, addr, byte as int, t, pc),
                p == |b: u64| read_races(old(self)@.chi[(space, b)], t),
                first_byte(addr as int, end as int, p) == first_byte(byte as int, end as int, p),
                old(self)@.read_pre_hazard(space, addr, width, current, proxy) is None,
            decreases end - byte,
        {
            proof {
                assert(self@.chi[(space, byte)] == old(self)@.chi[(space, byte)]);
            }
            match self.cells.get(space, byte) {
                Some(cell) => {
                    match &cell.wr {
                        Some((writer, pending, wpc)) => {
                            if *writer != t && pending.contains(t as usize) {
                                assert(p(byte));
                                return Err(
                                    MemHazard::Race(
                                        RaceInfo {
                                            space,
                                            addr: byte,
                                            prior: AccessSite {
                                                thread: ThreadId(*writer),
                                                pc: *wpc,
                                                is_write: true,
                                            },
                                            current,
                                        },
                                    ),
                                );
                            }
                        },
                        None => {},
                    }
                },
                None => {},
            }
            assert(!p(byte));
            let ghost before = self@;
            let mut cell = self.take_cell(space, byte);
            let ghost rd0 = cell.rd@;
            cell.rd.insert(t, (self.all.clone(), pc));
            proof {
                assert(bits(cell.rd@[t].0) =~= full_set(self.n_threads));
                if self.n_threads > 0 {
                    assert(full_set(self.n_threads).contains(0usize));
                }
                assert(rd_model(cell.rd@) =~= rd_model(rd0).insert(
                    t,
                    (full_set(self.n_threads), pc),
                ));
            }
            self.put_cell(space, byte, cell);
            byte = byte + 1;
            assert(self@ =~~= old(self)@.mark_read(space, addr, byte as int, t, pc));
        }
        Ok(())
    }

    /// The cell of one byte, taken out of the map.
    fn take_cell(&mut self, space: MemSpace, addr: u64) -> (c: ChiCell)
        requires
            old(self).wf(),
        ensures
            final(self).wf(),
            c.wf(old(self).n_threads),
            c.model() == old(self)@.chi[(space, addr)],
            final(self)@ == (RaceState {
                chi: old(self)@.chi.insert((space, addr), no_chi()),
                ..old(self)@
            }),
            final(self).n_threads == old(self).n_threads,
            final(self).all == old(self).all,
    {
        let r = self.cells.remove(space, addr);
        let c = match r {
            Some(c) => c,
            None => ChiCell::empty(),
        };
        assert(self@.chi =~= old(self)@.chi.insert((space, addr), no_chi()));
        c
    }

    /// Stores the cell of one byte.
    fn put_cell(&mut self, space: MemSpace, addr: u64, c: ChiCell)
        requires
            old(self).wf(),
            c.wf(old(self).n_threads),
        ensures
            final(self).wf(),
            final(self)@ == (RaceState {
                chi: old(self)@.chi.insert((space, addr), c.model()),
                ..old(self)@
            }),
            final(self).n_threads == old(self).n_threads,
            final(self).all == old(self).all,
    {
        self.cells.insert(space, addr, c);
        assert(self@.chi =~= old(self)@.chi.insert((space, addr), c.model()));
    }

    /// Check `[addr, addr + width)` against destination locks.
    fn check_dst_locks(
        &self,
        space: MemSpace,
        addr: u64,
        width: u64,
        current: AccessSite,
    ) -> (r: Result<(), MemHazard>)
        requires
            self.wf(),
            addr + width <= u64::MAX,
        ensures
            r == (match self@.first_dst_locked(space, addr, width) {
                Some(b) => Err::<(), MemHazard>(
                    MemHazard::AsyncCopy(
                        AsyncHazardInfo {
                            space,
                            addr: b,
                            prior: AccessSite {
                                thread: (self@.locks[(space, b)].dst->0).0,
                                pc: (self@.locks[(space, b)].dst->0).1,
                                is_write: true,
                            },
                            current,
                        },
                    ),
                ),
                None => Ok(()),
            }),
    {
        let end: u64 = addr + width;
        let ghost p = |b: u64| self@.locks[(space, b)].dst is Some;
        let mut byte: u64 = addr;
        while byte < end
            invariant
                addr <= byte <= end,
                end == addr + width,
                self.wf(),
                p == |b: u64| self@.locks[(space, b)].dst is Some,
                first_byte(addr as int, end as int, p) == first_byte(byte as int, end as int, p),
            decreases end - byte,
        {
            match self.async_locks.get(space, byte) {
                Some(cell) => {
                    match cell.dst_holder {
                        Some((holder, hpc)) => {
                            assert(p(byte));
                            return Err(
                                MemHazard::AsyncCopy(
                                    AsyncHazardInfo {
                                        space,
                                        addr: byte,
                                        prior: AccessSite {
                                            thread: holder,
                                            pc: hpc,
                                            is_write: true,
                                        },
                                        current,
                                    },
                                ),
                            );
                        },
                        None => {},
                    }
                },
                None => {},
            }
            assert(!p(byte));
            byte = byte + 1;
        }
        Ok(())
    }

    /// Check `[addr, addr + width)` against outstanding unfenced async-proxy
    /// writes.
    fn check_async_proxy_fence(
        &self,
        space: MemSpace,
        addr: u64,
        width: u64,
        current: AccessSite,
    ) -> (r: Result<(), MemHazard>)
        requires
            self.wf(),
            addr + width <= u64::MAX,
        ensures
            r == (match self@.async_fence_hazard(space, addr, width, current) {
                Some(h) => Err::<(), MemHazard>(h),
                None => Ok(()),
            }),
    {
        let t: u32 = current.thread.0;
        let end: u64 = addr + width;
        let ghost p = |b: u64|
            self@.async_unfenced.contains_key((space, b)) && self@.async_unfenced[(
                space,
                b,
            )].1.contains(t as usize);
        let mut byte: u64 = addr;
        while byte < end
            invariant
                addr <= byte <= end,
                end == addr + width,
                t == current.thread.0,
                self.wf(),
                p == |b: u64|
                    self@.async_unfenced.contains_key((space, b)) && self@.async_unfenced[(
                        space,
                        b,
                    )].1.contains(t as usize),
                first_byte(addr as int, end as int, p) == first_byte(byte as int, end as int, p),
            decreases end - byte,
        {
            match self.async_proxy_unfenced.get(space, byte) {
                Some(cell) => {
                    if cell.pending.contains(t as usize) {
                        assert(p(byte));
                        return Err(
                            MemHazard::AsyncProxyUnfenced(
                                AsyncProxyFenceHazardInfo {
                                    space,
                                    addr: byte,
                                    prior: cell.site,
                                    current,
                                },
                            ),
                        );
                    }
                },
                None => {},
            }
            assert(!p(byte));
            byte = byte + 1;
        }
        Ok(())
    }

    /// The writer-side counterpart of [`Self::check_async_proxy_fence`], for
    /// an async-proxy read: generic-proxy writes become visible to the async
    /// proxy only once their *writer* executes `fence.proxy.async`, so an
    /// unfenced byte is a hazard whoever reads it.
    fn check_generic_proxy_fence(
        &self,
        space: MemSpace,
        addr: u64,
        width: u64,
        current: AccessSite,
    ) -> (r: Result<(), MemHazard>)
        requires
            self.wf(),
            addr + width <= u64::MAX,
        ensures
            r == (match self@.generic_fence_hazard(space, addr, width, current) {
                Some(h) => Err::<(), MemHazard>(h),
                None => Ok(()),
            }),
    {
        if space != MemSpace::Shared {
            return Ok(());
        }
        let end: u64 = addr + width;
        let ghost p = |b: u64| self@.generic_unfenced.contains_key(b);
        let mut byte: u64 = addr;
        while byte < end
            invariant
                addr <= byte <= end,
                end == addr + width,
                space == MemSpace::Shared,
                self.wf(),
                p == |b: u64| self@.generic_unfenced.contains_key(b),
                first_byte(addr as int, end as int, p) == first_byte(byte as int, end as int, p),
            decreases end - byte,
        {
            match self.generic_unfenced.get(&byte) {
                Some(prior) => {
                    assert(p(byte));
                    return Err(
                        MemHazard::GenericProxyUnfenced(
                            AsyncProxyFenceHazardInfo { space, addr: byte, prior: *prior, current },
                        ),
                    );
                },
                None => {},
            }
            assert(!p(byte));
            byte = byte + 1;
        }
        Ok(())
    }
}

impl RaceTracker {
    /// [`Self::write_with`] where the stored value may differ from what the
    /// bytes hold.
    pub fn write(
        &mut self,
        space: MemSpace,
        addr: u64,
        width: u64,
        thread: ThreadId,
        pc: InstrId,
    ) -> (r: Result<(), MemHazard>)
        requires
            old(self).wf(),
            addr + width <= u64::MAX,
        ensures
            final(self).wf(),
            r == (match old(self)@.write_hazard(space, addr, width, thread, pc, false) {
                Some(h) => Err::<(), MemHazard>(h),
                None => Ok(()),
            }),
            final(self)@ == old(self)@.after_write(space, addr, width, thread, pc, false),
    {
        self.write_with(space, addr, width, thread, pc, false)
    }

    /// Record a write of `[addr, addr + width)` by `thread`, checking for a
    /// race with every recorded reader and the last writer of each byte. The
    /// read sets are left unchanged.
    ///
    /// `same_value` is set when the bytes already hold exactly the value
    /// being written. Such a write cannot change the outcome whichever order
    /// the writers run in, so a write-write conflict with the previous writer
    /// is not a race. Conflicts with readers and with in-flight copies are
    /// still reported.
    pub fn write_with(
        &mut self,
        space: MemSpace,
        addr: u64,
        width: u64,
        thread: ThreadId,
        pc: InstrId,
        same_value: bool,
    ) -> (r: Result<(), MemHazard>)
        requires
            old(self).wf(),
            addr + width <= u64::MAX,
        ensures
            final(self).wf(),
            r == (match old(self)@.write_hazard(space, addr, width, thread, pc, same_value) {
                Some(h) => Err::<(), MemHazard>(h),
                None => Ok(()),
            }),
            final(self)@ == old(self)@.after_write(space, addr, width, thread, pc, same_value),
    {
        let t: u32 = thread.0;
        let end: u64 = addr + width;
        let current = AccessSite { thread, pc, is_write: true };
        match self.check_write_locks(space, addr, width, current) {
            Err(h) => {
                return Err(h);
            },
            Ok(_) => {},
        }
        match self.check_async_proxy_fence(space, addr, width, current) {
            Err(h) => {
                return Err(h);
            },
            Ok(_) => {},
        }
        let ghost p = |b: u64| write_conflict(old(self)@.chi[(space, b)], t, same_value) is Some;
        let mut byte: u64 = addr;
        assert(self@ =~~= old(self)@.mark_written(space, addr, addr as int, t, pc));
        while byte < end
            invariant
                addr <= byte <= end,
                end == addr + width,
                t == thread.0,
                current == (AccessSite { thread, pc, is_write: true }),
                self.wf(),
                self@ == old(self)@.mark_written(space, addr, byte as int, t, pc),
                p == |b: u64|
                    write_conflict(old(self)@.chi[(space, b)], t, same_value) is Some,
                first_byte(addr as int, end as int, p) == first_byte(byte as int, end as int, p),
                old(self)@.write_pre_hazard(space, addr, width, current) is None,
            decreases end - byte,
        {
            proof {
                assert(self@.chi[(space, byte)] == old(self)@.chi[(space, byte)]);
            }
            match self.find_write_conflict(space, byte, t, same_value) {
                Some(prior) => {
                    assert(p(byte));
                    return Err(MemHazard::Race(RaceInfo { space, addr: byte, prior, current }));
                },
                None => {},
            }
            assert(!p(byte));
            let mut cell = self.take_cell(space, byte);
            cell.wr = Some((t, self.all.clone(), pc));
            proof {
                assert(bits((cell.wr->0).1) =~= full_set(self.n_threads));
                if self.n_threads > 0 {
                    assert(full_set(self.n_threads).contains(0usize));
                }
            }
            self.put_cell(space, byte, cell);
            byte = byte + 1;
            assert(self@ =~~= old(self)@.mark_written(space, addr, byte as int, t, pc));
        }
        Ok(())
    }

    /// The access that a write of one byte by `t` races with. Among the
    /// readers the lowest-numbered one is reported, so that the diagnostic
    /// does not depend on the order in which the map is walked.
    fn find_write_conflict(&self, space: MemSpace, addr: u64, t: u32, same_value: bool) -> (r:
        Option<AccessSite>)
        requires
            self.wf(),
        ensures
            r == write_conflict(self@.chi[(space, addr)], t, same_value),
    {
        let cell = match self.cells.get(space, addr) {
            Some(cell) => cell,
            None => {
                return None;
            },
        };
        let ghost c = cell.model();
        match lowest_conflicting_reader(cell, t) {
            Some((reader, rpc)) => {
                return Some(AccessSite { thread: ThreadId(reader), pc: rpc, is_write: false });
            },
            None => {},
        }
        if !same_value {
            match &cell.wr {
                Some((writer, pending, wpc)) => {
                    if *writer != t && pending.contains(t as usize) {
                        return Some(
                            AccessSite { thread: ThreadId(*writer), pc: *wpc, is_write: true },
                        );
                    }
                },
                None => {},
            }
        }
        None
    }

    /// Check `[addr, addr + width)` against destination and source locks.
    fn check_write_locks(
        &self,
        space: MemSpace,
        addr: u64,
        width: u64,
        current: AccessSite,
    ) -> (r: Result<(), MemHazard>)
        requires
            self.wf(),
            addr + width <= u64::MAX,
        ensures
            r == (match self@.first_locked(space, addr, width) {
                Some(b) => Err::<(), MemHazard>(
                    MemHazard::AsyncCopy(
                        AsyncHazardInfo {
                            space,
                            addr: b,
                            prior: write_lock(self@.locks[(space, b)])->0,
                            current,
                        },
                    ),
                ),
                None => Ok(()),
            }),
    {
        let end: u64 = addr + width;
        let ghost p = |b: u64| write_lock(self@.locks[(space, b)]) is Some;
        let mut byte: u64 = addr;
        while byte < end
            invariant
                addr <= byte <= end,
                end == addr + width,
                self.wf(),
                p == |b: u64| write_lock(self@.locks[(space, b)]) is Some,
                first_byte(addr as int, end as int, p) == first_byte(byte as int, end as int, p),
            decreases end - byte,
        {
            let prior = match self.async_locks.get(space, byte) {
                Some(cell) => {
                    match cell.dst_holder {
                        Some((holder, hpc)) => Some(
                            AccessSite { thread: holder, pc: hpc, is_write: true },
                        ),
                        None => {
                            if cell.src_holders.len() > 0 {
                                let (holder, hpc) = cell.src_holders[0];
                                Some(AccessSite { thread: holder, pc: hpc, is_write: false })
                            } else {
                                None
                            }
                        },
                    }
                },
                None => None,
            };
            match prior {
                Some(prior) => {
                    assert(p(byte));
                    return Err(
                        MemHazard::AsyncCopy(
                            AsyncHazardInfo { space, addr: byte, prior, current },
                        ),
                    );
                },
                None => {},
            }
            assert(!p(byte));
            byte = byte + 1;
        }
        Ok(())
    }

    /// Mark shared `[addr, addr + width)` as written through the generic
    /// proxy by `thread` and not yet fenced.
    pub fn mark_generic_unfenced(&mut self, addr: u64, width: u64, thread: ThreadId, pc: InstrId)
        requires
            old(self).wf(),
            addr + width <= u64::MAX,
        ensures
            final(self).wf(),
            final(self)@ == old(self)@.mark_generic(
                addr,
                addr + width,
                AccessSite { thread, pc, is_write: true },
            ),
    {
        let site = AccessSite { thread, pc, is_write: true };
        let end: u64 = addr + width;
        let mut byte: u64 = addr;
        assert(self@ =~~= old(self)@.mark_generic(addr, addr as int, site));
        while byte < end
            invariant
                addr <= byte <= end,
                self.wf(),
                self@ == old(self)@.mark_generic(addr, byte as int, site),
            decreases end - byte,
        {
            self.generic_unfenced.insert(byte, site);
            byte = byte + 1;
            assert(self@ =~~= old(self)@.mark_generic(addr, byte as int, site));
        }
    }

    /// Mark `[addr, addr + width)` as written via the async proxy but not yet
    /// fenced, by any thread. An async-proxy write to shared bytes supersedes
    /// their generic-proxy mark.
    pub fn mark_async_proxy_unfenced(
        &mut self,
        space: MemSpace,
        addr: u64,
        width: u64,
        thread: ThreadId,
        pc: InstrId,
    )
        requires
            old(self).wf(),
            addr + width <= u64::MAX,
        ensures
            final(self).wf(),
            final(self)@ == old(self)@.mark_async(
                space,
                addr,
                addr + width,
                AccessSite { thread, pc, is_write: true },
            ),
    {
        let site = AccessSite { thread, pc, is_write: true };
        let end: u64 = addr + width;
        let mut byte: u64 = addr;
        assert(self@ =~~= old(self)@.mark_async(space, addr, addr as int, site));
        while byte < end
            invariant
                addr <= byte <= end,
                self.wf(),
                self@ == old(self)@.mark_async(space, addr, byte as int, site),
            decreases end - byte,
        {
            let pending = self.all.clone();
            assert(bits(pending) =~= full_set(self.n_threads));
            let ghost before = self.async_proxy_unfenced@;
            self.async_proxy_unfenced.insert(space, byte, AsyncProxyUnfenced { site, pending });
            assert(unfenced_model(self.async_proxy_unfenced@) =~= unfenced_model(before).insert(
                (space, byte),
                (site, full_set(self.n_threads)),
            ));
            if space == MemSpace::Shared {
                self.generic_unfenced.remove(&byte);
            }
            byte = byte + 1;
            assert(self@ =~~= old(self)@.mark_async(space, addr, byte as int, site));
        }
    }

    /// Lock `[addr, addr + width)` in `space` as a `cp.async` destination:
    /// blocks all access (read or write, by any thread, including the
    /// issuing one) until [`Self::release_dst`] is called for the same range.
    /// Nothing is locked if some byte already is.
    pub fn lock_dst(
        &mut self,
        space: MemSpace,
        addr: u64,
        width: u64,
        thread: ThreadId,
        pc: InstrId,
    ) -> (r: Result<(), MemHazard>)
        requires
            old(self).wf(),
            addr + width <= u64::MAX,
        ensures
            final(self).wf(),
            r == (match old(self)@.first_dst_locked(space, addr, width) {
                Some(b) => Err::<(), MemHazard>(
                    MemHazard::AsyncCopy(
                        AsyncHazardInfo {
                            space,
                            addr: b,
                            prior: AccessSite {
                                thread: (old(self)@.locks[(space, b)].dst->0).0,
                                pc: (old(self)@.locks[(space, b)].dst->0).1,
                                is_write: true,
                            },
                            current: AccessSite { thread, pc, is_write: true },
                        },
                    ),
                ),
                None => Ok(()),
            }),
            final(self)@ == (if old(self)@.first_dst_locked(space, addr, width) is Some {
                old(self)@
            } else {
                old(self)@.locked_dst(space, addr, addr + width, (thread, pc))
            }),
    {
        let current = AccessSite { thread, pc, is_write: true };
        match self.check_dst_locks(space, addr, width, current) {
            Err(h) => {
                return Err(h);
            },
            Ok(_) => {},
        }
        let end: u64 = addr + width;
        let mut byte: u64 = addr;
        assert(self@ =~~= old(self)@.locked_dst(space, addr, addr as int, (thread, pc)));
        while byte < end
            invariant
                addr <= byte <= end,
                end == addr + width,
                self.wf(),
                self@ == old(self)@.locked_dst(space, addr, byte as int, (thread, pc)),
                old(self)@.first_dst_locked(space, addr, width) is None,
            decreases end - byte,
        {
            let mut cell = self.take_locks(space, byte);
            cell.dst_holder = Some((thread, pc));
            self.put_locks(space, byte, cell);
            byte = byte + 1;
            assert(self@ =~~= old(self)@.locked_dst(space, addr, byte as int, (thread, pc)));
        }
        Ok(())
    }

    /// Lock `[addr, addr + width)` in `space` as a `cp.async` source: blocks
    /// writes only.
    pub fn lock_src(
        &mut self,
        space: MemSpace,
        addr: u64,
        width: u64,
        thread: ThreadId,
        pc: InstrId,
    )
        requires
            old(self).wf(),
            addr + width <= u64::MAX,
        ensures
            final(self).wf(),
            final(self)@ == old(self)@.locked_src(space, addr, addr + width, (thread, pc)),
    {
        let end: u64 = addr + width;
        let mut byte: u64 = addr;
        assert(self@ =~~= old(self)@.locked_src(space, addr, addr as int, (thread, pc)));
        while byte < end
            invariant
                addr <= byte <= end,
                self.wf(),
                self@ == old(self)@.locked_src(space, addr, byte as int, (thread, pc)),
            decreases end - byte,
        {
            let mut cell = self.take_locks(space, byte);
            cell.src_holders.push((thread, pc));
            self.put_locks(space, byte, cell);
            byte = byte + 1;
            assert(self@ =~~= old(self)@.locked_src(space, addr, byte as int, (thread, pc)));
        }
    }

    /// Release a destination lock acquired by `lock_dst` for the same
    /// `(thread, pc)`.
    pub fn release_dst(
        &mut self,
        space: MemSpace,
        addr: u64,
        width: u64,
        thread: ThreadId,
        pc: InstrId,
    )
        requires
            old(self).wf(),
            addr + width <= u64::MAX,
        ensures
            final(self).wf(),
            final(self)@ == old(self)@.released_dst(space, addr, addr + width),
    {
        let end: u64 = addr + width;
        let mut byte: u64 = addr;
        assert(self@ =~~= old(self)@.released_dst(space, addr, addr as int));
        while byte < end
            invariant
                addr <= byte <= end,
                self.wf(),
                self@ == old(self)@.released_dst(space, addr, byte as int),
            decreases end - byte,
        {
            let mut cell = self.take_locks(space, byte);
            cell.dst_holder = None;
            if cell.src_holders.len() > 0 {
                self.put_locks(space, byte, cell);
            } else {
                assert(cell.model() =~= no_locks());
            }
            byte = byte + 1;
            assert(self@ =~~= old(self)@.released_dst(space, addr, byte as int));
        }
    }

    /// Release one source lock instance acquired by `lock_src` for the same
    /// `(thread, pc)`.
    pub fn release_src(
        &mut self,
        space: MemSpace,
        addr: u64,
        width: u64,
        thread: ThreadId,
        pc: InstrId,
    )
        requires
            old(self).wf(),
            addr + width <= u64::MAX,
        ensures
            final(self).wf(),
            final(self)@ == old(self)@.released_src(space, addr, addr + width, (thread, pc)),
    {
        let end: u64 = addr + width;
        let mut byte: u64 = addr;
        assert(self@ =~~= old(self)@.released_src(space, addr, addr as int, (thread, pc)));
        while byte < end
            invariant
                addr <= byte <= end,
                self.wf(),
                self@ == old(self)@.released_src(space, addr, byte as int, (thread, pc)),
            decreases end - byte,
        {
            let mut cell = self.take_locks(space, byte);
            remove_holder(&mut cell.src_holders, thread, pc);
            if cell.dst_holder.is_some() || cell.src_holders.len() > 0 {
                self.put_locks(space, byte, cell);
            } else {
                assert(cell.model() =~= no_locks());
            }
            byte = byte + 1;
            assert(self@ =~~= old(self)@.released_src(space, addr, byte as int, (thread, pc)));
        }
    }

    /// The locks of one byte, taken out of the map.
    fn take_locks(&mut self, space: MemSpace, addr: u64) -> (c: AsyncLockCell)
        requires
            old(self).wf(),
        ensures
            final(self).wf(),
            c.model() == old(self)@.locks[(space, addr)],
            final(self)@ == (RaceState {
                locks: old(self)@.locks.insert((space, addr), no_locks()),
                ..old(self)@
            }),
    {
        let r = self.async_locks.remove(space, addr);
        let c = match r {
            Some(c) => c,
            None => AsyncLockCell { dst_holder: None, src_holders: Vec::new() },
        };
        assert(c.model() =~= old(self)@.locks[(space, addr)]);
        assert(self@.locks =~= old(self)@.locks.insert((space, addr), no_locks()));
        c
    }

    /// Stores the locks of one byte.
    fn put_locks(&mut self, space: MemSpace, addr: u64, c: AsyncLockCell)
        requires
            old(self).wf(),
        ensures
            final(self).wf(),
            final(self)@ == (RaceState {
                locks: old(self)@.locks.insert((space, addr), c.model()),
                ..old(self)@
            }),
    {
        self.async_locks.insert(space, addr, c);
        assert(self@.locks =~= old(self)@.locks.insert((space, addr), c.model()));
    }

    /// Synchronize the full CTA: every pending set becomes empty, so drop
    /// all state.
    pub fn sync_all(&mut self)
        requires
            old(self).wf(),
        ensures
            final(self).wf(),
            final(self)@ == old(self)@.synced_all(),
    {
        self.cells.clear();
        assert(self@ =~~= old(self)@.synced_all());
    }

    /// Check `[start_col, start_col + num_cols)` in `quadrant` against
    /// pending Tensor Memory accesses, and record `current` as newly pending
    /// if clear. A pending `.st` conflicts with any overlapping access, a
    /// pending `.ld` only with an overlapping `.st`.
    pub fn tcgen05_begin(
        &mut self,
        quadrant: u32,
        start_col: u32,
        num_cols: u32,
        is_st: bool,
        current: AccessSite,
    ) -> (r: Result<(), Tcgen05HazardInfo>)
        requires
            old(self).wf(),
            quadrant < 4,
            start_col + num_cols <= u32::MAX,
        ensures
            final(self).wf(),
            match old(self)@.tcgen05_conflict(quadrant, start_col, num_cols, is_st) {
                Some(prior) => {
                    &&& r == Err::<(), Tcgen05HazardInfo>(
                        Tcgen05HazardInfo { quadrant, start_col, num_cols, prior, current },
                    )
                    &&& final(self)@ == old(self)@
                },
                None => {
                    &&& r == Ok::<(), Tcgen05HazardInfo>(())
                    &&& final(self)@ == old(self)@.tcgen05_pending(
                        quadrant,
                        is_st,
                        (start_col, num_cols, current),
                    )
                },
            },
    {
        let q: usize = quadrant as usize;
        let mut conflict: Option<AccessSite> = None;
        if is_st {
            conflict = find_overlap(&self.tcgen05_pending[q].ld, start_col, num_cols);
        }
        if conflict.is_none() {
            conflict = find_overlap(&self.tcgen05_pending[q].st, start_col, num_cols);
        }
        match conflict {
            Some(prior) => {
                return Err(
                    Tcgen05HazardInfo { quadrant, start_col, num_cols, prior, current },
                );
            },
            None => {},
        }
        let pending = &mut self.tcgen05_pending[q];
        if is_st {
            pending.st.push((start_col, num_cols, current));
        } else {
            pending.ld.push((start_col, num_cols, current));
        }
        assert(self@ =~~= old(self)@.tcgen05_pending(
            quadrant,
            is_st,
            (start_col, num_cols, current),
        ));
        Ok(())
    }

    /// Release every pending `.ld` (`is_st = false`) or `.st`
    /// (`is_st = true`) footprint in `quadrant` - `tcgen05.wait::ld`/`::st`.
    pub fn tcgen05_wait(&mut self, quadrant: u32, is_st: bool)
        requires
            old(self).wf(),
            quadrant < 4,
        ensures
            final(self).wf(),
            final(self)@ == old(self)@.tcgen05_released(quadrant, is_st),
    {
        let pending = &mut self.tcgen05_pending[quadrant as usize];
        if is_st {
            pending.st.clear();
        } else {
            pending.ld.clear();
        }
        assert(self@ =~~= old(self)@.tcgen05_released(quadrant, is_st));
    }
}

/// The lowest-numbered reader that a write by `t` conflicts with, and where
/// it read.
fn lowest_conflicting_reader(cell: &ChiCell, t: u32) -> (r: Option<(u32, InstrId)>)
    ensures
        match lowest_reader(cell.model(), t) {
            Some(reader) => r == Some((reader, cell.model().rd[reader].1)),
            None => r is None,
        },
{
    let mut best: Option<(u32, InstrId)> = None;
    let entries = cell.rd.keys();
    let ghost full = entries.remaining();
    let ghost c = cell.model();
    for k in it: entries
        invariant
            it.seq() == full,
            full.unref().to_set() == cell.rd@.dom(),
            c == cell.model(),
            best matches Some((b, bpc)) ==> reader_conflicts(c, t, b) && bpc == c.rd[b].1,
            forall|i: int|
                0 <= i < it.index() && reader_conflicts(c, t, *#[trigger] full[i])
                    ==> best is Some && (best->0).0 <= *full[i],
    {
        let reader: u32 = *k;
        proof {
            assert(full.unref()[it.index() as int] == reader);
            assert(full.unref().to_set().contains(reader));
        }
        match cell.rd.get(&reader) {
            Some((pending, rpc)) => {
                if reader != t && pending.contains(t as usize) {
                    let lower = match best {
                        Some((b, _)) => reader < b,
                        None => true,
                    };
                    if lower {
                        best = Some((reader, *rpc));
                    }
                }
            },
            None => {},
        }
    }
    proof {
        assert forall|q: u32| #[trigger] reader_conflicts(c, t, q) implies best is Some && (best->0).0
            <= q by {
            assert(cell.rd@.dom().contains(q));
            assert(full.unref().to_set().contains(q));
            let i = choose|i: int| 0 <= i < full.unref().len() && full.unref()[i] == q;
            assert(*full[i] == q);
        }
    }
    best
}

/// The first footprint that overlaps `[start_col, start_col + num_cols)`.
fn find_overlap(list: &Vec<(u32, u32, AccessSite)>, start_col: u32, num_cols: u32) -> (r: Option<
    AccessSite,
>)
    requires
        start_col + num_cols <= u32::MAX,
        footprints_wf(list@),
    ensures
        r == first_overlap(list@, 0, start_col, num_cols),
{
    let end: u32 = start_col + num_cols;
    let mut i: usize = 0;
    while i < list.len()
        invariant
            i <= list@.len(),
            end == start_col + num_cols,
            footprints_wf(list@),
            first_overlap(list@, 0, start_col, num_cols) == first_overlap(
                list@,
                i as int,
                start_col,
                num_cols,
            ),
        decreases list@.len() - i,
    {
        let (s, n, site) = list[i];
        assert(list@[i as int].0 + list@[i as int].1 <= u32::MAX);
        if s < end && start_col < s + n {
            return Some(site);
        }
        i = i + 1;
    }
    None
}

/// Removes the first occurrence of `(thread, pc)`, whose place the last
/// element takes.
fn remove_holder(holders: &mut Vec<(ThreadId, InstrId)>, thread: ThreadId, pc: InstrId)
    ensures
        final(holders)@ == without_holder(old(holders)@, (thread, pc)),
{
    let mut i: usize = 0;
    while i < holders.len()
        invariant
            i <= holders@.len(),
            holders@ == old(holders)@,
            holder_index(holders@, 0, (thread, pc)) == holder_index(
                holders@,
                i as int,
                (thread, pc),
            ),
        decreases holders@.len() - i,
    {
        let (h, p) = holders[i];
        if h == thread && p == pc {
            holders.swap_remove(i);
            assert(holders@ =~= without_holder(old(holders)@, (thread, pc)));
            return ;
        }
        i = i + 1;
    }
}

// ---------------------------------------------------------------------------
// Synchronization
// ---------------------------------------------------------------------------

/// Which threads an access loses from its pending set.
enum Sync<'a> {
    /// The members of one group synchronize.
    Group(&'a FixedBitSet),
    /// Each waiter synchronizes with the participants; the last field holds
    /// participants and waiters together.
    Waiters(&'a FixedBitSet, &'a FixedBitSet, FixedBitSet),
}

impl<'a> Sync<'a> {
    spec fn wf(&self, n: usize) -> bool {
        match self {
            Sync::Group(g) => bitset_len(**g) == n,
            Sync::Waiters(p, w, all) => {
                &&& bitset_len(**p) == n
                &&& bitset_len(**w) == n
                &&& bitset_len(*all) == n
                &&& bitset_blocks(*all) == bitset_blocks(**p).union(bitset_blocks(**w))
            },
        }
    }

    /// The pending set of an access by `a` afterwards; `None` if the access
    /// is forgotten.
    spec fn strip_spec(&self, a: u32, pending: Set<usize>) -> Option<Set<usize>> {
        match self {
            Sync::Group(g) => if bits(**g).contains(a as usize) {
                let rest = pending.difference(bits(**g));
                if rest == Set::<usize>::empty() {
                    None
                } else {
                    Some(rest)
                }
            } else {
                Some(pending)
            },
            Sync::Waiters(p, w, all) => {
                let rest = pending.difference(waiter_loss(bits(**p), bits(**w), a));
                if rest == Set::<usize>::empty() {
                    None
                } else {
                    Some(rest)
                }
            },
        }
    }

    spec fn chi_spec(&self, c: Chi) -> Chi {
        Chi {
            rd: Map::new(
                |r: u32| c.rd.contains_key(r) && self.strip_spec(r, c.rd[r].0) is Some,
                |r: u32| (self.strip_spec(r, c.rd[r].0)->0, c.rd[r].1),
            ),
            wr: match c.wr {
                Some((w, pending, pc)) => match self.strip_spec(w, pending) {
                    Some(rest) => Some((w, rest, pc)),
                    None => None,
                },
                None => None,
            },
        }
    }

    fn strip(&self, a: u32, pending: FixedBitSet, n: usize) -> (r: Option<FixedBitSet>)
        requires
            self.wf(n),
            pending_wf(pending, n),
        ensures
            match r {
                Some(rest) => pending_wf(rest, n) && self.strip_spec(a, bits(pending)) == Some(
                    bits(rest),
                ),
                None => self.strip_spec(a, bits(pending)) is None,
            },
    {
        let ghost before = bits(pending);
        let mut pending = pending;
        assert(bits(pending) =~= bitset_blocks(pending));
        match self {
            Sync::Group(g) => {
                if !g.contains(a as usize) {
                    return Some(pending);
                }
                pending.difference_with(g);
                assert(bitset_blocks(pending) =~= before.difference(bits(**g)));
            },
            Sync::Waiters(p, w, all) => {
                if p.contains(a as usize) {
                    pending.difference_with(all);
                } else if w.contains(a as usize) {
                    let mut own = (*p).clone();
                    own.insert(a as usize);
                    pending.difference_with(&own);
                } else if n == 0 && pending.is_clear() {
                    assert(before.difference(waiter_loss(bits(**p), bits(**w), a)) =~= Set::<
                        usize,
                    >::empty());
                    return None;
                }
                assert(bitset_blocks(pending) =~= before.difference(
                    waiter_loss(bits(**p), bits(**w), a),
                ));
            },
        }
        assert(bits(pending) =~= bitset_blocks(pending));
        if pending.is_clear() {
            None
        } else {
            Some(pending)
        }
    }

    /// One byte's cell afterwards.
    fn apply(&self, cell: ChiCell, n: usize) -> (r: ChiCell)
        requires
            self.wf(n),
            cell.wf(n),
        ensures
            r.wf(n),
            r.model() == self.chi_spec(cell.model()),
    {
        let ghost orig = cell.rd@;
        let ghost c0 = cell.model();
        let mut cell = cell;
        let keys = reader_keys(&cell.rd);
        let mut rd: HashMap<u32, (FixedBitSet, InstrId)> = HashMap::new();
        let mut i: usize = 0;
        assert forall|j: int| 0 <= j < keys@.len() implies orig.contains_key(
            #[trigger] keys@[j],
        ) by {
            assert(keys@.contains(keys@[j]));
        }
        while i < keys.len()
            invariant
                i <= keys@.len(),
                keys@.no_duplicates(),
                forall|r: u32| #[trigger] keys@.contains(r) <==> orig.contains_key(r),
                self.wf(n),
                forall|r: u32| #[trigger] orig.contains_key(r) ==> pending_wf(orig[r].0, n),
                forall|j: int|
                    i <= j < keys@.len() ==> cell.rd@.contains_key(#[trigger] keys@[j])
                        && cell.rd@[keys@[j]] == orig[keys@[j]],
                forall|j: int|
                    0 <= j < i ==> {
                        let r = #[trigger] keys@[j];
                        match self.strip_spec(r, bits(orig[r].0)) {
                            Some(rest) => rd@.contains_key(r) && bits(rd@[r].0) == rest && rd@[r].1
                                == orig[r].1 && pending_wf(rd@[r].0, n),
                            None => !rd@.contains_key(r),
                        }
                    },
                forall|r: u32| #[trigger]
                    rd@.contains_key(r) ==> exists|j: int| 0 <= j < i && keys@[j] == r,
                wr_model(cell.wr) == c0.wr,
                cell.wr matches Some((w, pending, pc)) ==> pending_wf(pending, n),
            decreases keys@.len() - i,
        {
            let r: u32 = keys[i];
            assert(keys@.contains(r));
            match cell.rd.remove(&r) {
                Some((pending, pc)) => {
                    match self.strip(r, pending, n) {
                        Some(rest) => {
                            rd.insert(r, (rest, pc));
                        },
                        None => {
                            assert(!rd@.contains_key(r));
                        },
                    }
                },
                None => {
                    assert(false);
                },
            }
            i = i + 1;
        }
        proof {
            assert forall|r: u32| #[trigger] rd@.contains_key(r) implies orig.contains_key(r)
                && pending_wf(rd@[r].0, n) by {
                let j = choose|j: int| 0 <= j < keys@.len() && keys@[j] == r;
                assert(keys@.contains(keys@[j]));
            }
        }
        let wr = match cell.wr {
            Some((w, pending, pc)) => {
                match self.strip(w, pending, n) {
                    Some(rest) => Some((w, rest, pc)),
                    None => None,
                }
            },
            None => None,
        };
        let out = ChiCell { rd, wr };
        proof {
            assert(out.model().rd =~= self.chi_spec(c0).rd) by {
                assert forall|r: u32| out.model().rd.contains_key(r) <==> self.chi_spec(
                    c0,
                ).rd.contains_key(r) by {
                    if orig.contains_key(r) {
                        assert(keys@.contains(r));
                        let j = choose|j: int| 0 <= j < keys@.len() && keys@[j] == r;
                        assert(keys@[j] == r);
                    }
                }
                assert forall|r: u32| out.model().rd.contains_key(r) implies out.model().rd[r]
                    == self.chi_spec(c0).rd[r] by {
                    assert(keys@.contains(r));
                    let j = choose|j: int| 0 <= j < keys@.len() && keys@[j] == r;
                    assert(keys@[j] == r);
                }
            }
        }
        out
    }
}

/// All readers of a byte, each once, in no particular order.
fn reader_keys(rd: &HashMap<u32, (FixedBitSet, InstrId)>) -> (r: Vec<u32>)
    ensures
        r@.no_duplicates(),
        forall|k: u32| #[trigger] r@.contains(k) <==> rd@.contains_key(k),
{
    let mut r: Vec<u32> = Vec::new();
    let keys = rd.keys();
    let ghost full = keys.remaining();
    for k in it: keys
        invariant
            it.seq() == full,
            r@.len() == it.index(),
            forall|i: int| 0 <= i < r@.len() ==> #[trigger] r@[i] == *full[i],
    {
        r.push(*k);
    }
    proof {
        assert(full.unref().to_set() == rd@.dom());
        assert(r@ =~= full.unref());
        assert forall|k: u32| #[trigger] r@.contains(k) <==> rd@.contains_key(k) by {
            assert(full.unref().to_set().contains(k) <==> rd@.dom().contains(k));
        }
    }
    r
}

impl RaceTracker {
    /// Applies `sync` to every byte.
    fn sync_cells(&mut self, sync: &Sync<'_>)
        requires
            old(self).wf(),
            sync.wf(old(self).n_threads),
        ensures
            final(self).wf(),
            final(self)@ == (RaceState {
                chi: Map::new(
                    |k: (MemSpace, u64)| true,
                    |k: (MemSpace, u64)| sync.chi_spec(old(self)@.chi[k]),
                ),
                ..old(self)@
            }),
    {
        let keys = self.cells.keys();
        let ghost chi0 = self@.chi;
        let ghost rest0 = self@;
        let mut i: usize = 0;
        while i < keys.len()
            invariant
                i <= keys@.len(),
                keys@.no_duplicates(),
                forall|k: (MemSpace, u64)| #[trigger]
                    keys@.contains(k) <==> old(self).cells@.contains_key(k),
                self.wf(),
                self.n_threads == old(self).n_threads,
                sync.wf(self.n_threads),
                self@ == (RaceState { chi: self@.chi, ..old(self)@ }),
                forall|j: int|
                    0 <= j < i ==> self@.chi[#[trigger] keys@[j]] == sync.chi_spec(
                        old(self)@.chi[keys@[j]],
                    ),
                forall|k: (MemSpace, u64)|
                    (forall|j: int| 0 <= j < i ==> keys@[j] != k) ==> #[trigger] self@.chi[k]
                        == old(self)@.chi[k],
            decreases keys@.len() - i,
        {
            let (space, addr) = keys[i];
            let cell = self.take_cell(space, addr);
            let cell = sync.apply(cell, self.n_threads);
            if cell.rd.is_empty() && cell.wr.is_none() {
                assert(cell.model() =~= no_chi()) by {
                    assert(cell.rd@.dom() =~= Set::<u32>::empty());
                }
            } else {
                self.put_cell(space, addr, cell);
            }
            i = i + 1;
        }
        proof {
            assert forall|k: (MemSpace, u64)| self@.chi[k] == sync.chi_spec(old(self)@.chi[k]) by {
                if keys@.contains(k) {
                    let j = choose|j: int| 0 <= j < keys@.len() && keys@[j] == k;
                    assert(keys@[j] == k);
                } else {
                    assert(forall|j: int| 0 <= j < keys@.len() ==> keys@[j] != k);
                    assert(old(self)@.chi[k] == no_chi());
                    assert(sync.chi_spec(no_chi()) =~= no_chi());
                }
            }
            assert(self@ =~~= (RaceState {
                chi: Map::new(
                    |k: (MemSpace, u64)| true,
                    |k: (MemSpace, u64)| sync.chi_spec(old(self)@.chi[k]),
                ),
                ..old(self)@
            }));
        }
    }

    /// Synchronize the threads in `group` (a warp or mask subset): members of
    /// the group are removed from the pending sets of members of the group.
    pub fn sync_group(&mut self, group: &FixedBitSet)
        requires
            old(self).wf(),
            bitset_len(*group) == old(self)@.n_threads,
        ensures
            final(self).wf(),
            final(self)@ == old(self)@.synced_group(bits(*group)),
    {
        let sync = Sync::Group(group);
        self.sync_cells(&sync);
        proof {
            assert forall|c: Chi| #[trigger] sync.chi_spec(c) == sync_chi(c, bits(*group)) by {
                assert(sync.chi_spec(c) =~~= sync_chi(c, bits(*group)));
            }
            assert(self@ =~~= old(self)@.synced_group(bits(*group)));
        }
    }

    /// Exactly `sync_group(participants ∪ {w})` for every `w` in `waiters` in
    /// turn (an mbarrier phase's waiters each synchronize with its arrivers,
    /// not with one another), in one pass over χ: a participant's accesses
    /// lose every group they belong to (`participants ∪ waiters`); a
    /// non-participant waiter's accesses lose only its own group. Without a
    /// waiter nothing changes.
    pub fn sync_mbarrier_waiters(&mut self, participants: &FixedBitSet, waiters: &FixedBitSet)
        requires
            old(self).wf(),
            bitset_len(*participants) == old(self)@.n_threads,
            bitset_len(*waiters) == old(self)@.n_threads,
        ensures
            final(self).wf(),
            final(self)@ == old(self)@.synced_waiters(bits(*participants), bits(*waiters)),
    {
        if !has_member(waiters, self.n_threads) {
            return;
        }
        let mut all_groups = participants.clone();
        all_groups.union_with(waiters);
        let sync = Sync::Waiters(participants, waiters, all_groups);
        self.sync_cells(&sync);
        proof {
            let p = bits(*participants);
            let w = bits(*waiters);
            assert forall|c: Chi| #[trigger] sync.chi_spec(c) == sync_waiters_chi(c, p, w) by {
                assert(sync.chi_spec(c) =~~= sync_waiters_chi(c, p, w));
            }
            assert(self@ =~~= old(self)@.synced_waiters(p, w));
        }
    }
}

impl RaceTracker {
    /// `fence.proxy.async{.global|.shared::cta|.shared::cluster}`: clear
    /// `thread`'s own bit from every unfenced async-proxy mark matching
    /// `restrict` (`None` = every space), dropping a mark once every thread
    /// has fenced it. The fence takes effect within a single thread.
    ///
    /// Also releases `thread`'s own generic-proxy writes to shared memory.
    pub fn clear_async_proxy_fence(&mut self, thread: ThreadId, restrict: Option<MemSpace>)
        requires
            old(self).wf(),
            forall|k: (MemSpace, u64)| #[trigger]
                old(self)@.async_unfenced.contains_key(k) && fence_covers(restrict, k.0)
                    ==> thread.0 < old(self)@.n_threads,
        ensures
            final(self).wf(),
            final(self)@ == old(self)@.fence(thread, restrict),
    {
        let covers_shared = match restrict {
            Some(r) => r == MemSpace::Shared,
            None => true,
        };
        if covers_shared {
            self.release_generic(thread);
        }
        let ghost mid = self@;
        let keys = self.async_proxy_unfenced.keys();
        let ghost m0 = self.async_proxy_unfenced@;
        let mut i: usize = 0;
        assert forall|j: int| 0 <= j < keys@.len() implies m0.contains_key(#[trigger] keys@[j]) by {
            assert(keys@.contains(keys@[j]));
        }
        while i < keys.len()
            invariant
                i <= keys@.len(),
                keys@.no_duplicates(),
                forall|k: (MemSpace, u64)| #[trigger] keys@.contains(k) <==> m0.contains_key(k),
                self.wf(),
                unfenced_model(m0) == old(self)@.async_unfenced,
                self.n_threads == old(self).n_threads,
                self@ == (RaceState { async_unfenced: self@.async_unfenced, ..mid }),
                forall|k: (MemSpace, u64)| #[trigger]
                    m0.contains_key(k) ==> bitset_len(m0[k].pending) == self.n_threads
                        && bitset_blocks(m0[k].pending).subset_of(full_set(self.n_threads)),
                forall|k: (MemSpace, u64)| #[trigger]
                    old(self)@.async_unfenced.contains_key(k) && fence_covers(restrict, k.0)
                        ==> thread.0 < old(self)@.n_threads,
                forall|j: int|
                    i <= j < keys@.len() ==> self.async_proxy_unfenced@.contains_key(
                        #[trigger] keys@[j],
                    ) && self.async_proxy_unfenced@[keys@[j]] == m0[keys@[j]],
                forall|j: int|
                    0 <= j < i ==> {
                        let k = #[trigger] keys@[j];
                        let rest = fenced_pending(bits(m0[k].pending), k.0, thread, restrict);
                        if rest == Set::<usize>::empty() {
                            !self.async_proxy_unfenced@.contains_key(k)
                        } else {
                            &&& self.async_proxy_unfenced@.contains_key(k)
                            &&& self.async_proxy_unfenced@[k].site == m0[k].site
                            &&& bits(self.async_proxy_unfenced@[k].pending) == rest
                        }
                    },
                forall|k: (MemSpace, u64)| #[trigger]
                    self.async_proxy_unfenced@.contains_key(k) ==> m0.contains_key(k),
            decreases keys@.len() - i,
        {
            let (space, addr) = keys[i];
            assert(keys@.contains((space, addr)));
            match self.async_proxy_unfenced.remove(space, addr) {
                Some(cell) => {
                    let mut cell = cell;
                    let covers = match restrict {
                        Some(r) => r == space,
                        None => true,
                    };
                    let ghost before = bits(cell.pending);
                    assert(bits(cell.pending) =~= bitset_blocks(cell.pending));
                    if covers {
                        assert(old(self)@.async_unfenced.contains_key((space, addr)));
                        cell.pending.set(thread.0 as usize, false);
                    }
                    assert(bitset_blocks(cell.pending) =~= fenced_pending(
                        before,
                        space,
                        thread,
                        restrict,
                    ));
                    assert(bits(cell.pending) =~= bitset_blocks(cell.pending));
                    if !cell.pending.is_clear() {
                        self.async_proxy_unfenced.insert(space, addr, cell);
                    }
                },
                None => {
                    assert(false);
                },
            }
            i = i + 1;
        }
        proof {
            let goal = old(self)@.fence(thread, restrict);
            assert forall|k: (MemSpace, u64)| m0.contains_key(k) implies exists|j: int|
                0 <= j < keys@.len() && keys@[j] == k by {
                assert(keys@.contains(k));
            }
            assert(self@.async_unfenced =~= goal.async_unfenced) by {
                assert forall|k: (MemSpace, u64)| self@.async_unfenced.contains_key(k)
                    <==> goal.async_unfenced.contains_key(k) by {
                    if m0.contains_key(k) {
                        let j = choose|j: int| 0 <= j < keys@.len() && keys@[j] == k;
                        assert(keys@[j] == k);
                    }
                }
                assert forall|k: (MemSpace, u64)| self@.async_unfenced.contains_key(
                    k,
                ) implies self@.async_unfenced[k] == goal.async_unfenced[k] by {
                    let j = choose|j: int| 0 <= j < keys@.len() && keys@[j] == k;
                    assert(keys@[j] == k);
                }
            }
            assert(self@ =~= goal);
        }
    }

    /// Releases every generic-proxy write of `thread`.
    fn release_generic(&mut self, thread: ThreadId)
        requires
            old(self).wf(),
        ensures
            final(self).wf(),
            final(self).n_threads == old(self).n_threads,
            final(self).async_proxy_unfenced == old(self).async_proxy_unfenced,
            final(self)@ == (RaceState {
                generic_unfenced: Map::new(
                    |b: u64|
                        old(self)@.generic_unfenced.contains_key(b)
                            && old(self)@.generic_unfenced[b].thread != thread,
                    |b: u64| old(self)@.generic_unfenced[b],
                ),
                ..old(self)@
            }),
    {
        let mut drop: Vec<u64> = Vec::new();
        let ghost m0 = self.generic_unfenced@;
        let keys = self.generic_unfenced.keys();
        let ghost full = keys.remaining();
        for k in it: keys
            invariant
                it.seq() == full,
                m0 == self.generic_unfenced@,
                full.unref().to_set() == m0.dom(),
                forall|j: int|
                    0 <= j < drop@.len() ==> m0.contains_key(#[trigger] drop@[j])
                        && m0[drop@[j]].thread == thread,
                forall|j: int|
                    0 <= j < it.index() && m0[*#[trigger] full[j]].thread == thread
                        ==> drop@.contains(*full[j]),
        {
            proof {
                assert(full.unref()[it.index() as int] == *k);
                assert(full.unref().to_set().contains(*k));
            }
            let ghost drop0 = drop@;
            match self.generic_unfenced.get(k) {
                Some(site) => {
                    if site.thread == thread {
                        drop.push(*k);
                        assert(drop@[drop0.len() as int] == *k);
                    }
                },
                None => {},
            }
            proof {
                assert forall|b: u64| drop0.contains(b) implies drop@.contains(b) by {
                    let j = choose|j: int| 0 <= j < drop0.len() && drop0[j] == b;
                    assert(drop@[j] == b);
                }
            }
        }
        assert forall|b: u64| m0.contains_key(b) && m0[b].thread == thread implies drop@.contains(
            b,
        ) by {
            assert(full.unref().to_set().contains(b));
            let j = choose|j: int| 0 <= j < full.unref().len() && full.unref()[j] == b;
            assert(*full[j] == b);
        }
        let mut i: usize = 0;
        while i < drop.len()
            invariant
                i <= drop@.len(),
                self.wf(),
                self.n_threads == old(self).n_threads,
                self.async_proxy_unfenced == old(self).async_proxy_unfenced,
                m0 == old(self).generic_unfenced@,
                self@ == (RaceState { generic_unfenced: self@.generic_unfenced, ..old(self)@ }),
                forall|b: u64| #[trigger]
                    self.generic_unfenced@.contains_key(b) <==> m0.contains_key(b) && !(exists|j: int|
                        0 <= j < i && drop@[j] == b),
                forall|b: u64| #[trigger]
                    self.generic_unfenced@.contains_key(b) ==> self.generic_unfenced@[b] == m0[b],
            decreases drop@.len() - i,
        {
            let b: u64 = drop[i];
            self.generic_unfenced.remove(&b);
            i = i + 1;
        }
        proof {
            assert forall|b: u64| self.generic_unfenced@.contains_key(b) <==> (m0.contains_key(b)
                && m0[b].thread != thread) by {
                if m0.contains_key(b) && m0[b].thread == thread {
                    assert(drop@.contains(b));
                }
            }
            assert(self@.generic_unfenced =~= Map::new(
                |b: u64| m0.contains_key(b) && m0[b].thread != thread,
                |b: u64| m0[b],
            ));
        }
    }
}

// ---------------------------------------------------------------------------
// Laws
// ---------------------------------------------------------------------------

/// Every recorded access is still pending on some thread.
pub open spec fn chi_pending(c: Chi) -> bool {
    &&& forall|r: u32| #[trigger] c.rd.contains_key(r) ==> c.rd[r].0 != Set::<usize>::empty()
    &&& c.wr matches Some((w, pending, pc)) ==> pending != Set::<usize>::empty()
}

impl RaceTracker {
    /// A valid tracker knows of every byte of every space, and of the four
    /// lane quadrants.
    pub proof fn a_valid_tracker_is_complete(&self)
        requires
            self.wf(),
        ensures
            self@.chi.dom() == Set::<(MemSpace, u64)>::full(),
            self@.locks.dom() == Set::<(MemSpace, u64)>::full(),
            self@.tcgen05.len() == 4,
    {
        assert(self@.chi.dom() =~= Set::<(MemSpace, u64)>::full());
        assert(self@.locks.dom() =~= Set::<(MemSpace, u64)>::full());
    }

    /// Every access that a tracker of at least one thread records is still
    /// pending on some thread.
    pub proof fn recorded_accesses_are_pending(&self, k: (MemSpace, u64))
        requires
            self.wf(),
            self@.n_threads > 0,
        ensures
            chi_pending(self@.chi[k]),
    {
        if self.cells@.contains_key(k) {
            let cell = self.cells@[k];
            assert forall|r: u32| #[trigger] cell.model().rd.contains_key(r) implies cell.model().rd[r].0
                != Set::<usize>::empty() by {
                assert(cell.rd@.contains_key(r));
                assert(bits(cell.rd@[r].0) =~= bitset_blocks(cell.rd@[r].0));
            }
            match cell.wr {
                Some((w, pending, pc)) => {
                    assert(bits(pending) =~= bitset_blocks(pending));
                },
                None => {},
            }
        }
    }
}

proof fn lemma_loss_step(x: Set<usize>, p: Set<usize>, ws: Set<usize>, w: usize, a: u32)
    ensures
        ({
            let g = p.insert(w);
            let y = x.difference(waiter_loss(p, ws, a));
            let z = x.difference(waiter_loss(p, ws.insert(w), a));
            &&& g.contains(a as usize) ==> y.difference(g) == z
            &&& !g.contains(a as usize) ==> y == z
            &&& y == Set::<usize>::empty() ==> z == Set::<usize>::empty()
        }),
{
    let g = p.insert(w);
    let y = x.difference(waiter_loss(p, ws, a));
    let z = x.difference(waiter_loss(p, ws.insert(w), a));
    if g.contains(a as usize) {
        assert(y.difference(g) =~= z);
    } else {
        assert(y =~= z);
    }
    if y == Set::<usize>::empty() {
        assert(forall|b: usize| !y.contains(b));
        assert forall|b: usize| !z.contains(b) by {
            assert(!y.contains(b));
        }
        assert(z =~= Set::<usize>::empty());
    }
}

proof fn lemma_loss_one(x: Set<usize>, p: Set<usize>, w: usize, a: u32)
    ensures
        ({
            let g = p.insert(w);
            let z = x.difference(waiter_loss(p, Set::<usize>::empty().insert(w), a));
            &&& g.contains(a as usize) ==> x.difference(g) == z
            &&& !g.contains(a as usize) ==> x == z
        }),
{
    let g = p.insert(w);
    let z = x.difference(waiter_loss(p, Set::<usize>::empty().insert(w), a));
    if g.contains(a as usize) {
        assert(x.difference(g) =~= z);
    } else {
        assert(x =~= z);
    }
}

/// One more waiter after a batch is the larger batch.
proof fn lemma_waiters_step(c: Chi, p: Set<usize>, ws: Set<usize>, w: usize)
    requires
        chi_pending(c),
    ensures
        sync_chi(sync_waiters_chi(c, p, ws), p.insert(w)) == sync_waiters_chi(c, p, ws.insert(w)),
{
    let lhs = sync_chi(sync_waiters_chi(c, p, ws), p.insert(w));
    let rhs = sync_waiters_chi(c, p, ws.insert(w));
    assert(lhs.rd =~= rhs.rd) by {
        assert forall|r: u32| lhs.rd.contains_key(r) <==> rhs.rd.contains_key(r) by {
            lemma_loss_step(c.rd[r].0, p, ws, w, r);
        }
        assert forall|r: u32| lhs.rd.contains_key(r) implies lhs.rd[r] == rhs.rd[r] by {
            lemma_loss_step(c.rd[r].0, p, ws, w, r);
        }
    }
    match c.wr {
        Some((a, pending, pc)) => {
            lemma_loss_step(pending, p, ws, w, a);
        },
        None => {},
    }
    assert(lhs =~= rhs);
}

/// The first waiter is a batch of one.
proof fn lemma_waiters_one(c: Chi, p: Set<usize>, w: usize)
    requires
        chi_pending(c),
    ensures
        sync_chi(c, p.insert(w)) == sync_waiters_chi(c, p, Set::<usize>::empty().insert(w)),
{
    let lhs = sync_chi(c, p.insert(w));
    let rhs = sync_waiters_chi(c, p, Set::<usize>::empty().insert(w));
    assert(lhs.rd =~= rhs.rd) by {
        assert forall|r: u32| lhs.rd.contains_key(r) <==> rhs.rd.contains_key(r) by {
            lemma_loss_one(c.rd[r].0, p, w, r);
        }
        assert forall|r: u32| lhs.rd.contains_key(r) implies lhs.rd[r] == rhs.rd[r] by {
            lemma_loss_one(c.rd[r].0, p, w, r);
        }
    }
    match c.wr {
        Some((a, pending, pc)) => {
            lemma_loss_one(pending, p, w, a);
        },
        None => {},
    }
    assert(lhs =~= rhs);
}

/// Synchronizing all waiters of an mbarrier phase in one pass is the same as
/// synchronizing them one after the other, in any order.
pub proof fn batched_waiters_match_sequential_groups(
    s: RaceState,
    participants: Set<usize>,
    ws: Seq<usize>,
)
    requires
        s.chi.dom() == Set::<(MemSpace, u64)>::full(),
        forall|k: (MemSpace, u64)| chi_pending(#[trigger] s.chi[k]),
    ensures
        s.synced_waiters(participants, ws.to_set()) == s.synced_each(participants, ws),
{
    if ws.len() == 0 {
        assert(ws.to_set() =~= Set::<usize>::empty());
    } else {
        lemma_batched_waiters(s, participants, ws);
    }
}

proof fn lemma_batched_waiters(s: RaceState, participants: Set<usize>, ws: Seq<usize>)
    requires
        ws.len() > 0,
        s.chi.dom() == Set::<(MemSpace, u64)>::full(),
        forall|k: (MemSpace, u64)| chi_pending(#[trigger] s.chi[k]),
    ensures
        s.synced_waiters(participants, ws.to_set()) == s.synced_each(participants, ws),
    decreases ws.len(),
{
    assert(ws.to_set().contains(ws[0]));
    let rest = ws.drop_last();
    let w = ws.last();
    let goal = s.synced_waiters(participants, ws.to_set());
    let got = s.synced_each(participants, ws);
    if rest.len() == 0 {
        assert(ws.to_set() =~= Set::<usize>::empty().insert(w)) by {
            assert(ws =~= seq![w]);
            assert(ws[0] == w);
        }
        assert(s.synced_each(participants, rest) == s);
        assert forall|k: (MemSpace, u64)| goal.chi[k] == got.chi[k] by {
            lemma_waiters_one(s.chi[k], participants, w);
        }
    } else {
        lemma_batched_waiters(s, participants, rest);
        assert(rest.to_set().contains(rest[0]));
        assert(ws.to_set() =~= rest.to_set().insert(w)) by {
            assert forall|a: usize| ws.to_set().contains(a) <==> rest.to_set().insert(w).contains(
                a,
            ) by {
                if ws.contains(a) {
                    let i = choose|i: int| 0 <= i < ws.len() && ws[i] == a;
                    if i < rest.len() {
                        assert(rest[i] == a);
                    }
                }
                if rest.contains(a) {
                    let i = choose|i: int| 0 <= i < rest.len() && rest[i] == a;
                    assert(ws[i] == a);
                }
                assert(ws[ws.len() - 1] == w);
            }
        }
        assert forall|k: (MemSpace, u64)| goal.chi[k] == got.chi[k] by {
            lemma_waiters_step(s.chi[k], participants, rest.to_set(), w);
        }
    }
    assert(goal =~= got);
}

/// Reads never race with one another: a read of bytes nobody has written and
/// no copy or proxy write covers reports no hazard, whoever read them before.
pub proof fn reads_do_not_race_with_reads(
    s: RaceState,
    space: MemSpace,
    addr: u64,
    width: u64,
    thread: ThreadId,
    pc: InstrId,
)
    requires
        forall|b: u64| addr <= b < addr + width ==> (#[trigger] s.chi[(space, b)]).wr is None,
        forall|b: u64| addr <= b < addr + width ==> (#[trigger] s.locks[(space, b)]).dst is None,
        forall|b: u64|
            addr <= b < addr + width ==> !#[trigger] s.async_unfenced.contains_key((space, b)),
        addr + width <= u64::MAX,
    ensures
        s.read_hazard(space, addr, width, thread, pc, Proxy::Generic) is None,
{
    lemma_no_first_byte(addr as int, addr + width, |b: u64| s.locks[(space, b)].dst is Some);
    lemma_no_first_byte(
        addr as int,
        addr + width,
        |b: u64|
            s.async_unfenced.contains_key((space, b)) && s.async_unfenced[(space, b)].1.contains(
                thread.0 as usize,
            ),
    );
    lemma_no_first_byte(
        addr as int,
        addr + width,
        |b: u64| read_races(s.chi[(space, b)], thread.0),
    );
}

/// If no byte satisfies `p` then there is no first one.
proof fn lemma_no_first_byte(from: int, to: int, p: spec_fn(u64) -> bool)
    requires
        0 <= from,
        to <= u64::MAX,
        forall|b: u64| from <= b < to ==> !#[trigger] p(b),
    ensures
        first_byte(from, to, p) is None,
    decreases to - from,
{
    if from < to {
        assert(!p(from as u64));
        lemma_no_first_byte(from + 1, to, p);
    }
}

/// The first byte satisfies `p`, lies in the range, and no byte before it
/// does; there is none only if no byte does.
pub proof fn first_byte_is_first(from: int, to: int, p: spec_fn(u64) -> bool)
    requires
        0 <= from,
        to <= u64::MAX,
    ensures
        match first_byte(from, to, p) {
            Some(b) => from <= b < to && p(b) && forall|q: u64| from <= q < b ==> !#[trigger] p(q),
            None => forall|q: u64| from <= q < to ==> !#[trigger] p(q),
        },
    decreases to - from,
{
    if from < to && !p(from as u64) {
        first_byte_is_first(from + 1, to, p);
        assert forall|q: u64| from <= q < from + 1 implies !#[trigger] p(q) by {
            assert(q == from as u64);
        }
    }
}

/// A race is always with another thread: the prior access of a reported race
/// is by a thread other than the accessing one.
pub proof fn races_are_between_threads(
    s: RaceState,
    space: MemSpace,
    addr: u64,
    width: u64,
    thread: ThreadId,
    pc: InstrId,
    same_value: bool,
    proxy: Proxy,
)
    requires
        addr + width <= u64::MAX,
    ensures
        s.read_hazard(space, addr, width, thread, pc, proxy) matches Some(MemHazard::Race(r))
            ==> r.prior.thread != thread,
        s.write_hazard(space, addr, width, thread, pc, same_value) matches Some(MemHazard::Race(r))
            ==> r.prior.thread != thread,
{
    first_byte_is_first(
        addr as int,
        addr + width,
        |b: u64| read_races(s.chi[(space, b)], thread.0),
    );
    first_byte_is_first(
        addr as int,
        addr + width,
        |b: u64| write_conflict(s.chi[(space, b)], thread.0, same_value) is Some,
    );
    match s.first_write_race(space, addr, width, thread.0, same_value) {
        Some(b) => {
            lowest_reader_is_lowest(s.chi[(space, b)], thread.0);
        },
        None => {},
    }
}

/// The reported reader conflicts, and no lower-numbered reader does.
pub proof fn lowest_reader_is_lowest(c: Chi, t: u32)
    ensures
        match lowest_reader(c, t) {
            Some(r) => reader_conflicts(c, t, r) && forall|q: u32| #[trigger]
                reader_conflicts(c, t, q) ==> r <= q,
            None => forall|q: u32| !#[trigger] reader_conflicts(c, t, q),
        },
{
    if exists|r: u32| reader_conflicts(c, t, r) {
        let r = choose|r: u32| reader_conflicts(c, t, r);
        lemma_lowest_exists(c, t, r);
    }
}

proof fn lemma_lowest_exists(c: Chi, t: u32, r: u32)
    requires
        reader_conflicts(c, t, r),
    ensures
        exists|m: u32|
            reader_conflicts(c, t, m) && forall|q: u32| #[trigger] reader_conflicts(c, t, q) ==> m <= q,
    decreases r,
{
    if exists|q: u32| reader_conflicts(c, t, q) && q < r {
        let q = choose|q: u32| reader_conflicts(c, t, q) && q < r;
        lemma_lowest_exists(c, t, q);
    } else {
        assert(forall|q: u32| #[trigger] reader_conflicts(c, t, q) ==> r <= q);
    }
}

/// After a full synchronization no access races.
pub proof fn full_sync_removes_races(
    s: RaceState,
    space: MemSpace,
    addr: u64,
    width: u64,
    t: u32,
    same_value: bool,
)
    requires
        addr + width <= u64::MAX,
    ensures
        s.synced_all().first_read_race(space, addr, width, t) is None,
        s.synced_all().first_write_race(space, addr, width, t, same_value) is None,
{
    let z = s.synced_all();
    lemma_no_first_byte(addr as int, addr + width, |b: u64| read_races(z.chi[(space, b)], t));
    lemma_no_first_byte(
        addr as int,
        addr + width,
        |b: u64| write_conflict(z.chi[(space, b)], t, same_value) is Some,
    );
}

/// A group synchronization orders accesses within the group and no others: a
/// recorded access by a member stops conflicting with the group's members,
/// and keeps conflicting with everybody else; an access by a non-member is
/// unaffected.
pub proof fn group_sync_covers_the_group_only(c: Chi, group: Set<usize>, r: u32, t: u32)
    requires
        c.rd.contains_key(r),
        r != t,
    ensures
        reader_conflicts(sync_chi(c, group), t, r) == (reader_conflicts(c, t, r) && !(
        group.contains(r as usize) && group.contains(t as usize))),
{
    let d = c.rd[r].0.difference(group);
    if d.contains(t as usize) {
        assert(d != Set::<usize>::empty());
    }
}

/// As [`group_sync_covers_the_group_only`], for the last writer.
pub proof fn group_sync_orders_writes_within_the_group(c: Chi, group: Set<usize>, t: u32)
    requires
        c.wr is Some,
    ensures
        read_races(sync_chi(c, group), t) == (read_races(c, t) && !(group.contains(
            (c.wr->0).0 as usize,
        ) && group.contains(t as usize))),
{
    let d = (c.wr->0).1.difference(group);
    if d.contains(t as usize) {
        assert(d != Set::<usize>::empty());
    }
}

/// A barrier never stands in for a proxy fence: full and group
/// synchronization leave every proxy mark and every copy lock in place.
pub proof fn synchronization_keeps_marks_and_locks(
    s: RaceState,
    group: Set<usize>,
    participants: Set<usize>,
    waiters: Set<usize>,
)
    ensures
        s.synced_all().async_unfenced == s.async_unfenced,
        s.synced_all().generic_unfenced == s.generic_unfenced,
        s.synced_all().locks == s.locks,
        s.synced_group(group).async_unfenced == s.async_unfenced,
        s.synced_group(group).generic_unfenced == s.generic_unfenced,
        s.synced_group(group).locks == s.locks,
        s.synced_waiters(participants, waiters).async_unfenced == s.async_unfenced,
        s.synced_waiters(participants, waiters).generic_unfenced == s.generic_unfenced,
        s.synced_waiters(participants, waiters).locks == s.locks,
{
}

/// A fence takes effect within a single thread: it changes nothing for an
/// access by another thread, and lets its own thread access every byte of the
/// spaces it covers.
pub proof fn fence_is_per_thread(
    s: RaceState,
    fencer: ThreadId,
    restrict: Option<MemSpace>,
    k: (MemSpace, u64),
    t: ThreadId,
)
    ensures
        ({
            let z = s.fence(fencer, restrict);
            let unfenced = |x: RaceState|
                x.async_unfenced.contains_key(k) && x.async_unfenced[k].1.contains(t.0 as usize);
            &&& t != fencer ==> unfenced(z) == unfenced(s)
            &&& t == fencer && fence_covers(restrict, k.0) ==> !unfenced(z)
            &&& !fence_covers(restrict, k.0) ==> unfenced(z) == unfenced(s)
        }),
{
    if s.async_unfenced.contains_key(k) {
        let p = fenced_pending(s.async_unfenced[k].1, k.0, fencer, restrict);
        if p.contains(t.0 as usize) {
            assert(p != Set::<usize>::empty());
        }
    }
}

/// Releasing a destination range right after locking it restores the state.
pub proof fn release_undoes_lock(
    s: RaceState,
    space: MemSpace,
    addr: u64,
    width: u64,
    holder: (ThreadId, InstrId),
)
    requires
        addr + width <= u64::MAX,
        s.locks.dom() == Set::<(MemSpace, u64)>::full(),
        s.first_dst_locked(space, addr, width) is None,
    ensures
        s.locked_dst(space, addr, addr + width, holder).released_dst(space, addr, addr + width)
            == s,
{
    first_byte_is_first(
        addr as int,
        addr + width,
        |b: u64| s.locks[(space, b)].dst is Some,
    );
    let z = s.locked_dst(space, addr, addr + width, holder).released_dst(
        space,
        addr,
        addr + width,
    );
    assert forall|k: (MemSpace, u64)| z.locks[k] == s.locks[k] by {
        if k.0 == space && addr <= k.1 < addr + width {
            let p = |b: u64| s.locks[(space, b)].dst is Some;
            assert(!p(k.1));
        }
    }
    assert(z.locks =~= s.locks);
}

} // verus!
