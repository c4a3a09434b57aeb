//! What holds of whole runs and across memory operations.

use vstd::prelude::*;

use crate::eval::ThreadId;
use crate::eval::WARP_SIZE;
use crate::eval::machine::{Machine, Status, ThreadModel};
use crate::eval::int_ops::low;
use crate::eval::error::{AccessSite, EvalError};
use crate::eval::memory::{
    GranuleKind, MemAccessError, halved, read_after_write, read_cells, scalar_cell_of,
    write_refused,
};
use crate::eval::race::{Proxy, RaceState, first_byte_is_first, read_races, write_lock};
use crate::eval::schedule::{
    Finish, Gathered, Phase, all_exited, barrier_complete, barrier_from, blocked_from, first_ready,
    gather_lanes, past_barrier, waiters_from,
};
use crate::eval::value::Value;
use crate::lowered::{InstrId, MemSpace};

verus! {

// ---------------------------------------------------------------------------
// Runs
// ---------------------------------------------------------------------------

/// More fuel does not change where a run ends.
proof fn lemma_more_fuel(m: Machine, phase: Phase, a: nat, b: nat)
    requires
        m.go(phase, a) is Some,
        a <= b,
    ensures
        m.go(phase, b) == m.go(phase, a),
    decreases a,
{
    let (p, q) = ((a - 1) as nat, (b - 1) as nat);
    match phase {
        Phase::Scan => match first_ready(m.threads, 0) {
            Some(t) => {
                lemma_more_fuel(m, Phase::Thread(t), p, q);
            },
            None => {
                if !all_exited(m.threads) {
                    lemma_more_fuel(m, Phase::Fire(false), p, q);
                }
            },
        },
        Phase::Thread(t) => {
            if m.thread(t).status == Status::Ready {
                let (n, r) = m.step(t);
                if r is Ok {
                    lemma_more_fuel(n, Phase::Thread(t), p, q);
                }
            } else {
                lemma_more_fuel(m, Phase::Scan, p, q);
            }
        },
        Phase::Fire(any) => {
            let (n, r) = m.fire();
            if r is Ok {
                if r->Ok_0 {
                    lemma_more_fuel(n, Phase::Fire(true), p, q);
                } else if any {
                    lemma_more_fuel(n, Phase::Scan, p, q);
                }
            }
        },
    }
}

/// A run has one end: two runs from the same state end in the same state in
/// the same way.
pub proof fn a_run_has_one_end(m: Machine, a: Machine, b: Machine, f: Finish, g: Finish)
    requires
        m.runs_to(a, f),
        m.runs_to(b, g),
    ensures
        a == b,
        f == g,
{
    let x = choose|fuel: nat| m.go(Phase::Scan, fuel) == Some((a, f));
    let y = choose|fuel: nat| m.go(Phase::Scan, fuel) == Some((b, g));
    if x <= y {
        lemma_more_fuel(m, Phase::Scan, x, y);
    } else {
        lemma_more_fuel(m, Phase::Scan, y, x);
    }
}

proof fn lemma_done(m: Machine, phase: Phase, fuel: nat)
    requires
        m.go(phase, fuel) matches Some((_, Finish::Done)),
    ensures
        ({
            let end = m.go(phase, fuel)->0;
            all_exited(end.0.threads)
        }),
    decreases fuel,
{
    let rest = (fuel - 1) as nat;
    match phase {
        Phase::Scan => match first_ready(m.threads, 0) {
            Some(t) => {
                lemma_done(m, Phase::Thread(t), rest);
            },
            None => {
                if !all_exited(m.threads) {
                    lemma_done(m, Phase::Fire(false), rest);
                }
            },
        },
        Phase::Thread(t) => {
            if m.thread(t).status == Status::Ready {
                lemma_done(m.step(t).0, Phase::Thread(t), rest);
            } else {
                lemma_done(m, Phase::Scan, rest);
            }
        },
        Phase::Fire(any) => {
            let (n, r) = m.fire();
            if r->Ok_0 {
                lemma_done(n, Phase::Fire(true), rest);
            } else {
                lemma_done(n, Phase::Scan, rest);
            }
        },
    }
}

/// A run that succeeds leaves every thread exited.
pub proof fn a_successful_run_leaves_no_thread(m: Machine, end: Machine)
    requires
        m.runs_to(end, Finish::Done),
    ensures
        all_exited(end.threads),
{
    let fuel = choose|fuel: nat| m.go(Phase::Scan, fuel) == Some((end, Finish::Done));
    lemma_done(m, Phase::Scan, fuel);
}

// ---------------------------------------------------------------------------
// Barriers and groups
// ---------------------------------------------------------------------------

/// Whether a thread has exited or waits for the given block barrier.
pub open spec fn done_or_at(th: ThreadModel, id: u32) -> bool {
    th.status == Status::Exited || th.status == (Status::AtBarrier { id })
}

proof fn lemma_barrier_sound(threads: Seq<ThreadModel>, i: int, seen: Option<u32>, id: u32)
    requires
        0 <= i <= threads.len(),
        barrier_from(threads, i, seen) == Some(Some(id)),
    ensures
        forall|k: int| i <= k < threads.len() ==> done_or_at(#[trigger] threads[k], id),
        seen is Some ==> seen == Some(id),
        seen is None ==> exists|k: int|
            i <= k < threads.len() && (#[trigger] threads[k]).status == (Status::AtBarrier { id }),
    decreases threads.len() - i,
{
    if i < threads.len() {
        match threads[i].status {
            Status::Exited => {
                lemma_barrier_sound(threads, i + 1, seen, id);
            },
            Status::AtBarrier { id: first } => {
                lemma_barrier_sound(threads, i + 1, Some(first), id);
            },
            _ => {},
        }
    }
}

proof fn lemma_barrier_found(
    threads: Seq<ThreadModel>,
    i: int,
    seen: Option<u32>,
    id: u32,
    k: int,
)
    requires
        0 <= i <= threads.len(),
        forall|j: int| i <= j < threads.len() ==> done_or_at(#[trigger] threads[j], id),
        seen == Some(id) || (seen is None && i <= k < threads.len() && threads[k].status == (
        Status::AtBarrier { id })),
    ensures
        barrier_from(threads, i, seen) == Some(Some(id)),
    decreases threads.len() - i,
{
    if i < threads.len() {
        assert(done_or_at(threads[i], id));
        if threads[i].status == Status::Exited {
            lemma_barrier_found(threads, i + 1, seen, id, k);
        } else {
            lemma_barrier_found(threads, i + 1, Some(id), id, k);
        }
    }
}

/// A block barrier fires exactly when every live thread waits for it and at
/// least one does.
pub proof fn a_barrier_waits_for_every_live_thread(threads: Seq<ThreadModel>)
    ensures
        barrier_complete(threads) <==> exists|id: u32|
            #[trigger] gathered_at(threads, id),
{
    if barrier_complete(threads) {
        let id = barrier_from(threads, 0, None)->0->0;
        lemma_barrier_sound(threads, 0, None, id);
        assert(gathered_at(threads, id));
    }
    if exists|id: u32| #[trigger] gathered_at(threads, id) {
        let id = choose|id: u32| #[trigger] gathered_at(threads, id);
        let k = choose|k: int|
            0 <= k < threads.len() && (#[trigger] threads[k]).status == (Status::AtBarrier { id });
        lemma_barrier_found(threads, 0, None, id, k);
    }
}

/// Every live thread waits for the given block barrier, and some thread does.
pub open spec fn gathered_at(threads: Seq<ThreadModel>, id: u32) -> bool {
    &&& forall|k: int| 0 <= k < threads.len() ==> done_or_at(#[trigger] threads[k], id)
    &&& exists|k: int|
        0 <= k < threads.len() && (#[trigger] threads[k]).status == (Status::AtBarrier { id })
}

/// A fired block barrier lets every waiting thread go on at its next
/// instruction, and touches neither memory nor registers.
pub proof fn a_barrier_lets_every_waiter_go(m: Machine, k: int)
    requires
        0 <= k < m.threads.len(),
    ensures
        m.barrier_fired().threads[k] == past_barrier(m.threads[k]),
        m.barrier_fired().threads[k].regs == m.threads[k].regs,
        !(m.barrier_fired().threads[k].status is AtBarrier),
        m.barrier_fired().global == m.global,
        m.barrier_fired().shared == m.shared,
        m.barrier_fired().locals == m.locals,
{
}

proof fn lemma_gathered(
    m: Machine,
    pc: InstrId,
    mask: u32,
    base: u32,
    lane: int,
    acc: Seq<ThreadId>,
    k: int,
)
    requires
        0 <= lane <= k < WARP_SIZE,
        (mask >> (k as u32)) & 1 != 0,
        gather_lanes(m, pc, mask, base, lane, acc) is Members,
    ensures
        base + k < m.env.n_threads,
        ({
            let th = m.threads[base + k];
            th.status == Status::Exited || (th.status == (Status::AtWarpOp { mask }) && th.pc
                == pc && gather_lanes(m, pc, mask, base, lane, acc)->Members_0.contains(
                ThreadId((base + k) as u32),
            ))
        }),
    decreases WARP_SIZE - lane,
{
    if (mask >> (lane as u32)) & 1 == 0 {
        lemma_gathered(m, pc, mask, base, lane + 1, acc, k);
    } else {
        let th = m.threads[base + lane];
        let more = if th.status == Status::Exited {
            acc
        } else {
            acc.push(ThreadId((base + lane) as u32))
        };
        if lane < k {
            lemma_gathered(m, pc, mask, base, lane + 1, more, k);
        } else if th.status != Status::Exited {
            assert(more.last() == ThreadId((base + k) as u32));
            lemma_gathered_keeps(m, pc, mask, base, lane + 1, more, more.len() - 1);
        }
    }
}

proof fn lemma_gathered_keeps(
    m: Machine,
    pc: InstrId,
    mask: u32,
    base: u32,
    lane: int,
    acc: Seq<ThreadId>,
    i: int,
)
    requires
        0 <= lane <= WARP_SIZE,
        0 <= i < acc.len(),
        gather_lanes(m, pc, mask, base, lane, acc) is Members,
    ensures
        gather_lanes(m, pc, mask, base, lane, acc)->Members_0.contains(acc[i]),
    decreases WARP_SIZE - lane,
{
    if lane < WARP_SIZE {
        if (mask >> (lane as u32)) & 1 == 0 {
            lemma_gathered_keeps(m, pc, mask, base, lane + 1, acc, i);
        } else {
            let th = m.threads[base + lane];
            if th.status == Status::Exited {
                lemma_gathered_keeps(m, pc, mask, base, lane + 1, acc, i);
            } else {
                let more = acc.push(ThreadId((base + lane) as u32));
                assert(more[i] == acc[i]);
                lemma_gathered_keeps(m, pc, mask, base, lane + 1, more, i);
            }
        }
    }
}

/// A warp operation runs only once every lane of its mask has arrived: each
/// is in the block and either is among the members, blocked at the same
/// instruction with the same mask, or has exited.
pub proof fn a_warp_group_is_complete(m: Machine, pc: InstrId, mask: u32, base: u32, k: int)
    requires
        0 <= k < WARP_SIZE,
        (mask >> (k as u32)) & 1 != 0,
        gather_lanes(m, pc, mask, base, 0, Seq::empty()) is Members,
    ensures
        base + k < m.env.n_threads,
        ({
            let th = m.threads[base + k];
            th.status == Status::Exited || (th.status == (Status::AtWarpOp { mask }) && th.pc
                == pc && gather_lanes(m, pc, mask, base, 0, Seq::empty())->Members_0.contains(
                ThreadId((base + k) as u32),
            ))
        }),
{
    lemma_gathered(m, pc, mask, base, 0, Seq::empty(), k);
}

proof fn lemma_blocked(
    threads: Seq<ThreadModel>,
    i: int,
    acc: Seq<(ThreadId, InstrId)>,
    t: ThreadId,
    pc: InstrId,
)
    requires
        0 <= i <= threads.len() <= u32::MAX,
    ensures
        blocked_from(threads, i, acc).contains((t, pc)) <==> acc.contains((t, pc)) || (i <= t.0
            < threads.len() && threads[t.0 as int].status != Status::Exited
            && threads[t.0 as int].pc == pc),
    decreases threads.len() - i,
{
    if i < threads.len() {
        if threads[i].status == Status::Exited {
            lemma_blocked(threads, i + 1, acc, t, pc);
        } else {
            let x = (ThreadId(i as u32), threads[i].pc);
            let more = acc.push(x);
            lemma_blocked(threads, i + 1, more, t, pc);
            let e = (t, pc);
            assert(more.contains(e) <==> acc.contains(e) || e == x) by {
                if acc.contains(e) {
                    let k = acc.index_of(e);
                    assert(more[k] == e);
                }
                if e == x {
                    assert(more[acc.len() as int] == e);
                }
                if more.contains(e) {
                    let k = more.index_of(e);
                    if k < acc.len() {
                        assert(acc[k] == e);
                    }
                }
            }
        }
    }
}

/// A deadlock names exactly the threads that have not exited, each with the
/// instruction it is stuck at.
pub proof fn a_deadlock_names_the_live_threads(
    threads: Seq<ThreadModel>,
    t: ThreadId,
    pc: InstrId,
)
    requires
        threads.len() <= u32::MAX,
    ensures
        blocked_from(threads, 0, Seq::empty()).contains((t, pc)) <==> (t.0 < threads.len()
            && threads[t.0 as int].status != Status::Exited && threads[t.0 as int].pc == pc),
{
    lemma_blocked(threads, 0, Seq::empty(), t, pc);
}

/// A complete warp group led by thread `i`: its members, if there are any.
pub open spec fn warp_group_of(m: Machine, i: int) -> Gathered
    recommends
        m.threads[i].status is AtWarpOp,
{
    gather_lanes(
        m,
        m.threads[i].pc,
        m.threads[i].status->AtWarpOp_mask,
        (i as u32 / WARP_SIZE * WARP_SIZE) as u32,
        0,
        Seq::empty(),
    )
}

proof fn lemma_no_warp_group(m: Machine, from: int, i: int)
    requires
        m.ready_warp_group(from) is Nothing,
        0 <= from <= i < m.threads.len(),
        m.threads[i].status is AtWarpOp,
    ensures
        warp_group_of(m, i) is Apart || (warp_group_of(m, i) matches Gathered::Members(g)
            && g.len() == 0),
    decreases m.threads.len() - from,
{
    if from < i {
        lemma_no_warp_group(m, from + 1, i);
    }
}

/// Nothing goes on exactly when no warp group and no warpgroup is complete,
/// the block barrier is not, and no waiter's phase is; then nothing changes.
pub proof fn the_scheduler_stops_only_when_stuck(m: Machine)
    ensures
        m.fire().1 == Ok::<bool, EvalError>(false) <==> m.ready_warp_group(0) is Nothing
            && m.ready_warpgroup(0) is Nothing && !barrier_complete(m.threads) && waiters_from(
            m.threads,
            m.mbarriers,
            0,
            Seq::empty(),
        ).len() == 0,
        m.fire().1 == Ok::<bool, EvalError>(false) ==> m.fire().0 == m,
{
}

/// A stuck warp has a lane that has not arrived: no thread that waits in a
/// warp operation leads a complete group.
pub proof fn a_stuck_warp_misses_a_lane(m: Machine, i: int)
    requires
        m.fire().1 == Ok::<bool, EvalError>(false),
        0 <= i < m.threads.len(),
        m.threads[i].status is AtWarpOp,
    ensures
        warp_group_of(m, i) is Apart || (warp_group_of(m, i) matches Gathered::Members(g)
            && g.len() == 0),
{
    the_scheduler_stops_only_when_stuck(m);
    lemma_no_warp_group(m, 0, i);
}

// ---------------------------------------------------------------------------
// Memory
// ---------------------------------------------------------------------------

/// A thread does not race with itself: after a write of its own, a read of
/// the same bytes meets no hazard.
proof fn lemma_own_write_is_readable(
    s: RaceState,
    end: RaceState,
    space: MemSpace,
    addr: u64,
    width: u64,
    t: ThreadId,
    pc: InstrId,
    same: bool,
    next: InstrId,
)
    requires
        addr + width <= u64::MAX,
        s.write_hazard(space, addr, width, t, pc, same) is None,
        ({
            let after = s.after_write(space, addr, width, t, pc, same);
            end.chi == after.chi && end.locks == after.locks && end.async_unfenced
                == after.async_unfenced
        }),
    ensures
        end.read_hazard(space, addr, width, t, next, Proxy::Generic) is None,
{
    let (from, to) = (addr as int, addr + width);
    let locked = |b: u64| write_lock(s.locks[(space, b)]) is Some;
    let unfenced = |b: u64|
        s.async_unfenced.contains_key((space, b)) && s.async_unfenced[(space, b)].1.contains(
            t.0 as usize,
        );
    first_byte_is_first(from, to, locked);
    first_byte_is_first(from, to, unfenced);
    first_byte_is_first(from, to, |b: u64| end.locks[(space, b)].dst is Some);
    first_byte_is_first(
        from,
        to,
        |b: u64|
            end.async_unfenced.contains_key((space, b)) && end.async_unfenced[(
                space,
                b,
            )].1.contains(t.0 as usize),
    );
    first_byte_is_first(from, to, |b: u64| read_races(end.chi[(space, b)], t.0));
    match end.first_dst_locked(space, addr, width) {
        Some(b) => {
            assert(locked(b));
        },
        None => {},
    }
    match end.first_async_unfenced(space, addr, width, t.0) {
        Some(b) => {
            assert(unfenced(b));
        },
        None => {},
    }
}

proof fn lemma_halved_keeps(
    m: Machine,
    space: MemSpace,
    t: ThreadId,
    start: u64,
    found: u64,
    addr: u64,
    width: u64,
)
    requires
        t.0 < m.locals.len(),
    ensures
        ({
            let (n, _) = m.halved_toward(space, t, start, found, addr, width);
            n.race == m.race && n.env == m.env && n.locals.len() == m.locals.len()
        }),
    decreases found,
{
    let cells = m.memory(space, t);
    if found > width {
        if let Some((w, e, _)) = scalar_cell_of(cells, start) {
            if let Some(c) = m.exprs.as_int(e) {
                if !(w != found || w % 2 != 0 || w > 8) {
                    let half = (found / 2) as u64;
                    let bits = (half * 8) as nat;
                    let (s1, lo) = m.exprs.int_const(low(c as int, bits) as i64);
                    let (s2, hi) = s1.int_const(low((c >> (half * 8) as u64) as int, bits) as i64);
                    let n = m.with_exprs(s2).with_memory(
                        space,
                        t,
                        halved(cells, start, lo, hi),
                    );
                    let next = if addr >= start + half {
                        (start + half) as u64
                    } else {
                        start
                    };
                    lemma_halved_keeps(n, space, t, next, half, addr, width);
                    assert(m.halved_toward(space, t, start, found, addr, width)
                        == n.halved_toward(space, t, next, half, addr, width));
                }
            }
        }
    }
}

/// A store takes effect: the next load of the same bytes by the same thread
/// succeeds and gives back what was stored.
pub proof fn a_thread_reads_back_its_store(
    m: Machine,
    t: ThreadId,
    pc: InstrId,
    space: MemSpace,
    addr: u64,
    width: u64,
    value: Value,
    next: InstrId,
)
    requires
        addr + width <= u64::MAX,
        t.0 < m.locals.len(),
        m.mem_write(t, pc, space, addr, width, value).1 is Ok,
    ensures
        m.mem_write(t, pc, space, addr, width, value).0.mem_read(t, next, space, addr, width).1
            == Ok::<Value, EvalError>(value),
{
    reveal(Machine::mem_write);
    reveal(Machine::mem_read_via);
    let end = m.mem_write(t, pc, space, addr, width, value).0;
    lemma_written(m, t, pc, space, addr, width, value);
    if space != MemSpace::Local {
        let first = m.race;
        if first.write_hazard(space, addr, width, t, pc, false) is None {
            lemma_own_write_is_readable(first, end.race, space, addr, width, t, pc, false, next);
        } else {
            let second = first.after_write(space, addr, width, t, pc, false);
            lemma_own_write_is_readable(second, end.race, space, addr, width, t, pc, true, next);
        }
    }
}

/// Whoever reads the stored bytes next gets what was stored or an error.
pub proof fn a_read_never_misses_the_last_store(
    m: Machine,
    t: ThreadId,
    pc: InstrId,
    space: MemSpace,
    addr: u64,
    width: u64,
    value: Value,
    reader: ThreadId,
    next: InstrId,
)
    requires
        space != MemSpace::Local,
        t.0 < m.locals.len(),
        m.mem_write(t, pc, space, addr, width, value).1 is Ok,
    ensures
        m.mem_write(t, pc, space, addr, width, value).0.mem_read(
            reader,
            next,
            space,
            addr,
            width,
        ).1 matches Ok(v) ==> v == value,
{
    reveal(Machine::mem_write);
    reveal(Machine::mem_read_via);
    lemma_written(m, t, pc, space, addr, width, value);
}

proof fn lemma_write_value(
    m: Machine,
    t: ThreadId,
    pc: InstrId,
    space: MemSpace,
    addr: u64,
    width: u64,
    value: Value,
)
    requires
        t.0 < m.locals.len(),
        m.write_value(t, pc, space, addr, width, value).1 is Ok,
    ensures
        ({
            let n = m.write_value(t, pc, space, addr, width, value).0;
            n.race == m.race && n.env == m.env && read_cells(n.memory(space, t), addr, width)
                == Ok::<Value, MemAccessError>(value)
        }),
{
    match write_refused(m.memory(space, t), addr, width, value, 0) {
        None => {
            read_after_write(m.memory(space, t), addr, width, value);
        },
        Some(e) => match e {
            MemAccessError::Reinterpret {
                found: Some((start, found_width, GranuleKind::Scalar)),
                ..
            } => {
                lemma_halved_keeps(m, space, t, start, found_width, addr, width);
                let (n, done) = m.split_for(space, t, start, found_width, addr, width);
                read_after_write(n.memory(space, t), addr, width, value);
            },
            _ => {},
        },
    }
}

/// After a successful store the bytes hold the value.
pub(crate) proof fn lemma_written(
    m: Machine,
    t: ThreadId,
    pc: InstrId,
    space: MemSpace,
    addr: u64,
    width: u64,
    value: Value,
)
    requires
        t.0 < m.locals.len(),
        m.mem_write(t, pc, space, addr, width, value).1 is Ok,
    ensures
        ({
            let n = m.mem_write(t, pc, space, addr, width, value).0;
            &&& n.env == m.env
            &&& read_cells(n.memory(space, t), addr, width) == Ok::<Value, MemAccessError>(value)
            &&& space != MemSpace::Local ==> ({
                let after = m.write_checked(t, pc, space, addr, width, value).0.race;
                n.race.chi == after.chi && n.race.locks == after.locks && n.race.async_unfenced
                    == after.async_unfenced
            })
        }),
{
    reveal(Machine::mem_write);
    if space == MemSpace::Local {
        lemma_write_value(m, t, pc, space, addr, width, value);
    } else {
        let c = m.write_checked(t, pc, space, addr, width, value).0;
        let marked = if space == MemSpace::Shared && m.env.features.async_proxy_fence {
            c.with_race(
                c.race.mark_generic(
                    addr,
                    addr + width,
                    AccessSite { thread: t, pc, is_write: true },
                ),
            )
        } else {
            c
        };
        lemma_write_value(marked, t, pc, space, addr, width, value);
    }
}

} // verus!
