//! What holds of asynchronous copies from issue to wait: which of them a wait
//! completes, which stay in flight, and that nobody touches a destination
//! before.

use vstd::prelude::*;

use crate::eval::ThreadId;
use crate::eval::error::EvalError;
use crate::eval::int_ops::low;
use crate::eval::machine::{CopyModel, Machine, ThreadModel};
use crate::eval::memory::{GranuleKind, MemAccessError, halved, scalar_cell_of, write_refused};
use crate::eval::race::{Proxy, first_byte_is_first, write_lock};
use crate::eval::step::Flow;
use crate::eval::value::Value;
use crate::lowered::{InstrId, LoweredInstr, MemSpace};

verus! {

/// Whether a byte of shared memory belongs to a copy's destination.
pub open spec fn aims_at(c: CopyModel, b: u64) -> bool {
    c.dst_addr <= b < c.dst_addr + c.cp_size
}

/// Whether a copy of a group aims at a byte.
pub open spec fn group_aims_at(g: Seq<CopyModel>, b: u64) -> bool {
    exists|i: int| 0 <= i < g.len() && aims_at(#[trigger] g[i], b)
}

/// Whether one of the first `n` groups aims at a byte.
pub open spec fn some_aims_at(groups: Seq<Seq<CopyModel>>, n: int, b: u64) -> bool {
    exists|j: int| 0 <= j < n && group_aims_at(#[trigger] groups[j], b)
}

/// Whether a byte of shared memory is the destination of a copy in flight.
pub open spec fn in_flight(m: Machine, b: u64) -> bool {
    m.race.locks[(MemSpace::Shared, b)].dst is Some
}

/// Whether only shared memory, expressions and recorded accesses changed.
spec fn stored(m: Machine, n: Machine) -> bool {
    &&& n == (Machine { exprs: n.exprs, shared: n.shared, race: n.race, ..m })
    &&& n.race.locks == m.race.locks
}

proof fn lemma_halved_frame(
    m: Machine,
    t: ThreadId,
    start: u64,
    found: u64,
    addr: u64,
    width: u64,
)
    ensures
        stored(m, m.halved_toward(MemSpace::Shared, t, start, found, addr, width).0),
    decreases found,
{
    let cells = m.memory(MemSpace::Shared, t);
    if found > width {
        if let Some((w, e, _)) = scalar_cell_of(cells, start) {
            if let Some(c) = m.exprs.as_int(e) {
                if !(w != found || w % 2 != 0 || w > 8) {
                    let half = (found / 2) as u64;
                    let bits = (half * 8) as nat;
                    let (s1, lo) = m.exprs.int_const(low(c as int, bits) as i64);
                    let (s2, hi) = s1.int_const(low((c >> (half * 8) as u64) as int, bits) as i64);
                    let n = m.with_exprs(s2).with_memory(
                        MemSpace::Shared,
                        t,
                        halved(cells, start, lo, hi),
                    );
                    let next = if addr >= start + half {
                        (start + half) as u64
                    } else {
                        start
                    };
                    lemma_halved_frame(n, t, next, half, addr, width);
                    assert(m.halved_toward(MemSpace::Shared, t, start, found, addr, width)
                        == n.halved_toward(MemSpace::Shared, t, next, half, addr, width));
                }
            }
        }
    }
}

#[verifier::rlimit(40)]
proof fn lemma_store_frame(
    m: Machine,
    t: ThreadId,
    pc: InstrId,
    addr: u64,
    width: u64,
    value: Value,
)
    ensures
        stored(m, m.mem_write(t, pc, MemSpace::Shared, addr, width, value).0),
{
    reveal(Machine::mem_write);
    let c = m.write_checked(t, pc, MemSpace::Shared, addr, width, value).0;
    assert(stored(m, c));
    let site = crate::eval::error::AccessSite { thread: t, pc, is_write: true };
    let marked = if m.env.features.async_proxy_fence {
        c.with_race(c.race.mark_generic(addr, addr + width, site))
    } else {
        c
    };
    assert(stored(m, marked));
    match write_refused(marked.memory(MemSpace::Shared, t), addr, width, value, 0) {
        None => {},
        Some(e) => match e {
            MemAccessError::Reinterpret {
                found: Some((start, found_width, GranuleKind::Scalar)),
                ..
            } => {
                lemma_halved_frame(marked, t, start, found_width, addr, width);
            },
            _ => {},
        },
    }
}

proof fn lemma_words_frame(
    m: Machine,
    t: ThreadId,
    pc: InstrId,
    dst: u64,
    words: Seq<Value>,
    i: int,
)
    ensures
        stored(m, m.store_words(t, pc, dst, words, i).0),
    decreases words.len() - i,
{
    if i < words.len() {
        let a = crate::eval::mem_ops::word_at(dst, i as u64);
        lemma_store_frame(m, t, pc, a, 4, words[i]);
        let (n, r) = m.mem_write(t, pc, MemSpace::Shared, a, 4, words[i]);
        if r is Ok {
            lemma_words_frame(n, t, pc, dst, words, i + 1);
        }
    }
}

/// Whether a copy of a group from the `k`-th on aims at a byte.
spec fn tail_aims_at(g: Seq<CopyModel>, k: int, b: u64) -> bool {
    exists|i: int| k <= i < g.len() && aims_at(#[trigger] g[i], b)
}

/// Completing copies changes no thread and releases exactly their
/// destinations.
spec fn completed(m: Machine, n: Machine, g: Seq<CopyModel>, k: int) -> bool {
    &&& n == (Machine { exprs: n.exprs, shared: n.shared, race: n.race, ..m })
    &&& forall|b: u64|
        #[trigger] in_flight(n, b) == (in_flight(m, b) && !tail_aims_at(g, k, b))
    &&& forall|b: u64|
        !#[trigger] tail_aims_at(g, k, b) ==> n.race.locks[(MemSpace::Shared, b)].dst
            == m.race.locks[(MemSpace::Shared, b)].dst
}

proof fn lemma_copy_completed(m: Machine, t: ThreadId, pc: InstrId, c: CopyModel, b: u64)
    requires
        m.complete_copy(t, pc, c).1 is Ok,
    ensures
        ({
            let n = m.complete_copy(t, pc, c).0;
            &&& n == (Machine { exprs: n.exprs, shared: n.shared, race: n.race, ..m })
            &&& in_flight(n, b) == (in_flight(m, b) && !aims_at(c, b))
            &&& !aims_at(c, b) ==> n.race.locks[(MemSpace::Shared, b)].dst == m.race.locks[(
                MemSpace::Shared,
                b,
            )].dst
        }),
{
    reveal(Machine::complete_copy);
    let m1 = m.with_race(
        m.race.released_dst(MemSpace::Shared, c.dst_addr, c.dst_addr + c.cp_size),
    );
    let m2 = m1.without_source(t, c);
    lemma_words_frame(m2, t, c.pc, c.dst_addr, c.words, 0);
    let n = m.complete_copy(t, pc, c).0;
    assert(n.race.locks == m2.race.locks);
}

proof fn lemma_group_completed(m: Machine, t: ThreadId, pc: InstrId, g: Seq<CopyModel>, k: int)
    requires
        0 <= k <= g.len(),
        m.complete_copies(t, pc, g, k).1 is Ok,
    ensures
        completed(m, m.complete_copies(t, pc, g, k).0, g, k),
    decreases g.len() - k,
{
    let n = m.complete_copies(t, pc, g, k).0;
    if k < g.len() {
        let m1 = m.complete_copy(t, pc, g[k]).0;
        lemma_group_completed(m1, t, pc, g, k + 1);
        lemma_copy_completed(m, t, pc, g[k], 0);
        assert forall|b: u64|
            #[trigger] in_flight(n, b) == (in_flight(m, b) && !tail_aims_at(g, k, b)) by {
            lemma_copy_completed(m, t, pc, g[k], b);
            lemma_tail(g, k, b);
            assert(in_flight(n, b) == (in_flight(m1, b) && !tail_aims_at(g, k + 1, b)));
        }
        assert forall|b: u64| !#[trigger] tail_aims_at(g, k, b) implies n.race.locks[(
            MemSpace::Shared,
            b,
        )].dst == m.race.locks[(MemSpace::Shared, b)].dst by {
            lemma_copy_completed(m, t, pc, g[k], b);
            lemma_tail(g, k, b);
        }
        assert(n == (Machine { exprs: n.exprs, shared: n.shared, race: n.race, ..m }));
        assert(completed(m, n, g, k));
    } else {
        assert forall|b: u64| !#[trigger] tail_aims_at(g, k, b) by {}
        assert(n == m);
        assert(m == (Machine { exprs: n.exprs, shared: n.shared, race: n.race, ..m }));
        assert(completed(m, m, g, k));
    }
}

proof fn lemma_tail(g: Seq<CopyModel>, k: int, b: u64)
    requires
        0 <= k < g.len(),
    ensures
        tail_aims_at(g, k, b) == (aims_at(g[k], b) || tail_aims_at(g, k + 1, b)),
{
    if tail_aims_at(g, k, b) {
        let i = choose|i: int| k <= i < g.len() && aims_at(#[trigger] g[i], b);
        if i > k {
            assert(k + 1 <= i < g.len() && aims_at(g[i], b));
        }
    }
    if aims_at(g[k], b) {
        assert(k <= k < g.len() && aims_at(g[k], b));
    }
    if tail_aims_at(g, k + 1, b) {
        let i = choose|i: int| k + 1 <= i < g.len() && aims_at(#[trigger] g[i], b);
        assert(k <= i < g.len() && aims_at(g[i], b));
    }
}

proof fn lemma_groups_completed(m: Machine, t: ThreadId, pc: InstrId, rounds: u64, k: int)
    requires
        t.0 < m.threads.len(),
        0 <= k <= rounds,
        rounds - k <= m.thread(t).groups.len(),
        m.complete_groups(t, pc, rounds, k).1 is Ok,
    ensures
        ({
            let n = m.complete_groups(t, pc, rounds, k).0;
            let g = m.thread(t).groups;
            &&& n.threads == m.threads.update(
                t.0 as int,
                ThreadModel { groups: g.skip(rounds - k), ..m.thread(t) },
            )
            &&& n.global == m.global
            &&& forall|b: u64|
                #[trigger] in_flight(n, b) == (in_flight(m, b) && !some_aims_at(g, rounds - k, b))
            &&& forall|b: u64|
                !#[trigger] some_aims_at(g, rounds - k, b) ==> n.race.locks[(
                    MemSpace::Shared,
                    b,
                )].dst == m.race.locks[(MemSpace::Shared, b)].dst
        }),
    decreases rounds - k,
{
    let g = m.thread(t).groups;
    let n = m.complete_groups(t, pc, rounds, k).0;
    if k < rounds {
        let m1 = m.without_group(t);
        let m2 = m1.complete_copies(t, pc, g[0], 0).0;
        lemma_group_completed(m1, t, pc, g[0], 0);
        let rest = g.remove(0);
        assert(m2.thread(t).groups == rest);
        lemma_groups_completed(m2, t, pc, rounds, k + 1);
        assert(rest.skip(rounds - k - 1) =~= g.skip(rounds - k));
        assert(n.threads =~= m.threads.update(
            t.0 as int,
            ThreadModel { groups: g.skip(rounds - k), ..m.thread(t) },
        ));
        assert forall|b: u64|
            #[trigger] some_aims_at(g, rounds - k, b) == (group_aims_at(g[0], b) || some_aims_at(
                rest,
                rounds - k - 1,
                b,
            )) by {
            if some_aims_at(g, rounds - k, b) {
                let j = choose|j: int| 0 <= j < rounds - k && group_aims_at(#[trigger] g[j], b);
                if j > 0 {
                    assert(rest[j - 1] == g[j]);
                    assert(group_aims_at(rest[j - 1], b));
                }
            }
            if group_aims_at(g[0], b) {
                assert(0 <= 0 < rounds - k && group_aims_at(g[0], b));
            }
            if some_aims_at(rest, rounds - k - 1, b) {
                let j = choose|j: int|
                    0 <= j < rounds - k - 1 && group_aims_at(#[trigger] rest[j], b);
                assert(g[j + 1] == rest[j]);
            }
        }
        assert forall|b: u64|
            #[trigger] in_flight(n, b) == (in_flight(m, b) && !some_aims_at(
                g,
                rounds - k,
                b,
            )) by {
            assert(in_flight(n, b) == (in_flight(m2, b) && !some_aims_at(rest, rounds - k - 1, b)));
            assert(tail_aims_at(g[0], 0, b) == group_aims_at(g[0], b));
            assert(in_flight(m2, b) == (in_flight(m1, b) && !group_aims_at(g[0], b)));
            assert(in_flight(m1, b) == in_flight(m, b));
        }
        assert forall|b: u64|
            !#[trigger] some_aims_at(g, rounds - k, b) implies n.race.locks[(
            MemSpace::Shared,
            b,
        )].dst == m.race.locks[(MemSpace::Shared, b)].dst by {
            assert(tail_aims_at(g[0], 0, b) == group_aims_at(g[0], b));
            assert(!group_aims_at(g[0], b) && !some_aims_at(rest, rounds - k - 1, b));
        }
    } else {
        assert forall|b: u64| !#[trigger] some_aims_at(g, rounds - k, b) by {}
        assert(n == m);
        assert(g.skip(0) =~= g);
        assert(n.threads =~= m.threads.update(
            t.0 as int,
            ThreadModel { groups: g.skip(0), ..m.thread(t) },
        ));
    }
}

// ---------------------------------------------------------------------------
// Laws
// ---------------------------------------------------------------------------

/// `cp.async.wait_group n` leaves the newest `n` groups pending, in their
/// order, or all of them if there are no more. Exactly the destinations of
/// the completed groups are released; every other byte stays locked by the
/// copy that holds it. The other threads are not concerned.
pub proof fn a_wait_completes_all_but_the_newest_groups(
    m: Machine,
    t: ThreadId,
    pc: InstrId,
    n: u32,
)
    requires
        t.0 < m.threads.len(),
        m.thread(t).groups.len() <= u64::MAX,
        m.execute(t, pc, LoweredInstr::CpAsyncWaitGroup { n }).1 is Ok,
    ensures
        ({
            let z = m.execute(t, pc, LoweredInstr::CpAsyncWaitGroup { n }).0;
            let g = m.thread(t).groups;
            let done = if g.len() <= n {
                0
            } else {
                g.len() - n
            };
            &&& z.threads == m.threads.update(
                t.0 as int,
                ThreadModel { groups: g.skip(done), ..m.thread(t) },
            )
            &&& z.thread(t).groups.len() == g.len() - done
            &&& z.thread(t).groups.len() <= n
            &&& forall|b: u64|
                #[trigger] in_flight(z, b) == (in_flight(m, b) && !some_aims_at(g, done, b))
            &&& forall|b: u64|
                !#[trigger] some_aims_at(g, done, b) ==> z.race.locks[(MemSpace::Shared, b)].dst
                    == m.race.locks[(MemSpace::Shared, b)].dst
        }),
{
    reveal(Machine::arithmetic);
    reveal(Machine::bitwise);
    reveal(Machine::movement);
    reveal(Machine::cp_async_wait);
    let g = m.thread(t).groups;
    if g.len() > n {
        let rounds = (g.len() - n) as u64;
        assert(m.execute(t, pc, LoweredInstr::CpAsyncWaitGroup { n }).0 == m.complete_groups(
            t,
            pc,
            rounds,
            0,
        ).0);
        lemma_groups_completed(m, t, pc, rounds, 0);
    } else {
        assert(g.skip(0) =~= g);
        assert(m.threads =~= m.threads.update(
            t.0 as int,
            ThreadModel { groups: g.skip(0), ..m.thread(t) },
        ));
    }
}

/// A wait for no more groups than there are has nothing to do and cannot
/// fail.
pub proof fn a_wait_without_an_older_group_does_nothing(
    m: Machine,
    t: ThreadId,
    pc: InstrId,
    n: u32,
)
    requires
        t.0 < m.threads.len(),
        m.thread(t).groups.len() <= n,
    ensures
        m.execute(t, pc, LoweredInstr::CpAsyncWaitGroup { n }) == (
            m,
            Ok::<Flow, EvalError>(Flow::Next),
        ),
{
    reveal(Machine::arithmetic);
    reveal(Machine::bitwise);
    reveal(Machine::movement);
    reveal(Machine::cp_async_wait);
}

/// A commit seals the copies issued since the last one into the newest group;
/// nothing lands.
pub proof fn a_commit_makes_the_newest_group(m: Machine, t: ThreadId, pc: InstrId)
    requires
        t.0 < m.threads.len(),
    ensures
        ({
            let (z, f) = m.execute(t, pc, LoweredInstr::CpAsyncCommitGroup);
            &&& f == Ok::<Flow, EvalError>(Flow::Next)
            &&& z.thread(t).uncommitted.len() == 0
            &&& z.thread(t).groups.len() == m.thread(t).groups.len() + 1
            &&& z.thread(t).groups.last() == m.thread(t).uncommitted
            &&& z.thread(t).groups.drop_last() == m.thread(t).groups
            &&& z == m.with_thread(t, z.thread(t))
            &&& z.thread(t).regs == m.thread(t).regs
        }),
{
    reveal(Machine::arithmetic);
    reveal(Machine::bitwise);
    reveal(Machine::movement);
    let z = m.execute(t, pc, LoweredInstr::CpAsyncCommitGroup).0;
    assert(z.thread(t).groups.drop_last() =~= m.thread(t).groups);
}

/// Nobody touches the destination of a copy in flight: a read or a write of
/// one of its bytes, by whichever thread, is refused, and a read is refused as
/// an asynchronous-copy hazard that names a locked byte.
pub proof fn a_copy_in_flight_is_not_touched(
    m: Machine,
    t: ThreadId,
    pc: InstrId,
    addr: u64,
    width: u64,
    value: Value,
    b: u64,
)
    requires
        in_flight(m, b),
        addr <= b < addr + width,
        addr + width <= u64::MAX,
    ensures
        m.mem_write(t, pc, MemSpace::Shared, addr, width, value).1 is Err,
        m.mem_read(t, pc, MemSpace::Shared, addr, width).1 is Err,
        m.access_error(t, pc, MemSpace::Shared, addr, width) is None ==> (m.mem_read(
            t,
            pc,
            MemSpace::Shared,
            addr,
            width,
        ).1->Err_0 matches EvalError::AsyncCopyHazard { space, addr: a, .. } && space
            == MemSpace::Shared && in_flight(m, a) && addr <= a <= b),
        m.access_error(t, pc, MemSpace::Shared, addr, width) is None ==> (m.mem_write(
            t,
            pc,
            MemSpace::Shared,
            addr,
            width,
            value,
        ).1->Err_0 matches EvalError::AsyncCopyHazard { space, .. } && space == MemSpace::Shared),
{
    reveal(Machine::mem_read_via);
    reveal(Machine::mem_write);
    let s = MemSpace::Shared;
    let p = |x: u64| m.race.locks[(s, x)].dst is Some;
    let q = |x: u64| write_lock(m.race.locks[(s, x)]) is Some;
    first_byte_is_first(addr as int, addr + width, p);
    first_byte_is_first(addr as int, addr + width, q);
    assert(p(b) && q(b));
    assert(m.race.first_dst_locked(s, addr, width) is Some);
    assert(m.race.first_locked(s, addr, width) is Some);
    let h = m.race.read_hazard(s, addr, width, t, pc, Proxy::Generic)->0;
    assert(h is AsyncCopy);
    let w = m.race.write_hazard(s, addr, width, t, pc, false)->0;
    assert(w is AsyncCopy);
    assert(!m.write_checked(t, pc, s, addr, width, value).0.benign(
        w,
        t,
        s,
        addr,
        width,
        value,
    ));
}

} // verus!
