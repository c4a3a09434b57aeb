//! What synchronizations order and what they do not: a warp operation orders
//! the lanes of its mask among each other, a block barrier everybody, a
//! barrier-object wait the waiter and the threads that arrived.

use vstd::prelude::*;

use crate::eval::machine::{Machine, Status, ThreadModel};
use crate::eval::race::{
    Chi, RaceState, lowest_reader_is_lowest, read_races, reader_conflicts, sync_chi, write_conflict,
};
use crate::eval::value::MbarrierId;
use crate::eval::{ThreadId, WARP_SIZE};
use crate::lowered::{InstrId, LoweredInstr, MemSpace, Operand};

verus! {

/// Whether a lane of the warp that starts at thread `base` is named by a mask.
pub open spec fn named(base: int, mask: u32, u: usize) -> bool {
    base <= u < base + 32 && (mask >> ((u - base) as u32)) & 1u32 == 1
}

/// The last writer of a byte, if there is a recorded one.
pub open spec fn writer(c: Chi) -> u32 {
    match c.wr {
        Some((w, _, _)) => w,
        None => 0,
    }
}

/// Whether a synchronization ordered the threads of a group among each other
/// and nobody else: an access races afterwards exactly if it did before and
/// the two threads are not both in the group.
pub open spec fn orders_only(
    before: RaceState,
    after: RaceState,
    n_threads: u32,
    group: spec_fn(usize) -> bool,
) -> bool {
    &&& forall|k: (MemSpace, u64), t: u32|
        t < n_threads ==> #[trigger] read_races(after.chi[k], t) == (read_races(before.chi[k], t)
            && !(group(writer(before.chi[k]) as usize) && group(t as usize)))
    &&& forall|k: (MemSpace, u64), t: u32, u: u32|
        t < n_threads ==> #[trigger] reader_conflicts(after.chi[k], t, u) == (reader_conflicts(
            before.chi[k],
            t,
            u,
        ) && !(group(u as usize) && group(t as usize)))
}

/// Whether the accesses of the block are by threads of the block.
pub open spec fn by_members(s: RaceState, n_threads: u32) -> bool {
    forall|k: (MemSpace, u64)|
        {
            &&& (#[trigger] s.chi[k]).wr matches Some((w, _, _)) ==> w < n_threads
            &&& forall|u: u32| #[trigger] s.chi[k].rd.contains_key(u) ==> u < n_threads
        }
}

proof fn lemma_group_once(c: Chi, g: Set<usize>, t: u32, u: u32)
    ensures
        read_races(sync_chi(c, g), t) == (read_races(c, t) && !(g.contains(writer(c) as usize)
            && g.contains(t as usize))),
        reader_conflicts(sync_chi(c, g), t, u) == (reader_conflicts(c, t, u) && !(g.contains(
            u as usize,
        ) && g.contains(t as usize))),
{
    let d = sync_chi(c, g);
    let e = Set::<usize>::empty();
    assert(!e.contains(t as usize));
    if let Some((w, pending, _)) = c.wr {
        assert(pending.difference(g).contains(t as usize) == (pending.contains(t as usize)
            && !g.contains(t as usize)));
    }
    if c.rd.contains_key(u) {
        assert(c.rd[u].0.difference(g).contains(t as usize) == (c.rd[u].0.contains(t as usize)
            && !g.contains(t as usize)));
    }
}

/// A group that synchronizes twice in a row orders its threads and nobody
/// else.
proof fn lemma_group_twice(
    s: RaceState,
    g: Set<usize>,
    n_threads: u32,
    group: spec_fn(usize) -> bool,
)
    requires
        by_members(s, n_threads),
        forall|u: usize| u < n_threads ==> (#[trigger] group(u) == g.contains(u)),
    ensures
        orders_only(s, s.synced_group(g), n_threads, group),
        orders_only(s, s.synced_group(g).synced_group(g), n_threads, group),
{
    let s1 = s.synced_group(g);
    let s2 = s1.synced_group(g);
    assert forall|k: (MemSpace, u64), t: u32| t < n_threads implies #[trigger] read_races(
        s1.chi[k],
        t,
    ) == (read_races(s.chi[k], t) && !(group(writer(s.chi[k]) as usize) && group(
        t as usize,
    ))) by {
        lemma_group_once(s.chi[k], g, t, 0);
        let _ = s.chi[k];
    }
    assert forall|k: (MemSpace, u64), t: u32, u: u32|
        t < n_threads implies #[trigger] reader_conflicts(s1.chi[k], t, u) == (reader_conflicts(
        s.chi[k],
        t,
        u,
    ) && !(group(u as usize) && group(t as usize))) by {
        lemma_group_once(s.chi[k], g, t, u);
        let _ = s.chi[k];
    }
    assert forall|k: (MemSpace, u64), t: u32| t < n_threads implies #[trigger] read_races(
        s2.chi[k],
        t,
    ) == (read_races(s.chi[k], t) && !(group(writer(s.chi[k]) as usize) && group(
        t as usize,
    ))) by {
        lemma_group_once(s.chi[k], g, t, 0);
        lemma_group_once(s1.chi[k], g, t, 0);
        let _ = s.chi[k];
    }
    assert forall|k: (MemSpace, u64), t: u32, u: u32|
        t < n_threads implies #[trigger] reader_conflicts(s2.chi[k], t, u) == (reader_conflicts(
        s.chi[k],
        t,
        u,
    ) && !(group(u as usize) && group(t as usize))) by {
        lemma_group_once(s.chi[k], g, t, u);
        lemma_group_once(s1.chi[k], g, t, u);
        let _ = s.chi[k];
    }
}

/// Whether a machine differs from another in where threads stand at most.
pub open spec fn moved_on(m: Machine, n: Machine) -> bool {
    &&& n == (Machine { threads: n.threads, ..m })
    &&& n.threads.len() == m.threads.len()
    &&& forall|i: int|
        0 <= i < m.threads.len() ==> #[trigger] n.threads[i] == (ThreadModel {
            pc: n.threads[i].pc,
            status: n.threads[i].status,
            ..m.threads[i]
        })
}

/// Unblocking changes nothing but where the members stand.
pub(crate) proof fn lemma_advanced(m: Machine, members: Seq<ThreadId>, k: int)
    requires
        0 <= k <= members.len(),
        forall|i: int| 0 <= i < members.len() ==> (#[trigger] members[i]).0 < m.threads.len(),
    ensures
        moved_on(m, m.all_advanced(members, k)),
        forall|i: int|
            k <= i < members.len() ==> m.all_advanced(members, k).thread(
                #[trigger] members[i],
            ).status == Status::Ready,
        forall|u: ThreadId|
            m.thread(u).status == Status::Ready && u.0 < m.threads.len()
                ==> #[trigger] m.all_advanced(members, k).thread(u).status == Status::Ready,
    decreases members.len() - k,
{
    if k < members.len() {
        let m1 = m.advanced(members[k]);
        lemma_advanced(m1, members, k + 1);
        let n = m.all_advanced(members, k);
        assert forall|i: int| 0 <= i < m.threads.len() implies #[trigger] n.threads[i] == (
        ThreadModel { pc: n.threads[i].pc, status: n.threads[i].status, ..m.threads[i] }) by {
            assert(n.threads[i] == (ThreadModel {
                pc: n.threads[i].pc,
                status: n.threads[i].status,
                ..m1.threads[i]
            }));
        }
        assert(m1.thread(members[k]).status == Status::Ready);
        assert(n.thread(members[k]).status == Status::Ready);
    }
}

// ---------------------------------------------------------------------------
// Laws
// ---------------------------------------------------------------------------

/// A warp synchronization orders exactly the lanes that its mask names, in
/// the warp of the threads that execute it: an access still races unless both
/// threads are such lanes. Registers and memory stay as they are, and every
/// member goes on.
pub proof fn a_warp_sync_orders_the_lanes_of_its_mask(
    m: Machine,
    pc: InstrId,
    mask: u32,
    members: Seq<ThreadId>,
    operand: Operand,
    base: int,
)
    requires
        pc.0 < m.env.program.instructions@.len(),
        m.env.program.instructions@[pc.0 as int] == (LoweredInstr::BarWarpSync { mask: operand }),
        members.len() > 0,
        m.threads.len() == m.env.n_threads,
        forall|i: int| 0 <= i < members.len() ==> (#[trigger] members[i]).0 < m.threads.len(),
        base % 32 == 0,
        base <= members[0].0 < base + 32,
        by_members(m.race, m.env.n_threads),
    ensures
        ({
            let (z, r) = m.warp_op(pc, mask, members);
            &&& r is Ok
            &&& orders_only(m.race, z.race, m.env.n_threads, |u: usize| named(base, mask, u))
            &&& z.global == m.global
            &&& z.shared == m.shared
            &&& z.locals == m.locals
            &&& z.threads.len() == m.threads.len()
            &&& forall|i: int|
                0 <= i < m.threads.len() ==> (#[trigger] z.threads[i]).regs == m.threads[i].regs
            &&& forall|i: int|
                0 <= i < members.len() ==> z.thread(#[trigger] members[i]).status == Status::Ready
        }),
{
    reveal(Machine::warp_effect);
    let t = members[0];
    let first = (t.0 / WARP_SIZE * WARP_SIZE) as u32;
    assert(first == base);
    let g = crate::eval::cooperative::masked(first, mask, m.env.n_threads);
    let group = |u: usize| named(base, mask, u);
    assert forall|u: usize| u < m.env.n_threads implies #[trigger] group(u) == g.contains(u) by {
        if base <= u < base + 32 {
            let x = mask >> ((u - base) as u32);
            assert(x & 1 == 1 || x & 1 == 0) by (bit_vector);
        }
    }
    let m0 = m.counting_warp_sync().synced(g);
    let m1 = m0.synced(g);
    lemma_group_twice(m.race, g, m.env.n_threads, group);
    lemma_advanced(m1, members, 0);
    let z = m.warp_op(pc, mask, members).0;
    assert(z == m1.all_advanced(members, 0));
    assert forall|i: int| 0 <= i < m.threads.len() implies (#[trigger] z.threads[i]).regs
        == m.threads[i].regs by {
        assert(m1.threads[i] == m.threads[i]);
    }
}

/// A write by a thread outside the mask's lanes still races with a read by
/// any other thread after the warp synchronization, and with a write.
pub proof fn a_warp_sync_does_not_order_outsiders(
    m: Machine,
    pc: InstrId,
    mask: u32,
    members: Seq<ThreadId>,
    operand: Operand,
    base: int,
    k: (MemSpace, u64),
    reader: u32,
)
    requires
        pc.0 < m.env.program.instructions@.len(),
        m.env.program.instructions@[pc.0 as int] == (LoweredInstr::BarWarpSync { mask: operand }),
        members.len() > 0,
        m.threads.len() == m.env.n_threads,
        forall|i: int| 0 <= i < members.len() ==> (#[trigger] members[i]).0 < m.threads.len(),
        base % 32 == 0,
        base <= members[0].0 < base + 32,
        by_members(m.race, m.env.n_threads),
        reader < m.env.n_threads,
        read_races(m.race.chi[k], reader),
        !named(base, mask, writer(m.race.chi[k]) as usize) || !named(
            base,
            mask,
            reader as usize,
        ),
    ensures
        read_races(m.warp_op(pc, mask, members).0.race.chi[k], reader),
        write_conflict(m.warp_op(pc, mask, members).0.race.chi[k], reader, false) is Some,
{
    a_warp_sync_orders_the_lanes_of_its_mask(m, pc, mask, members, operand, base);
    let z = m.warp_op(pc, mask, members).0;
    assert(read_races(z.race.chi[k], reader));
}

/// A block barrier orders everybody: nothing races right after it.
pub proof fn a_block_barrier_orders_everybody(m: Machine, k: (MemSpace, u64), t: u32)
    ensures
        !read_races(m.barrier_fired().race.chi[k], t),
        write_conflict(m.barrier_fired().race.chi[k], t, false) is None,
{
    let c = m.barrier_fired().race.chi[k];
    lowest_reader_is_lowest(c, t);
}

/// A wait on a barrier object orders the waiter and the threads whose
/// arrivals completed the phase, and nobody else.
pub proof fn a_barrier_wait_orders_the_waiter_and_the_arrivers(
    m: Machine,
    t: ThreadId,
    id: MbarrierId,
)
    requires
        t.0 < m.threads.len(),
        by_members(m.race, m.env.n_threads),
        m.wake(t, id).1 is Ok,
    ensures
        orders_only(
            m.race,
            m.wake(t, id).0.race,
            m.env.n_threads,
            |u: usize|
                u == t.0 as usize || m.mbarriers[id.0 as int].prior_participants.contains(u),
        ),
        m.wake(t, id).0.thread(t).status == Status::Ready,
        m.wake(t, id).0.shared == m.shared,
        m.wake(t, id).0.global == m.global,
{
    let g = m.mbarriers[id.0 as int].prior_participants.insert(t.0 as usize);
    let group = |u: usize|
        u == t.0 as usize || m.mbarriers[id.0 as int].prior_participants.contains(u);
    assert forall|u: usize| u < m.env.n_threads implies #[trigger] group(u) == g.contains(u) by {}
    lemma_group_twice(m.race, g, m.env.n_threads, group);
}

} // verus!
