//! Scheduling: which thread runs next, and which groups of blocked threads
//! can go on.
//!
//! A thread runs until it blocks or exits, then the first ready thread does.
//! When no thread is ready, complete warp groups, warpgroups, the block
//! barrier and barrier-object waiters are let go on, one after the other, as
//! long as there are any. If nothing could, the program is deadlocked.

use vstd::prelude::*;

use crate::eval::arith::unsupported;
use crate::eval::bitset::bits;
use crate::eval::cooperative::{next_pc, woken};
use crate::eval::error::{EvalError, EvalResult, WarpFault};
use crate::eval::interp::Interpreter;
use crate::eval::lists::thread_at;
use crate::eval::machine::{Machine, Out, Status, ThreadModel};
use crate::eval::mbarrier::Mbarrier;
use crate::eval::value::{MbarrierId, Value};
use crate::eval::{ThreadId, WARPGROUP_SIZE, WARP_SIZE};
use crate::lowered::{InstrId, LoweredInstr};

verus! {

// ---------------------------------------------------------------------------
// Model
// ---------------------------------------------------------------------------

/// The first ready thread from `i` on.
pub open spec fn first_ready(threads: Seq<ThreadModel>, i: int) -> Option<ThreadId>
    decreases threads.len() - i,
{
    if i < 0 || i >= threads.len() {
        None
    } else if threads[i].status == Status::Ready {
        Some(ThreadId(i as u32))
    } else {
        first_ready(threads, i + 1)
    }
}

pub open spec fn all_exited(threads: Seq<ThreadModel>) -> bool {
    forall|i: int| 0 <= i < threads.len() ==> (#[trigger] threads[i]).status == Status::Exited
}

/// The live threads from `i` on and where they are, after those in `acc`.
pub open spec fn blocked_from(
    threads: Seq<ThreadModel>,
    i: int,
    acc: Seq<(ThreadId, InstrId)>,
) -> Seq<(ThreadId, InstrId)>
    decreases threads.len() - i,
{
    if i < 0 || i >= threads.len() {
        acc
    } else if threads[i].status == Status::Exited {
        blocked_from(threads, i + 1, acc)
    } else {
        blocked_from(threads, i + 1, acc.push((ThreadId(i as u32), threads[i].pc)))
    }
}

/// The members of a group under collection.
pub enum Gathered {
    Failed(EvalError),
    /// Some live thread of the group is elsewhere.
    Apart,
    Members(Seq<ThreadId>),
}

/// What a search for a complete group came to.
pub enum Search {
    Failed(EvalError),
    Found(InstrId, u32, Seq<ThreadId>),
    Nothing,
}

/// The live lanes of a mask from `lane` on, after those in `acc`: all have to
/// be blocked at the same instruction with the same mask. Exited lanes count
/// as arrived.
pub open spec fn gather_lanes(
    m: Machine,
    pc: InstrId,
    mask: u32,
    base: u32,
    lane: int,
    acc: Seq<ThreadId>,
) -> Gathered
    decreases WARP_SIZE - lane,
{
    if lane < 0 || lane >= WARP_SIZE {
        Gathered::Members(acc)
    } else if (mask >> (lane as u32)) & 1 == 0 {
        gather_lanes(m, pc, mask, base, lane + 1, acc)
    } else if base + lane >= m.env.n_threads {
        Gathered::Failed(
            EvalError::WarpMismatch {
                pc,
                reason: WarpFault::LaneBeyondBlock {
                    mask,
                    lane: lane as u32,
                    n_threads: m.env.n_threads,
                },
            },
        )
    } else {
        let th = m.threads[base + lane];
        if th.status == (Status::AtWarpOp { mask }) && th.pc == pc {
            gather_lanes(
                m,
                pc,
                mask,
                base,
                lane + 1,
                acc.push(ThreadId((base + lane) as u32)),
            )
        } else if th.status == Status::Exited {
            gather_lanes(m, pc, mask, base, lane + 1, acc)
        } else {
            Gathered::Apart
        }
    }
}

/// The live threads of a warpgroup from `lane` on, after those in `acc`.
pub open spec fn gather_threads(
    m: Machine,
    pc: InstrId,
    base: u32,
    lane: int,
    acc: Seq<ThreadId>,
) -> Gathered
    decreases WARPGROUP_SIZE - lane,
{
    if lane < 0 || lane >= WARPGROUP_SIZE {
        Gathered::Members(acc)
    } else {
        let th = m.threads[base + lane];
        if th.status == Status::AtWarpgroupOp && th.pc == pc {
            gather_threads(m, pc, base, lane + 1, acc.push(ThreadId((base + lane) as u32)))
        } else if th.status == Status::Exited {
            gather_threads(m, pc, base, lane + 1, acc)
        } else {
            Gathered::Apart
        }
    }
}

/// The first barrier id that a thread from `i` on waits for, if every live
/// thread waits for that one; `seen` is the id of the threads before. None if
/// some live thread does not wait, or for another one.
pub open spec fn barrier_from(threads: Seq<ThreadModel>, i: int, seen: Option<u32>) -> Option<
    Option<u32>,
>
    decreases threads.len() - i,
{
    if i < 0 || i >= threads.len() {
        Some(seen)
    } else {
        match threads[i].status {
            Status::Exited => barrier_from(threads, i + 1, seen),
            Status::AtBarrier { id } => match seen {
                None => barrier_from(threads, i + 1, Some(id)),
                Some(prev) => if prev == id {
                    barrier_from(threads, i + 1, seen)
                } else {
                    None
                },
            },
            _ => None,
        }
    }
}

/// Whether every live thread waits for the same block barrier, and some does.
pub open spec fn barrier_complete(threads: Seq<ThreadModel>) -> bool {
    barrier_from(threads, 0, None) matches Some(Some(_))
}

/// A thread let past a block barrier.
pub open spec fn past_barrier(th: ThreadModel) -> ThreadModel {
    match th.status {
        Status::AtBarrier { .. } => ThreadModel {
            status: Status::Ready,
            pc: next_pc(th.pc),
            ..th
        },
        _ => th,
    }
}

/// The threads from `i` on whose awaited phase is complete, after those in
/// `acc`.
pub open spec fn waiters_from(
    threads: Seq<ThreadModel>,
    barriers: Seq<Mbarrier>,
    i: int,
    acc: Seq<(ThreadId, MbarrierId)>,
) -> Seq<(ThreadId, MbarrierId)>
    decreases threads.len() - i,
{
    if i < 0 || i >= threads.len() {
        acc
    } else {
        match threads[i].status {
            Status::AtMbarrier { id, phase_parity } if id.0 < barriers.len()
                && barriers[id.0 as int].parity_complete(phase_parity) => {
                waiters_from(threads, barriers, i + 1, acc.push((ThreadId(i as u32), id)))
            },
            _ => waiters_from(threads, barriers, i + 1, acc),
        }
    }
}

/// A fired group's effect.
pub open spec fn fired(o: Out<()>) -> Out<bool> {
    match o {
        (m, Err(e)) => (m, Err(e)),
        (m, Ok(_)) => (m, Ok(true)),
    }
}

/// How a run ends.
pub enum Finish {
    Done,
    Failed(EvalError),
    /// The live threads and where they are stuck.
    Deadlock(Seq<(ThreadId, InstrId)>),
}

/// An error as the end of a run.
pub open spec fn failure(e: EvalError) -> Finish {
    match e {
        EvalError::Deadlock { blocked } => Finish::Deadlock(blocked@),
        _ => Finish::Failed(e),
    }
}

/// A result as the end of a run.
pub open spec fn finish(r: EvalResult<()>) -> Finish {
    match r {
        Ok(_) => Finish::Done,
        Err(e) => failure(e),
    }
}

/// What the scheduler is about to do.
pub enum Phase {
    /// Look for a ready thread.
    Scan,
    /// Run a thread on.
    Thread(ThreadId),
    /// Let complete groups go on; whether one did already.
    Fire(bool),
}

impl Machine {
    /// The first complete warp group whose leader is thread `i` or later.
    pub open spec fn ready_warp_group(self, i: int) -> Search
        decreases self.threads.len() - i,
    {
        if i < 0 || i >= self.threads.len() {
            Search::Nothing
        } else {
            match self.threads[i].status {
                Status::AtWarpOp { mask } => {
                    let pc = self.threads[i].pc;
                    let base = (i as u32 / WARP_SIZE * WARP_SIZE) as u32;
                    match gather_lanes(self, pc, mask, base, 0, Seq::empty()) {
                        Gathered::Failed(e) => Search::Failed(e),
                        Gathered::Apart => self.ready_warp_group(i + 1),
                        Gathered::Members(members) => if members.len() == 0 {
                            self.ready_warp_group(i + 1)
                        } else {
                            Search::Found(pc, mask, members)
                        },
                    }
                },
                _ => self.ready_warp_group(i + 1),
            }
        }
    }

    /// The first complete warpgroup whose leader is thread `i` or later.
    pub open spec fn ready_warpgroup(self, i: int) -> Search
        decreases self.threads.len() - i,
    {
        if i < 0 || i >= self.threads.len() {
            Search::Nothing
        } else if self.threads[i].status != Status::AtWarpgroupOp {
            self.ready_warpgroup(i + 1)
        } else {
            let pc = self.threads[i].pc;
            let base = (i as u32 / WARPGROUP_SIZE * WARPGROUP_SIZE) as u32;
            if base + WARPGROUP_SIZE > self.env.n_threads {
                Search::Failed(
                    EvalError::WarpMismatch {
                        pc,
                        reason: WarpFault::GroupBeyondBlock {
                            start: base,
                            end: (base + WARPGROUP_SIZE) as u64,
                            n_threads: self.env.n_threads,
                        },
                    },
                )
            } else {
                match gather_threads(self, pc, base, 0, Seq::empty()) {
                    Gathered::Failed(e) => Search::Failed(e),
                    Gathered::Apart => self.ready_warpgroup(i + 1),
                    Gathered::Members(members) => if members.len() == 0 {
                        self.ready_warpgroup(i + 1)
                    } else {
                        Search::Found(pc, 0, members)
                    },
                }
            }
        }
    }

    /// The block barrier fired: nothing is pending any more, and the waiting
    /// threads go on.
    pub open spec fn barrier_fired(self) -> Machine {
        Machine {
            threads: self.threads.map_values(|th: ThreadModel| past_barrier(th)),
            ..self.with_race(self.race.synced_all())
        }
    }

    /// A waiter let go on: it synchronizes with the threads whose arrivals
    /// completed the phase, and learns that the wait is over.
    pub open spec fn wake(self, t: ThreadId, id: MbarrierId) -> Out<()> {
        let pc = self.thread(t).pc;
        if id.0 >= self.mbarriers.len() || pc.0 >= self.env.program.instructions@.len() {
            (self, Err(unsupported(pc, "barrier wait without a barrier")))
        } else {
            let group = self.mbarriers[id.0 as int].prior_participants.insert(t.0 as usize);
            let m = self.synced(group);
            match self.env.program.instructions@[pc.0 as int] {
                LoweredInstr::MbarrierWaitParity { wait_complete, .. } => {
                    let (s, token) = m.exprs.bool_val(true);
                    match m.with_exprs(s).write_reg(t, pc, wait_complete, Value::Scalar(token)) {
                        (m1, Err(e)) => (m1, Err(e)),
                        (m1, Ok(_)) => (m1.advanced(t), Ok(())),
                    }
                },
                _ => (m, Err(unsupported(pc, "barrier wait without a barrier"))),
            }
        }
    }

    /// The listed waiters let go on, from the `k`-th on.
    pub open spec fn wake_from(self, waiters: Seq<(ThreadId, MbarrierId)>, k: int) -> Out<()>
        decreases waiters.len() - k,
    {
        if k >= waiters.len() {
            (self, Ok(()))
        } else {
            match self.wake(waiters[k].0, waiters[k].1) {
                (m, Err(e)) => (m, Err(e)),
                (m, Ok(_)) => m.wake_from(waiters, k + 1),
            }
        }
    }

    /// Every thread whose awaited phase is complete let go on; whether there
    /// was one.
    pub open spec fn wake_waiters(self) -> Out<bool> {
        let waiters = waiters_from(self.threads, self.mbarriers, 0, Seq::empty());
        match self.wake_from(waiters, 0) {
            (m, Err(e)) => (m, Err(e)),
            (m, Ok(_)) => (m, Ok(waiters.len() > 0)),
        }
    }

    /// One complete group let go on; whether there was one.
    pub open spec fn fire(self) -> Out<bool> {
        match self.ready_warp_group(0) {
            Search::Failed(e) => (self, Err(e)),
            Search::Found(pc, mask, members) => fired(self.warp_op(pc, mask, members)),
            Search::Nothing => match self.ready_warpgroup(0) {
                Search::Failed(e) => (self, Err(e)),
                Search::Found(pc, _, members) => fired(self.warpgroup_op(pc, members)),
                Search::Nothing => if barrier_complete(self.threads) {
                    (self.barrier_fired(), Ok(true))
                } else {
                    self.wake_waiters()
                },
            },
        }
    }

    /// The end of a run that goes on from a phase, if it takes at most
    /// `fuel` scheduling steps.
    pub open spec fn go(self, phase: Phase, fuel: nat) -> Option<(Machine, Finish)>
        decreases fuel,
    {
        if fuel == 0 {
            None
        } else {
            let rest = (fuel - 1) as nat;
            match phase {
                Phase::Scan => match first_ready(self.threads, 0) {
                    Some(t) => self.go(Phase::Thread(t), rest),
                    None => if all_exited(self.threads) {
                        Some((self, Finish::Done))
                    } else {
                        self.go(Phase::Fire(false), rest)
                    },
                },
                Phase::Thread(t) => if self.thread(t).status == Status::Ready {
                    match self.step(t) {
                        (m, Err(e)) => Some((m, failure(e))),
                        (m, Ok(_)) => m.go(Phase::Thread(t), rest),
                    }
                } else {
                    self.go(Phase::Scan, rest)
                },
                Phase::Fire(any) => match self.fire() {
                    (m, Err(e)) => Some((m, failure(e))),
                    (m, Ok(more)) => if more {
                        m.go(Phase::Fire(true), rest)
                    } else if any {
                        m.go(Phase::Scan, rest)
                    } else {
                        Some((m, Finish::Deadlock(blocked_from(m.threads, 0, Seq::empty()))))
                    },
                },
            }
        }
    }

    /// Whether a run from here ends in a given state and way.
    pub open spec fn runs_to(self, end: Machine, how: Finish) -> bool {
        exists|fuel: nat| self.go(Phase::Scan, fuel) == Some((end, how))
    }
}

// ---------------------------------------------------------------------------
// Progress
// ---------------------------------------------------------------------------

/// How many threads are blocked.
pub open spec fn blocked_count(statuses: Seq<Status>) -> nat
    decreases statuses.len(),
{
    if statuses.len() == 0 {
        0
    } else {
        let rest = blocked_count(statuses.drop_last());
        if statuses.last() == Status::Ready || statuses.last() == Status::Exited {
            rest
        } else {
            rest + 1
        }
    }
}

proof fn lemma_woken_count(after: Seq<Status>, before: Seq<Status>)
    requires
        woken(after, before),
    ensures
        blocked_count(after) <= blocked_count(before),
    decreases before.len(),
{
    if before.len() > 0 {
        assert forall|i: int| 0 <= i < after.drop_last().len() implies (
        #[trigger] after.drop_last()[i] == before.drop_last()[i] || after.drop_last()[i]
            == Status::Ready) by {
            assert(after[i] == before[i] || after[i] == Status::Ready);
        }
        lemma_woken_count(after.drop_last(), before.drop_last());
        let n = before.len() - 1;
        assert(after[n] == before[n] || after[n] == Status::Ready);
    }
}

/// Waking a blocked thread leaves fewer blocked ones.
proof fn lemma_fewer_blocked(after: Seq<Status>, before: Seq<Status>, k: int)
    requires
        woken(after, before),
        0 <= k < before.len(),
        before[k] != Status::Ready,
        before[k] != Status::Exited,
        after[k] == Status::Ready,
    ensures
        blocked_count(after) < blocked_count(before),
    decreases before.len(),
{
    let n = before.len() - 1;
    assert forall|i: int| 0 <= i < after.drop_last().len() implies (#[trigger] after.drop_last()[i]
        == before.drop_last()[i] || after.drop_last()[i] == Status::Ready) by {
        assert(after[i] == before[i] || after[i] == Status::Ready);
    }
    assert(after[n] == before[n] || after[n] == Status::Ready);
    if k == n {
        lemma_woken_count(after.drop_last(), before.drop_last());
    } else {
        lemma_fewer_blocked(after.drop_last(), before.drop_last(), k);
    }
}

proof fn lemma_woken_trans(a: Seq<Status>, b: Seq<Status>, c: Seq<Status>)
    requires
        woken(a, b),
        woken(b, c),
    ensures
        woken(a, c),
{
    assert forall|i: int| 0 <= i < a.len() implies (#[trigger] a[i] == c[i] || a[i]
        == Status::Ready) by {
        assert(a[i] == b[i] || a[i] == Status::Ready);
        assert(b[i] == c[i] || b[i] == Status::Ready);
    }
}

// ---------------------------------------------------------------------------
// Execution
// ---------------------------------------------------------------------------

/// A search result as contracts speak of it.
pub open spec fn searched(r: EvalResult<Option<(InstrId, u32, Vec<ThreadId>)>>) -> Search {
    match r {
        Err(e) => Search::Failed(e),
        Ok(None) => Search::Nothing,
        Ok(Some((pc, mask, members))) => Search::Found(pc, mask, members@),
    }
}

/// A collection as contracts speak of it.
pub open spec fn gathered(r: EvalResult<Option<Vec<ThreadId>>>) -> Gathered {
    match r {
        Err(e) => Gathered::Failed(e),
        Ok(None) => Gathered::Apart,
        Ok(Some(members)) => Gathered::Members(members@),
    }
}

impl<'p> Interpreter<'p> {
    fn next_ready(&self) -> (r: Option<ThreadId>)
        requires
            self.wf(),
        ensures
            r == first_ready(self@.threads, 0),
            r matches Some(t) ==> self.has(t) && self@.thread(t).status == Status::Ready,
    {
        let mut i: u32 = 0;
        while i < self.setup.n_threads
            invariant
                self.wf(),
                i <= self.setup.n_threads,
                first_ready(self@.threads, 0) == first_ready(self@.threads, i as int),
            decreases self.setup.n_threads - i,
        {
            if thread_at(&self.threads, i as usize).status == Status::Ready {
                return Some(ThreadId(i));
            }
            i = i + 1;
        }
        None
    }

    fn is_finished(&self) -> (r: bool)
        requires
            self.wf(),
        ensures
            r == all_exited(self@.threads),
    {
        let mut i: u32 = 0;
        while i < self.setup.n_threads
            invariant
                self.wf(),
                i <= self.setup.n_threads,
                forall|k: int|
                    0 <= k < i ==> (#[trigger] self@.threads[k]).status == Status::Exited,
            decreases self.setup.n_threads - i,
        {
            if thread_at(&self.threads, i as usize).status != Status::Exited {
                assert(self@.threads[i as int].status != Status::Exited);
                return false;
            }
            i = i + 1;
        }
        true
    }

    fn deadlock_error(&self) -> (r: EvalError)
        requires
            self.wf(),
        ensures
            r matches EvalError::Deadlock { blocked } && blocked@ == blocked_from(
                self@.threads,
                0,
                Seq::empty(),
            ),
    {
        let mut blocked: Vec<(ThreadId, InstrId)> = Vec::new();
        let mut i: u32 = 0;
        while i < self.setup.n_threads
            invariant
                self.wf(),
                i <= self.setup.n_threads,
                blocked_from(self@.threads, 0, Seq::empty()) == blocked_from(
                    self@.threads,
                    i as int,
                    blocked@,
                ),
            decreases self.setup.n_threads - i,
        {
            if thread_at(&self.threads, i as usize).status != Status::Exited {
                blocked.push((ThreadId(i), thread_at(&self.threads, i as usize).pc));
            }
            i = i + 1;
        }
        EvalError::Deadlock { blocked }
    }

    fn gather_lanes(&self, pc: InstrId, mask: u32, base: u32) -> (r: EvalResult<
        Option<Vec<ThreadId>>,
    >)
        requires
            self.wf(),
        ensures
            gathered(r) == gather_lanes(self@, pc, mask, base, 0, Seq::empty()),
            r matches Ok(Some(v)) ==> self.has_all(v@) && v@.len() <= WARP_SIZE && forall|i: int|
                0 <= i < v@.len() ==> (#[trigger] self@.pace().1[v@[i].0 as int])
                    == (Status::AtWarpOp { mask }),
    {
        let mut members: Vec<ThreadId> = Vec::new();
        let mut lane: u32 = 0;
        while lane < WARP_SIZE
            invariant
                self.wf(),
                lane <= WARP_SIZE,
                members@.len() <= lane,
                self.has_all(members@),
                forall|i: int|
                    0 <= i < members@.len() ==> (#[trigger] self@.pace().1[members@[i].0 as int])
                        == (Status::AtWarpOp { mask }),
                gather_lanes(self@, pc, mask, base, 0, Seq::empty()) == gather_lanes(
                    self@,
                    pc,
                    mask,
                    base,
                    lane as int,
                    members@,
                ),
            decreases WARP_SIZE - lane,
        {
            if (mask >> lane) & 1 != 0 {
                if self.setup.n_threads <= base || lane >= self.setup.n_threads - base {
                    return Err(
                        EvalError::WarpMismatch {
                            pc,
                            reason: WarpFault::LaneBeyondBlock {
                                mask,
                                lane,
                                n_threads: self.setup.n_threads,
                            },
                        },
                    );
                }
                let tid: u32 = base + lane;
                let th = thread_at(&self.threads, tid as usize);
                assert(self@.threads[tid as int] == th@);
                if th.status == (Status::AtWarpOp { mask }) && th.pc == pc {
                    members.push(ThreadId(tid));
                } else if th.status != Status::Exited {
                    return Ok(None);
                }
            }
            lane = lane + 1;
        }
        Ok(Some(members))
    }

    /// Finds a warp group whose live members have all arrived at the same
    /// instruction with the same mask.
    fn find_ready_warp_group(&self) -> (r: EvalResult<Option<(InstrId, u32, Vec<ThreadId>)>>)
        requires
            self.wf(),
        ensures
            searched(r) == self@.ready_warp_group(0),
            r matches Ok(Some(g)) ==> self.has_all(g.2@) && 0 < g.2@.len() <= WARP_SIZE
                && self@.pace().1[g.2@[0].0 as int] == (Status::AtWarpOp { mask: g.1 }),
    {
        let mut i: u32 = 0;
        while i < self.setup.n_threads
            invariant
                self.wf(),
                i <= self.setup.n_threads,
                self@.ready_warp_group(0) == self@.ready_warp_group(i as int),
            decreases self.setup.n_threads - i,
        {
            if let Status::AtWarpOp { mask } = thread_at(&self.threads, i as usize).status {
                let pc = thread_at(&self.threads, i as usize).pc;
                match self.gather_lanes(pc, mask, i / WARP_SIZE * WARP_SIZE) {
                    Err(e) => {
                        return Err(e);
                    },
                    Ok(None) => {},
                    Ok(Some(members)) => {
                        if members.len() > 0 {
                            assert(self@.pace().1[members@[0].0 as int] == (Status::AtWarpOp {
                                mask,
                            }));
                            return Ok(Some((pc, mask, members)));
                        }
                    },
                }
            }
            i = i + 1;
        }
        Ok(None)
    }

    fn gather_threads(&self, pc: InstrId, base: u32) -> (r: EvalResult<Option<Vec<ThreadId>>>)
        requires
            self.wf(),
            base + WARPGROUP_SIZE <= self.setup.n_threads,
        ensures
            gathered(r) == gather_threads(self@, pc, base, 0, Seq::empty()),
            r matches Ok(Some(v)) ==> self.has_all(v@) && forall|i: int|
                0 <= i < v@.len() ==> base <= (#[trigger] v@[i]).0 < base + WARPGROUP_SIZE
                    && self@.pace().1[v@[i].0 as int] == Status::AtWarpgroupOp,
    {
        let mut members: Vec<ThreadId> = Vec::new();
        let mut lane: u32 = 0;
        while lane < WARPGROUP_SIZE
            invariant
                self.wf(),
                base + WARPGROUP_SIZE <= self.setup.n_threads,
                lane <= WARPGROUP_SIZE,
                self.has_all(members@),
                forall|i: int|
                    0 <= i < members@.len() ==> base <= (#[trigger] members@[i]).0 < base
                        + WARPGROUP_SIZE && self@.pace().1[members@[i].0 as int]
                        == Status::AtWarpgroupOp,
                gather_threads(self@, pc, base, 0, Seq::empty()) == gather_threads(
                    self@,
                    pc,
                    base,
                    lane as int,
                    members@,
                ),
            decreases WARPGROUP_SIZE - lane,
        {
            let tid: u32 = base + lane;
            let th = thread_at(&self.threads, tid as usize);
            assert(self@.threads[tid as int] == th@);
            if th.status == Status::AtWarpgroupOp && th.pc == pc {
                members.push(ThreadId(tid));
            } else if th.status != Status::Exited {
                return Ok(None);
            }
            lane = lane + 1;
        }
        Ok(Some(members))
    }

    /// Finds a warpgroup whose live members have all arrived at the same
    /// instruction.
    fn find_ready_warpgroup_op(&self) -> (r: EvalResult<Option<(InstrId, u32, Vec<ThreadId>)>>)
        requires
            self.wf(),
        ensures
            searched(r) == self@.ready_warpgroup(0),
            r matches Ok(Some(g)) ==> self.has_all(g.2@) && 0 < g.2@.len()
                && self@.pace().1[g.2@[0].0 as int] == Status::AtWarpgroupOp && g.2@[0].0
                / WARPGROUP_SIZE * WARPGROUP_SIZE + WARPGROUP_SIZE <= self.setup.n_threads,
    {
        let mut i: u32 = 0;
        while i < self.setup.n_threads
            invariant
                self.wf(),
                i <= self.setup.n_threads,
                self@.ready_warpgroup(0) == self@.ready_warpgroup(i as int),
            decreases self.setup.n_threads - i,
        {
            if thread_at(&self.threads, i as usize).status == Status::AtWarpgroupOp {
                let pc = thread_at(&self.threads, i as usize).pc;
                let base: u32 = i / WARPGROUP_SIZE * WARPGROUP_SIZE;
                if self.setup.n_threads < WARPGROUP_SIZE || base > self.setup.n_threads
                    - WARPGROUP_SIZE {
                    return Err(
                        EvalError::WarpMismatch {
                            pc,
                            reason: WarpFault::GroupBeyondBlock {
                                start: base,
                                end: base as u64 + WARPGROUP_SIZE as u64,
                                n_threads: self.setup.n_threads,
                            },
                        },
                    );
                }
                match self.gather_threads(pc, base) {
                    Err(e) => {
                        return Err(e);
                    },
                    Ok(None) => {},
                    Ok(Some(members)) => {
                        if members.len() > 0 {
                            assert(base <= members@[0].0 < base + WARPGROUP_SIZE);
                            return Ok(Some((pc, 0, members)));
                        }
                    },
                }
            }
            i = i + 1;
        }
        Ok(None)
    }

    fn is_barrier_complete(&self) -> (r: bool)
        requires
            self.wf(),
        ensures
            r == barrier_complete(self@.threads),
            r ==> exists|i: int|
                0 <= i < self@.threads.len() && (#[trigger] self@.pace().1[i]) is AtBarrier,
    {
        let mut seen: Option<u32> = None;
        let mut i: u32 = 0;
        while i < self.setup.n_threads
            invariant
                self.wf(),
                i <= self.setup.n_threads,
                barrier_from(self@.threads, 0, None) == barrier_from(
                    self@.threads,
                    i as int,
                    seen,
                ),
                seen is Some ==> exists|k: int|
                    0 <= k < self@.threads.len() && (#[trigger] self@.pace().1[k]) is AtBarrier,
            decreases self.setup.n_threads - i,
        {
            match thread_at(&self.threads, i as usize).status {
                Status::Exited => {},
                Status::AtBarrier { id } => {
                    assert(self@.pace().1[i as int] is AtBarrier);
                    match seen {
                        None => {
                            seen = Some(id);
                        },
                        Some(prev) => {
                            if prev != id {
                                return false;
                            }
                        },
                    }
                },
                _ => {
                    return false;
                },
            }
            i = i + 1;
        }
        seen.is_some()
    }

    /// Fires the block barrier if every live thread waits for the same one.
    fn try_fire_barrier(&mut self) -> (r: bool)
        requires
            old(self).wf(),
        ensures
            final(self).wf(),
            final(self).setup == old(self).setup,
            r == barrier_complete(old(self)@.threads),
            final(self)@ == (if r {
                old(self)@.barrier_fired()
            } else {
                old(self)@
            }),
            final(self)@.stats == old(self)@.stats,
            r ==> blocked_count(final(self)@.pace().1) < blocked_count(old(self)@.pace().1),
    {
        if !self.is_barrier_complete() {
            return false;
        }
        self.race.sync_all();
        let ghost before = self@.threads;
        let mut i: u32 = 0;
        while i < self.setup.n_threads
            invariant
                self.wf(),
                self.setup == old(self).setup,
                before == old(self)@.threads,
                i <= self.setup.n_threads,
                self@ == (Machine {
                    threads: self@.threads,
                    ..old(self)@.with_race(old(self)@.race.synced_all())
                }),
                self@.threads.len() == before.len(),
                forall|k: int|
                    0 <= k < before.len() ==> (#[trigger] self@.threads[k]) == (if k < i {
                        past_barrier(before[k])
                    } else {
                        before[k]
                    }),
            decreases self.setup.n_threads - i,
        {
            let ghost current = self@.threads;
            assert(current[i as int] == before[i as int]);
            if let Status::AtBarrier { .. } = thread_at(&self.threads, i as usize).status {
                self.advance(ThreadId(i));
                assert(self@.threads =~= current.update(i as int, past_barrier(before[i as int])));
            } else {
                assert(past_barrier(before[i as int]) == before[i as int]);
            }
            i = i + 1;
        }
        assert(self@.threads =~= old(self)@.barrier_fired().threads);
        proof {
            let (a, b) = (self@.pace().1, old(self)@.pace().1);
            let k = choose|k: int|
                0 <= k < old(self)@.threads.len() && (#[trigger] old(self)@.pace().1[k]) is AtBarrier;
            assert forall|j: int| 0 <= j < a.len() implies (#[trigger] a[j] == b[j] || a[j]
                == Status::Ready) by {
                assert(self@.threads[j] == past_barrier(before[j]));
            }
            assert(self@.threads[k] == past_barrier(before[k]));
            lemma_fewer_blocked(a, b, k);
        }
        true
    }

    fn waiters(&self) -> (r: Vec<(ThreadId, MbarrierId)>)
        requires
            self.wf(),
        ensures
            r@ == waiters_from(self@.threads, self@.mbarriers, 0, Seq::empty()),
            forall|i: int|
                0 <= i < r@.len() ==> (#[trigger] r@[i]).0.0 < self.setup.n_threads
                    && self@.pace().1[r@[i].0.0 as int] is AtMbarrier,
    {
        let mut list: Vec<(ThreadId, MbarrierId)> = Vec::new();
        let mut i: u32 = 0;
        while i < self.setup.n_threads
            invariant
                self.wf(),
                i <= self.setup.n_threads,
                waiters_from(self@.threads, self@.mbarriers, 0, Seq::empty()) == waiters_from(
                    self@.threads,
                    self@.mbarriers,
                    i as int,
                    list@,
                ),
                forall|k: int|
                    0 <= k < list@.len() ==> (#[trigger] list@[k]).0.0 < self.setup.n_threads
                        && self@.pace().1[list@[k].0.0 as int] is AtMbarrier,
            decreases self.setup.n_threads - i,
        {
            assert(self@.threads[i as int] == self.threads@[i as int]@);
            if let Status::AtMbarrier { id, phase_parity } = thread_at(&self.threads, i as usize).status {
                if id.0 < self.mbarriers.len() && self.mbarriers.parity_complete(
                    id,
                    phase_parity,
                ) {
                    assert(self@.pace().1[i as int] is AtMbarrier);
                    list.push((ThreadId(i), id));
                }
            }
            i = i + 1;
        }
        list
    }

    fn wake(&mut self, t: ThreadId, id: MbarrierId) -> (r: EvalResult<()>)
        requires
            old(self).wf(),
            old(self).has(t),
        ensures
            final(self).wf(),
            final(self).setup == old(self).setup,
            (final(self)@, r) == old(self)@.wake(t, id),
            final(self)@.stats == old(self)@.stats,
            woken(final(self)@.pace().1, old(self)@.pace().1),
            r is Ok ==> final(self)@.pace().1[t.0 as int] == Status::Ready,
    {
        let program = self.setup.program;
        let pc = thread_at(&self.threads, t.0 as usize).pc;
        if id.0 >= self.mbarriers.len() {
            return Err(unsupported(pc, "barrier wait without a barrier"));
        }
        let instr = match program.instruction(pc) {
            None => {
                return Err(unsupported(pc, "barrier wait without a barrier"));
            },
            Some(i) => i,
        };
        let mut group = self.mbarriers.prior_participants(id).clone();
        let ghost members = bits(group);
        group.insert(t.0 as usize);
        assert(bits(group) =~= members.insert(t.0 as usize));
        assert(members =~= self@.mbarriers[id.0 as int].prior_participants);
        self.race.sync_group(&group);
        if let LoweredInstr::MbarrierWaitParity { wait_complete, .. } = instr {
            let token = self.arena.bool_val(true);
            match self.write_reg(t, pc, *wait_complete, Value::Scalar(token)) {
                Err(e) => Err(e),
                Ok(_) => {
                    self.advance(t);
                    Ok(())
                },
            }
        } else {
            Err(unsupported(pc, "barrier wait without a barrier"))
        }
    }

    /// Wakes every thread blocked at a barrier object whose awaited phase is
    /// complete.
    fn try_fire_mbarrier(&mut self) -> (r: EvalResult<bool>)
        requires
            old(self).wf(),
        ensures
            final(self).wf(),
            final(self).setup == old(self).setup,
            (final(self)@, r) == old(self)@.wake_waiters(),
            final(self)@.stats == old(self)@.stats,
            r == Ok::<bool, EvalError>(true) ==> blocked_count(final(self)@.pace().1)
                < blocked_count(old(self)@.pace().1),
            r == Ok::<bool, EvalError>(false) ==> final(self)@ == old(self)@,
    {
        let waiters = self.waiters();
        let mut k: usize = 0;
        while k < waiters.len()
            invariant
                self.wf(),
                self.setup == old(self).setup,
                k <= waiters@.len(),
                waiters@ == waiters_from(
                    old(self)@.threads,
                    old(self)@.mbarriers,
                    0,
                    Seq::empty(),
                ),
                forall|i: int|
                    0 <= i < waiters@.len() ==> (#[trigger] waiters@[i]).0.0
                        < old(self).setup.n_threads && old(self)@.pace().1[waiters@[i].0.0 as int]
                        is AtMbarrier,
                old(self)@.wake_from(waiters@, 0) == self@.wake_from(waiters@, k as int),
                self@.stats == old(self)@.stats,
                woken(self@.pace().1, old(self)@.pace().1),
                k > 0 ==> self@.pace().1[waiters@[0].0.0 as int] == Status::Ready,
                k == 0 ==> self@ == old(self)@,
            decreases waiters@.len() - k,
        {
            let ghost mid = self@.pace().1;
            match self.wake(waiters[k].0, waiters[k].1) {
                Err(e) => {
                    return Err(e);
                },
                Ok(_) => {},
            }
            proof {
                lemma_woken_trans(self@.pace().1, mid, old(self)@.pace().1);
            }
            k = k + 1;
        }
        if waiters.len() > 0 {
            proof {
                assert(old(self)@.pace().1[waiters@[0].0.0 as int] is AtMbarrier);
                lemma_fewer_blocked(
                    self@.pace().1,
                    old(self)@.pace().1,
                    waiters@[0].0.0 as int,
                );
            }
            Ok(true)
        } else {
            Ok(false)
        }
    }

    /// Lets one complete group go on. Returns whether there was one.
    fn try_fire(&mut self) -> (r: EvalResult<bool>)
        requires
            old(self).wf(),
        ensures
            final(self).wf(),
            final(self).setup == old(self).setup,
            (final(self)@, r) == old(self)@.fire(),
            r is Ok ==> final(self)@.stats.instructions == old(self)@.stats.instructions,
            r == Ok::<bool, EvalError>(true) ==> blocked_count(final(self)@.pace().1)
                < blocked_count(old(self)@.pace().1),
            r == Ok::<bool, EvalError>(false) ==> final(self)@ == old(self)@,
    {
        match self.find_ready_warp_group() {
            Err(e) => {
                return Err(e);
            },
            Ok(Some((pc, mask, members))) => {
                return match self.execute_warp_op(pc, mask, &members) {
                    Err(e) => Err(e),
                    Ok(_) => {
                        proof {
                            lemma_fewer_blocked(
                                self@.pace().1,
                                old(self)@.pace().1,
                                members@[0].0 as int,
                            );
                        }
                        Ok(true)
                    },
                };
            },
            Ok(None) => {},
        }
        match self.find_ready_warpgroup_op() {
            Err(e) => {
                return Err(e);
            },
            Ok(Some((pc, _, members))) => {
                return match self.execute_warpgroup_op(pc, &members) {
                    Err(e) => Err(e),
                    Ok(_) => {
                        proof {
                            lemma_fewer_blocked(
                                self@.pace().1,
                                old(self)@.pace().1,
                                members@[0].0 as int,
                            );
                        }
                        Ok(true)
                    },
                };
            },
            Ok(None) => {},
        }
        if self.try_fire_barrier() {
            return Ok(true);
        }
        self.try_fire_mbarrier()
    }

    /// Runs one thread until it blocks or exits; `n` counts the scheduling
    /// steps so far.
    fn run_thread(&mut self, t: ThreadId, Ghost(start): Ghost<Machine>, n: &mut Ghost<nat>) -> (r:
        EvalResult<()>)
        requires
            old(self).wf(),
            old(self).has(t),
            forall|f: nat|
                #[trigger] start.go(Phase::Scan, (f + old(n)@) as nat) == old(self)@.go(
                    Phase::Thread(t),
                    f,
                ),
        ensures
            final(self).wf(),
            final(self).setup == old(self).setup,
            match r {
                Err(e) => start.runs_to(final(self)@, failure(e)),
                Ok(_) => forall|f: nat|
                    #[trigger] start.go(Phase::Scan, (f + final(n)@) as nat) == final(self)@.go(
                        Phase::Scan,
                        f,
                    ),
            },
            r is Ok && old(self)@.thread(t).status == Status::Ready
                ==> old(self)@.stats.instructions < final(self)@.stats.instructions
                <= old(self)@.env.config.max_instructions,
            r is Ok ==> final(self)@.stats.instructions >= old(self)@.stats.instructions,
    {
        while thread_at(&self.threads, t.0 as usize).status == Status::Ready
            invariant
                self.wf(),
                self.has(t),
                self.setup == old(self).setup,
                forall|f: nat|
                    #[trigger] start.go(Phase::Scan, (f + n@) as nat) == self@.go(
                        Phase::Thread(t),
                        f,
                    ),
                self@.stats.instructions >= old(self)@.stats.instructions,
                self@ == old(self)@ || old(self)@.stats.instructions < self@.stats.instructions
                    <= old(self)@.env.config.max_instructions,
            decreases self.setup.config.max_instructions - self.stats.instructions,
        {
            let ghost before = self@;
            let ghost steps = n@;
            let done = self.step(t);
            if let Err(e) = done {
                proof {
                    assert(start.go(Phase::Scan, (1nat + steps) as nat) == before.go(
                        Phase::Thread(t),
                        1,
                    ));
                }
                return Err(e);
            }
            *n = Ghost(steps + 1);
            proof {
                assert forall|f: nat|
                    #[trigger] start.go(Phase::Scan, (f + n@) as nat) == self@.go(
                        Phase::Thread(t),
                        f,
                    ) by {
                    assert(start.go(Phase::Scan, ((f + 1) as nat + steps) as nat) == before.go(
                        Phase::Thread(t),
                        (f + 1) as nat,
                    ));
                    assert(f + n@ == (f + 1) + steps);
                }
            }
        }
        let ghost steps = n@;
        let ghost before = self@;
        *n = Ghost(steps + 1);
        proof {
            assert forall|f: nat|
                #[trigger] start.go(Phase::Scan, (f + n@) as nat) == self@.go(
                    Phase::Scan,
                    f,
                ) by {
                assert(start.go(Phase::Scan, ((f + 1) as nat + steps) as nat) == before.go(
                    Phase::Thread(t),
                    (f + 1) as nat,
                ));
                assert(f + n@ == (f + 1) + steps);
            }
        }
        Ok(())
    }

    /// Runs to completion (all threads exited) or an analysis error. A run
    /// that completes stays within the instruction budget.
    pub fn run(&mut self) -> (r: EvalResult<()>)
        requires
            old(self).wf(),
        ensures
            final(self).wf(),
            final(self).setup == old(self).setup,
            old(self)@.runs_to(final(self)@, finish(r)),
            r is Ok ==> final(self)@.stats.instructions == old(self)@.stats.instructions
                || final(self)@.stats.instructions <= old(self)@.env.config.max_instructions,
    {
        let ghost start = self@;
        let mut n: Ghost<nat> = Ghost(0);
        let mut firing: bool = false;
        let mut any: bool = false;
        loop
            invariant
                self.wf(),
                self.setup == old(self).setup,
                start == old(self)@,
                self@.stats.instructions == start.stats.instructions || self@.stats.instructions
                    <= start.env.config.max_instructions,
                forall|f: nat|
                    #[trigger] start.go(Phase::Scan, (f + n@) as nat) == self@.go(
                        if firing {
                            Phase::Fire(any)
                        } else {
                            Phase::Scan
                        },
                        f,
                    ),
            decreases
                    self.setup.config.max_instructions as int - self.stats.instructions as int + 1,
                    blocked_count(self@.pace().1),
                    if !firing {
                        1int
                    } else if any {
                        2int
                    } else {
                        0int
                    },
        {
            let ghost steps = n@;
            let ghost before = self@;
            if !firing {
                match self.next_ready() {
                    Some(t) => {
                        n = Ghost(steps + 1);
                        proof {
                            assert forall|f: nat|
                                #[trigger] start.go(Phase::Scan, (f + n@) as nat) == self@.go(
                                    Phase::Thread(t),
                                    f,
                                ) by {
                                assert(start.go(Phase::Scan, ((f + 1) as nat + steps) as nat)
                                    == before.go(Phase::Scan, (f + 1) as nat));
                                assert(f + n@ == (f + 1) + steps);
                            }
                        }
                        let done = self.run_thread(t, Ghost(start), &mut n);
                        if let Err(e) = done {
                            return Err(e);
                        }
                    },
                    None => {
                        if self.is_finished() {
                            proof {
                                assert(start.go(Phase::Scan, (1nat + steps) as nat) == before.go(
                                    Phase::Scan,
                                    1,
                                ));
                            }
                            return Ok(());
                        }
                        firing = true;
                        any = false;
                        n = Ghost(steps + 1);
                        proof {
                            assert forall|f: nat|
                                #[trigger] start.go(Phase::Scan, (f + n@) as nat) == self@.go(
                                    Phase::Fire(false),
                                    f,
                                ) by {
                                assert(start.go(Phase::Scan, ((f + 1) as nat + steps) as nat)
                                    == before.go(Phase::Scan, (f + 1) as nat));
                                assert(f + n@ == (f + 1) + steps);
                            }
                        }
                    },
                }
            } else {
                let fired = self.try_fire();
                match fired {
                    Err(e) => {
                        proof {
                            assert(start.go(Phase::Scan, (1nat + steps) as nat) == before.go(
                                Phase::Fire(any),
                                1,
                            ));
                        }
                        return Err(e);
                    },
                    Ok(more) => {
                        if !more && !any {
                            proof {
                                assert(start.go(Phase::Scan, (1nat + steps) as nat) == before.go(
                                    Phase::Fire(any),
                                    1,
                                ));
                            }
                            return Err(self.deadlock_error());
                        }
                        let ghost was = any;
                        n = Ghost(steps + 1);
                        proof {
                            assert forall|f: nat|
                                #[trigger] start.go(Phase::Scan, (f + n@) as nat) == self@.go(
                                    if more {
                                        Phase::Fire(true)
                                    } else {
                                        Phase::Scan
                                    },
                                    f,
                                ) by {
                                assert(start.go(Phase::Scan, ((f + 1) as nat + steps) as nat)
                                    == before.go(Phase::Fire(was), (f + 1) as nat));
                                assert(f + n@ == (f + 1) + steps);
                            }
                        }
                        if more {
                            any = true;
                        } else {
                            firing = false;
                            any = false;
                        }
                    },
                }
            }
        }
    }
}

} // verus!
