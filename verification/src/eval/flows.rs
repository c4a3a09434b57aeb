//! Which instruction a thread executes next: guards, branches and exits.

use vstd::prelude::*;

use crate::eval::ThreadId;
use crate::eval::error::EvalError;
use crate::eval::machine::{Machine, Status, ThreadModel};
use crate::eval::value::Value;
use crate::lowered::{InstrId, LoweredInstr, Predicate};

verus! {

/// The instruction that a thread is at.
pub open spec fn instruction_of(m: Machine, t: ThreadId) -> LoweredInstr {
    m.env.program.instructions@[m.thread(t).pc.0 as int]
}

/// Whether a thread can take another step: it is at an instruction, and the
/// limit is not reached.
pub open spec fn may_step(m: Machine, t: ThreadId) -> bool {
    &&& t.0 < m.threads.len()
    &&& m.thread(t).pc.0 < m.env.program.instructions@.len()
    &&& m.stats.instructions < m.env.config.max_instructions
}

/// Whether the instruction that a thread is at has a guard that holds: its
/// register is true, or, if the guard is negated, false.
pub open spec fn guard_holds(m: Machine, t: ThreadId, p: Predicate, holds: bool) -> bool {
    &&& m.env.program.spec_predicate(m.thread(t).pc) == Some(p)
    &&& m.thread(t).wgmma.pending_since(p.reg) is None
    &&& m.reg_value(t, p.reg) matches Value::Scalar(e) && (m.exprs.as_bool(e) == Some(
        if p.negated {
            !holds
        } else {
            holds
        },
    ))
}

/// Whether nothing but the counters and one thread changed.
pub open spec fn only_thread(m: Machine, n: Machine, t: ThreadId) -> bool {
    n == (Machine {
        stats: n.stats,
        op_counts: n.op_counts,
        threads: m.threads.update(t.0 as int, n.threads[t.0 as int]),
        ..m
    })
}

/// An instruction whose guard does not hold is passed over, whatever it is:
/// the thread goes on to the next one and nothing else happens.
pub proof fn an_instruction_with_a_false_guard_is_skipped(m: Machine, t: ThreadId, p: Predicate)
    requires
        may_step(m, t),
        guard_holds(m, t, p, false),
    ensures
        m.step(t).1 == Ok::<(), EvalError>(()),
        only_thread(m, m.step(t).0, t),
        m.step(t).0.thread(t) == (ThreadModel {
            pc: InstrId((m.thread(t).pc.0 + 1) as u32),
            ..m.thread(t)
        }),
{
    reveal(Machine::step);
    let n = m.step(t).0;
    assert(n =~= (Machine {
        stats: n.stats,
        op_counts: n.op_counts,
        threads: m.threads.update(t.0 as int, n.threads[t.0 as int]),
        ..m
    }));
}

/// A branch without a guard, or whose guard holds, goes to its target, and
/// nothing else happens.
pub proof fn a_branch_goes_to_its_target(m: Machine, t: ThreadId, p: Predicate, target: InstrId)
    requires
        may_step(m, t),
        instruction_of(m, t) == (LoweredInstr::Bra { target }),
        m.env.program.spec_predicate(m.thread(t).pc) is None || guard_holds(m, t, p, true),
    ensures
        m.step(t).1 == Ok::<(), EvalError>(()),
        only_thread(m, m.step(t).0, t),
        m.step(t).0.thread(t) == (ThreadModel { pc: target, ..m.thread(t) }),
{
    reveal(Machine::step);
    reveal(Machine::arithmetic);
    reveal(Machine::bitwise);
    reveal(Machine::movement);
    reveal(Machine::asynchronous);
    reveal(Machine::control);
    let n = m.step(t).0;
    assert(n =~= (Machine {
        stats: n.stats,
        op_counts: n.op_counts,
        threads: m.threads.update(t.0 as int, n.threads[t.0 as int]),
        ..m
    }));
}

/// A thread that exits, or returns, without asynchronous copies of its own in
/// flight is done; with some it may not exit.
pub proof fn an_exit_ends_the_thread(m: Machine, t: ThreadId, p: Predicate)
    requires
        may_step(m, t),
        instruction_of(m, t) == LoweredInstr::Exit || instruction_of(m, t) == LoweredInstr::Ret,
        m.env.program.spec_predicate(m.thread(t).pc) is None || guard_holds(m, t, p, true),
    ensures
        m.thread(t).uncommitted.len() == 0 && m.thread(t).groups.len() == 0 ==> m.step(t).1 == Ok::<
            (),
            EvalError,
        >(()) && only_thread(m, m.step(t).0, t) && m.step(t).0.thread(t) == (ThreadModel {
            status: Status::Exited,
            ..m.thread(t)
        }),
        0 < m.thread(t).uncommitted.len() <= u64::MAX && m.thread(t).groups.len() == 0 ==> m.step(
            t,
        ).1 is Err,
{
    reveal(Machine::step);
    reveal(Machine::arithmetic);
    reveal(Machine::bitwise);
    reveal(Machine::movement);
    reveal(Machine::asynchronous);
    reveal(Machine::control);
    reveal(Machine::exit);
    let n = m.step(t).0;
    assert(n.threads == m.threads.update(t.0 as int, n.threads[t.0 as int]) ==> n =~= (Machine {
        stats: n.stats,
        op_counts: n.op_counts,
        threads: m.threads.update(t.0 as int, n.threads[t.0 as int]),
        ..m
    }));
}

} // verus!
