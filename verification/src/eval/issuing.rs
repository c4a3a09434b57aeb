//! What an asynchronous copy does when it is issued.

use vstd::prelude::*;

use crate::eval::ThreadId;
use crate::eval::copies::in_flight;
use crate::eval::effects::{lemma_within_with, spare};
use crate::eval::exchanges::{integer_of, lemma_concrete};
use crate::eval::machine::Machine;
use crate::eval::memory::{MemAccessError, read_cells};
use crate::eval::race::first_byte_is_first;
use crate::eval::value::Value;
use crate::lowered::{CpAsyncSrcSize, InstrId, LoweredInstr, MemSpace, Operand};
use crate::symbolic::arena::ExprNode;
use crate::symbolic::meaning::{an_entered_node_is_found, within, within_is_transitive};

verus! {

/// Whether global memory holds the words of a copy's source.
pub open spec fn source_holds(m: Machine, src: u64, n: int, word: spec_fn(int) -> Value) -> bool {
    forall|i: int|
        0 <= i < n ==> read_cells(m.global, src.wrapping_add((4 * i) as u64), 4) == Ok::<
            Value,
            MemAccessError,
        >(#[trigger] word(i))
}

/// The bytes that a copy takes from its source, for the forms whose count is
/// an integer.
pub open spec fn copies_bytes(
    m: Machine,
    t: ThreadId,
    cp_size: u32,
    src_size: CpAsyncSrcSize,
    n: int,
) -> bool {
    match src_size {
        CpAsyncSrcSize::Full => n == cp_size,
        CpAsyncSrcSize::Sized(op) => integer_of(m, t, op) matches Some(v) && n == v && n % 4 == 0,
        CpAsyncSrcSize::IgnoreSrc(_) => false,
    }
}

proof fn lemma_copied_words(
    m: Machine,
    t: ThreadId,
    pc: InstrId,
    src: u64,
    size: u64,
    taken: u64,
    zero: Value,
    word: spec_fn(int) -> Value,
    words: Seq<Value>,
    i: int,
)
    requires
        taken <= size <= u32::MAX,
        taken % 4 == 0,
        0 <= i <= size / 4,
        words.len() == i,
        source_holds(m, src, (taken / 4) as int, word),
        forall|j: int|
            0 <= j < i ==> #[trigger] words[j] == (if 4 * j < taken {
                word(j)
            } else {
                zero
            }),
        m.copied_words(t, pc, src, size, taken, zero, words, i).1 is Ok,
    ensures
        ({
            let (z, s) = m.copied_words(t, pc, src, size, taken, zero, words, i);
            &&& z == (Machine { race: z.race, ..m })
            &&& z.race.locks == m.race.locks
            &&& s->Ok_0.len() == size / 4
            &&& forall|j: int|
                0 <= j < size / 4 ==> #[trigger] s->Ok_0[j] == (if 4 * j < taken {
                    word(j)
                } else {
                    zero
                })
        }),
    decreases size / 4 - i,
{
    if i < size / 4 {
        if i * 4 < taken {
            reveal(Machine::mem_read_via);
            let at = src.wrapping_add((i * 4) as u64);
            assert(read_cells(m.global, at, 4) == Ok::<Value, MemAccessError>(word(i)));
            let m1 = m.mem_read(t, pc, MemSpace::Global, at, 4).0;
            assert(m1 =~= (Machine { race: m1.race, ..m }));
            assert(m1.race.locks == m.race.locks);
            lemma_copied_words(
                m1,
                t,
                pc,
                src,
                size,
                taken,
                zero,
                word,
                words.push(word(i)),
                i + 1,
            );
        } else {
            lemma_copied_words(
                m,
                t,
                pc,
                src,
                size,
                taken,
                zero,
                word,
                words.push(zero),
                i + 1,
            );
        }
    }
}

/// `cp.async` writes nothing yet: it records the words of its source, zeros
/// past the bytes that it takes, as the newest uncommitted copy of the thread,
/// and from then on the bytes of its destination, and no others, are in
/// flight. None of them was before.
#[verifier::spinoff_prover]
pub proof fn an_issued_copy_is_in_flight(
    m: Machine,
    t: ThreadId,
    pc: InstrId,
    dst_base: Operand,
    dst_offset: i64,
    src_base: Operand,
    src_offset: i64,
    cp_size: u32,
    src_size: CpAsyncSrcSize,
    a: i64,
    b: i64,
    n: int,
    word: spec_fn(int) -> Value,
)
    requires
        t.0 < m.threads.len(),
        spare(m, 4),
        integer_of(m, t, dst_base) == Some(a),
        integer_of(m, t, src_base) == Some(b),
        copies_bytes(m, t, cp_size, src_size, n),
        (a as u64).wrapping_add(dst_offset as u64) + cp_size <= u64::MAX,
        source_holds(m, (b as u64).wrapping_add(src_offset as u64), n / 4, word),
        m.execute(
            t,
            pc,
            LoweredInstr::CpAsync {
                dst_base,
                dst_offset,
                src_base,
                src_offset,
                cp_size,
                src_size,
            },
        ).1 is Ok,
    ensures
        ({
            let i = LoweredInstr::CpAsync {
                dst_base,
                dst_offset,
                src_base,
                src_offset,
                cp_size,
                src_size,
            };
            let z = m.execute(t, pc, i).0;
            let dst = (a as u64).wrapping_add(dst_offset as u64);
            let c = z.thread(t).uncommitted.last();
            &&& z.shared == m.shared
            &&& z.global == m.global
            &&& z.thread(t).uncommitted == m.thread(t).uncommitted.push(c)
            &&& z.thread(t).groups == m.thread(t).groups
            &&& z.thread(t).regs == m.thread(t).regs
            &&& c.dst_addr == dst
            &&& c.cp_size == cp_size
            &&& c.words.len() == cp_size / 4
            &&& forall|j: int|
                0 <= j < c.words.len() && 4 * j < n ==> #[trigger] c.words[j] == word(j)
            &&& forall|j: int|
                0 <= j < c.words.len() && 4 * j >= n ==> (#[trigger] c.words[j] matches Value::Scalar(e)
                    && z.exprs.as_int(e) == Some(0i64))
            &&& forall|x: u64|
                #[trigger] in_flight(z, x) == (in_flight(m, x) || dst <= x < dst + cp_size)
            &&& forall|x: u64| dst <= x < dst + cp_size ==> !#[trigger] in_flight(m, x)
        }),
{
    reveal(Machine::arithmetic);
    reveal(Machine::bitwise);
    reveal(Machine::movement);
    reveal(Machine::cp_async);
    reveal(Machine::copied_bytes);
    reveal(Machine::lock_copy);
    let i = LoweredInstr::CpAsync {
        dst_base,
        dst_offset,
        src_base,
        src_offset,
        cp_size,
        src_size,
    };
    let z = m.execute(t, pc, i).0;
    let dst = (a as u64).wrapping_add(dst_offset as u64);
    let src = (b as u64).wrapping_add(src_offset as u64);
    lemma_concrete(m, t, pc, dst_base, "memory address");
    let m1 = m.concrete_operand(t, pc, dst_base, "memory address").0;
    lemma_kept_integer(m, m1, t, src_base);
    lemma_concrete(m1, t, pc, src_base, "memory address");
    let m2 = m1.concrete_operand(t, pc, src_base, "memory address").0;
    within_is_transitive(m.exprs, m1.exprs, m2.exprs);
    if let CpAsyncSrcSize::Sized(op) = src_size {
        lemma_kept_integer(m, m2, t, op);
        lemma_concrete(m2, t, pc, op, "cp.async src-size");
    }
    let size = cp_size as u64;
    let (m3, taken) = m2.copied_bytes(t, pc, size, src_size);
    assert(m3 =~= m.with_exprs(m3.exprs));
    assert(taken->Ok_0 == n && n <= size);
    let m4 = m3.lock_copy(t, pc, dst, size, src, n as u64).0;
    assert(m3.lock_copy(t, pc, dst, size, src, n as u64).1 is Ok);
    assert(m3.race.first_dst_locked(MemSpace::Shared, dst, size) is None);
    let locked = |x: u64| m3.race.locks[(MemSpace::Shared, x)].dst is Some;
    assert forall|x: u64| dst <= x < dst + cp_size implies !#[trigger] in_flight(m, x) by {
        first_byte_is_first(dst as int, dst + size, locked);
        assert(!locked(x));
    }
    let zero = ExprNode::IntConst(0);
    let (s, e) = m4.exprs.with(zero);
    lemma_within_with(m4.exprs, zero);
    an_entered_node_is_found(m4.exprs, zero, s);
    let m5 = m4.with_exprs(s);
    assert(m5.global == m.global);
    lemma_copied_words(
        m5,
        t,
        pc,
        src,
        size,
        n as u64,
        Value::Scalar(e),
        word,
        Seq::empty(),
        0,
    );
    let m6 = m5.copied_words(t, pc, src, size, n as u64, Value::Scalar(e), Seq::empty(), 0).0;
    assert(z.race == m6.race && z.exprs == s);
    assert forall|x: u64| #[trigger] in_flight(z, x) == (in_flight(m, x) || dst <= x < dst
        + cp_size) by {
        let k = (MemSpace::Shared, x);
        assert(z.race.locks == m4.race.locks);
    }
}

proof fn lemma_kept_integer(m: Machine, n: Machine, t: ThreadId, op: Operand)
    requires
        n == m.with_exprs(n.exprs),
        within(m.exprs, n.exprs),
        integer_of(m, t, op) is Some,
    ensures
        integer_of(n, t, op) == integer_of(m, t, op),
{
    if let Operand::Reg(reg) = op {
        let e = m.reg_value(t, reg)->Scalar_0;
        assert(n.exprs.nodes[e.0 as int] == m.exprs.nodes[e.0 as int]);
    }
}

} // verus!
