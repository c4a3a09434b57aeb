//! What lanes get from each other: which lane a shuffle reads, and that it
//! gets exactly the value that lane had before.

use vstd::prelude::*;

use crate::eval::effects::lemma_within_with;
use crate::eval::groups::lemma_advanced;
use crate::eval::int_ops::low;
use crate::eval::machine::Machine;
use crate::eval::value::Value;
use crate::eval::warp::{no_values, placed, shfl_source, slot};
use crate::eval::{ThreadId, WARP_SIZE};
use crate::lowered::{InstrId, LoweredInstr, Operand, ShflMode};
use crate::symbolic::arena::{ExprNode, Exprs};
use crate::symbolic::meaning::{
    addressable, an_entered_node_is_found, canonical_exprs, within, within_is_transitive,
};
use crate::symbols::RegId;

verus! {

// ---------------------------------------------------------------------------
// Partners
// ---------------------------------------------------------------------------

/// The lane that a lane reads in a shuffle by `d` within segments of `w`
/// lanes, and whether there is such a lane; otherwise the lane reads itself.
pub open spec fn partner(mode: ShflMode, lane: int, d: int, w: int) -> (int, bool) {
    let start = lane - lane % w;
    match mode {
        ShflMode::Up => if lane - d >= start {
            (lane - d, true)
        } else {
            (lane, false)
        },
        ShflMode::Down => if lane + d < start + w {
            (lane + d, true)
        } else {
            (lane, false)
        },
        ShflMode::Bfly => if d < w {
            ((lane as u32 ^ d as u32) as int, true)
        } else if (lane as u32 ^ d as u32) < start + w {
            ((lane as u32 ^ d as u32) as int, true)
        } else {
            (lane, false)
        },
        ShflMode::Idx => (start + d % w, true),
    }
}

/// The operand that bounds a shuffle to segments of `w` lanes.
pub open spec fn segment_operand(mode: ShflMode, w: int) -> i64 {
    ((32 - w) * 256 + (if mode == ShflMode::Up {
        0int
    } else {
        31
    })) as i64
}

/// Whether a segment width is one that a warp divides into.
pub open spec fn divides_warp(w: int) -> bool {
    w == 1 || w == 2 || w == 4 || w == 8 || w == 16 || w == 32
}

proof fn lemma_low5(x: i64)
    requires
        0 <= x,
    ensures
        low(x as int, 5) == x % 32,
        low((x >> 8u64) as int, 5) == (x / 256) % 32,
{
    vstd::arithmetic::power2::lemma2_to64();
    assert(x >> 8u64 == x / 256) by (bit_vector)
        requires
            0 <= x,
    ;
}

proof fn lemma_bits(lane: u32, d: u32, segment: u32, bound: u32, w: u32)
    requires
        lane < 32,
        d < 32,
        bound == 31 || bound == 0,
        segment == 32 - w,
        w == 1 || w == 2 || w == 4 || w == 8 || w == 16 || w == 32,
    ensures
        bound == 31 ==> (lane & segment) | (bound & !segment) == lane - lane % w + w - 1,
        bound == 0 ==> (lane & segment) | (bound & !segment) == lane - lane % w,
        (lane & segment) | (d & !segment) == lane - lane % w + d % w,
        d < w ==> (lane ^ d) < lane - lane % w + w,
        (lane ^ d) < 32,
{
    assert(bound == 31 ==> (lane & segment) | (bound & !segment) == lane - lane % w + w - 1)
        by (bit_vector)
        requires
            lane < 32,
            bound == 31 || bound == 0,
            segment == 32 - w,
            w == 1 || w == 2 || w == 4 || w == 8 || w == 16 || w == 32,
    ;
    assert(bound == 0 ==> (lane & segment) | (bound & !segment) == lane - lane % w) by (bit_vector)
        requires
            lane < 32,
            bound == 31 || bound == 0,
            segment == 32 - w,
            w == 1 || w == 2 || w == 4 || w == 8 || w == 16 || w == 32,
    ;
    assert((lane & segment) | (d & !segment) == lane - lane % w + d % w) by (bit_vector)
        requires
            lane < 32,
            d < 32,
            segment == 32 - w,
            w == 1 || w == 2 || w == 4 || w == 8 || w == 16 || w == 32,
    ;
    assert(d < w ==> (lane ^ d) < lane - lane % w + w) by (bit_vector)
        requires
            lane < 32,
            d < 32,
            w == 1 || w == 2 || w == 4 || w == 8 || w == 16 || w == 32,
    ;
    assert((lane ^ d) < 32) by (bit_vector)
        requires
            lane < 32,
            d < 32,
    ;
}

/// A shuffle by `d` lanes reads the lane that many above or below, the lane
/// whose number differs in exactly the bits of `d`, or lane `d` of the
/// segment. A lane without such a partner in its segment reads itself, and is
/// told so.
pub proof fn a_shuffle_reads_its_partner(mode: ShflMode, lane: u32, d: i64, w: int)
    requires
        lane < 32,
        0 <= d < 32,
        divides_warp(w),
    ensures
        ({
            let (source, found) = shfl_source(mode, lane, d, segment_operand(mode, w));
            &&& source == partner(mode, lane as int, d as int, w).0
            &&& found == partner(mode, lane as int, d as int, w).1
            &&& source < 32
        }),
{
    let c = segment_operand(mode, w);
    lemma_low5(d);
    lemma_low5(c);
    let by = low(d as int, 5) as u32;
    let bound = low(c as int, 5) as u32;
    let segment = low((c >> 8u64) as int, 5) as u32;
    assert(by == d);
    assert(bound == (if mode == ShflMode::Up {
        0u32
    } else {
        31u32
    }));
    assert(segment == 32 - w);
    lemma_bits(lane, by, segment, bound, w as u32);
    assert((lane as int) % w == (lane % (w as u32)) as int);
    assert((d as int) % w == (by % (w as u32)) as int);
    let start = lane as int - lane as int % w;
    vstd::arithmetic::div_mod::lemma_mod_bound(lane as int, w);
    vstd::arithmetic::div_mod::lemma_mod_bound(d as int, w);
    assert(start + w <= 32) by {
        if w == 1 || w == 32 {
        } else if w == 2 {
            assert(lane as int - lane as int % 2 <= 30);
        } else if w == 4 {
            assert(lane as int - lane as int % 4 <= 28);
        } else if w == 8 {
            assert(lane as int - lane as int % 8 <= 24);
        } else {
            assert(lane as int - lane as int % 16 <= 16);
        }
    }
    let last = (lane & segment) | (bound & !segment);
    match mode {
        ShflMode::Up => {
            assert(last == start);
        },
        ShflMode::Down => {
            assert(last == start + w - 1);
        },
        ShflMode::Bfly => {
            assert(last == start + w - 1);
            assert(lane ^ by == (lane as int) as u32 ^ (d as int) as u32);
        },
        ShflMode::Idx => {
            assert(last == start + w - 1);
            assert((lane & segment) | (by & !segment) == start + d as int % w);
        },
    }
}

// ---------------------------------------------------------------------------
// Operands and registers of many threads
// ---------------------------------------------------------------------------

/// The concrete integer that an operand of a thread is.
pub open spec fn integer_of(m: Machine, t: ThreadId, op: Operand) -> Option<i64> {
    match op {
        Operand::ImmI64(n) => Some(n),
        Operand::Reg(reg) => match m.reg_value(t, reg) {
            Value::Scalar(e) => if e.0 < m.exprs.nodes.len() {
                m.exprs.as_int(e)
            } else {
                None
            },
            _ => None,
        },
        _ => None,
    }
}

pub(crate) proof fn lemma_concrete(
    m: Machine,
    t: ThreadId,
    pc: InstrId,
    op: Operand,
    what: &'static str,
)
    requires
        integer_of(m, t, op) is Some,
    ensures
        ({
            let (n, r) = m.concrete_operand(t, pc, op, what);
            &&& n == m.with_exprs(n.exprs)
            &&& within(m.exprs, n.exprs)
            &&& n.exprs.nodes.len() <= m.exprs.nodes.len() + 1
            &&& canonical_exprs(m.exprs) ==> canonical_exprs(n.exprs)
            &&& r is Ok && addressable(n.exprs) ==> r->Ok_0 == integer_of(m, t, op)->0
        }),
{
    if let Operand::ImmI64(v) = op {
        lemma_within_with(m.exprs, ExprNode::IntConst(v));
        let (s, e) = m.exprs.int_const(v);
        if addressable(s) {
            an_entered_node_is_found(m.exprs, ExprNode::IntConst(v), s);
        }
    }
}

proof fn lemma_integer_grown(m: Machine, n: Machine, t: ThreadId, op: Operand)
    requires
        n == m.with_exprs(n.exprs),
        within(m.exprs, n.exprs),
        integer_of(m, t, op) is Some,
    ensures
        integer_of(n, t, op) == integer_of(m, t, op),
{
    if let Operand::Reg(reg) = op {
        let e = m.reg_value(t, reg)->Scalar_0;
        assert(n.exprs.nodes[e.0 as int] == m.exprs.nodes[e.0 as int]);
    }
}

/// Whether the threads of a list are different ones of one warp.
pub open spec fn of_one_warp(members: Seq<ThreadId>, base: int, n: nat) -> bool {
    &&& 0 <= base
    &&& base % 32 == 0
    &&& forall|i: int|
        0 <= i < members.len() ==> base <= (#[trigger] members[i]).0 < base + 32 && members[i].0
            < n
    &&& forall|i: int, j: int|
        0 <= i < j < members.len() ==> #[trigger] members[i] != #[trigger] members[j]
}

// ---------------------------------------------------------------------------
// The steps of a shuffle
// ---------------------------------------------------------------------------

spec fn is_listed(members: Seq<ThreadId>, k: int, u: int) -> bool {
    exists|i: int| k <= i < members.len() && (#[trigger] members[i]).0 == u
}

proof fn lemma_sources(
    m: Machine,
    t: ThreadId,
    pc: InstrId,
    members: Seq<ThreadId>,
    base: int,
    src: RegId,
    values: Seq<Option<Value>>,
    k: int,
)
    requires
        of_one_warp(members, base, m.threads.len()),
        0 <= k <= members.len(),
        values.len() == 32,
        m.shfl_sources(t, pc, members, Operand::Reg(src), values, k).1 is Ok,
    ensures
        ({
            let (n, r) = m.shfl_sources(t, pc, members, Operand::Reg(src), values, k);
            &&& n == m
            &&& r->Ok_0.len() == 32
            &&& forall|l: int|
                0 <= l < 32 ==> #[trigger] r->Ok_0[l] == (if is_listed(members, k, base + l) {
                    Some(m.reg_value(ThreadId((base + l) as u32), src))
                } else {
                    values[l]
                })
        }),
    decreases members.len() - k,
{
    if k < members.len() {
        let u = members[k];
        let lane = (u.0 % WARP_SIZE) as int;
        assert(lane == u.0 - base);
        let v = m.reg_value(u, src);
        let next = placed(values, lane, Some(v));
        lemma_sources(m, t, pc, members, base, src, next, k + 1);
        let out = m.shfl_sources(t, pc, members, Operand::Reg(src), values, k).1->Ok_0;
        assert forall|l: int| 0 <= l < 32 implies #[trigger] out[l] == (if is_listed(
            members,
            k,
            base + l,
        ) {
            Some(m.reg_value(ThreadId((base + l) as u32), src))
        } else {
            values[l]
        }) by {
            if l == lane {
                assert(u == ThreadId((base + l) as u32));
                assert(is_listed(members, k, base + l));
            } else if is_listed(members, k, base + l) {
                let i = choose|i: int|
                    k <= i < members.len() && (#[trigger] members[i]).0 == base + l;
                assert(i != k);
                assert(is_listed(members, k + 1, base + l));
            } else {
                assert(!is_listed(members, k + 1, base + l)) by {
                    if is_listed(members, k + 1, base + l) {
                        let i = choose|i: int|
                            k + 1 <= i < members.len() && (#[trigger] members[i]).0 == base + l;
                        assert(k <= i < members.len() && members[i].0 == base + l);
                    }
                }
            }
        }
    }
}

/// What each member gets.
spec fn gets(
    m: Machine,
    members: Seq<ThreadId>,
    mode: ShflMode,
    values: Seq<Option<Value>>,
    lane_op: Operand,
    clamp: Operand,
    i: int,
    x: (ThreadId, bool, Value),
) -> bool {
    let u = members[i];
    let s = shfl_source(
        mode,
        (u.0 % WARP_SIZE) as u32,
        integer_of(m, u, lane_op)->0,
        integer_of(m, u, clamp)->0,
    );
    x.0 == u && x.1 == s.1 && (slot(values, s.0 as int) matches Some(v) ==> x.2 == v)
}

proof fn lemma_results(
    m: Machine,
    t: ThreadId,
    pc: InstrId,
    members: Seq<ThreadId>,
    mask: u32,
    mode: ShflMode,
    values: Seq<Option<Value>>,
    lane_op: Operand,
    clamp: Operand,
    results: Seq<(ThreadId, bool, Value)>,
    k: int,
    end: Exprs,
)
    requires
        0 <= k <= members.len(),
        results.len() == k,
        forall|i: int|
            0 <= i < members.len() ==> integer_of(m, #[trigger] members[i], lane_op) is Some
                && integer_of(m, members[i], clamp) is Some,
        forall|i: int|
            0 <= i < k ==> gets(m, members, mode, values, lane_op, clamp, i, #[trigger] results[i]),
        m.shfl_results(t, pc, members, mask, mode, values, lane_op, clamp, results, k).1 is Ok,
        within(
            m.shfl_results(
                t,
                pc,
                members,
                mask,
                mode,
                values,
                lane_op,
                clamp,
                results,
                k,
            ).0.exprs,
            end,
        ),
        addressable(end),
    ensures
        ({
            let (n, r) = m.shfl_results(
                t,
                pc,
                members,
                mask,
                mode,
                values,
                lane_op,
                clamp,
                results,
                k,
            );
            &&& n == m.with_exprs(n.exprs)
            &&& within(m.exprs, n.exprs)
            &&& r->Ok_0.len() == members.len()
            &&& forall|i: int|
                0 <= i < members.len() ==> gets(
                    m,
                    members,
                    mode,
                    values,
                    lane_op,
                    clamp,
                    i,
                    #[trigger] r->Ok_0[i],
                )
        }),
    decreases members.len() - k,
{
    if k < members.len() {
        reveal(Machine::shfl_result);
        let u = members[k];
        assert(integer_of(m, members[k], lane_op) is Some);
        let (m1, b) = m.concrete_operand(u, pc, lane_op, "shfl.sync lane operand");
        lemma_concrete(m, u, pc, lane_op, "shfl.sync lane operand");
        lemma_integer_grown(m, m1, u, clamp);
        let (m2, c) = m1.concrete_operand(u, pc, clamp, "shfl.sync clamp operand");
        lemma_concrete(m1, u, pc, clamp, "shfl.sync clamp operand");
        within_is_transitive(m.exprs, m1.exprs, m2.exprs);
        let (m3, x) = m.shfl_result(t, pc, u, mask, mode, values, lane_op, clamp);
        lemma_within_with(m2.exprs, ExprNode::Undefined);
        within_is_transitive(m.exprs, m2.exprs, m2.exprs.undefined().0);
        assert(m3 == m.with_exprs(m3.exprs));
        assert(within(m.exprs, m3.exprs));
        assert(within(m2.exprs, m3.exprs));
        let more = results.push(x->Ok_0);
        assert forall|i: int|
            0 <= i < members.len() implies integer_of(m3, #[trigger] members[i], lane_op) is Some
            && integer_of(m3, members[i], clamp) is Some && integer_of(m3, members[i], lane_op)
            == integer_of(m, members[i], lane_op) && integer_of(m3, members[i], clamp)
            == integer_of(m, members[i], clamp) by {
            lemma_integer_grown(m, m3, members[i], lane_op);
            lemma_integer_grown(m, m3, members[i], clamp);
        }
        // The two numbers are what the operands say: the arena stays small.
        lemma_results_grow(m3, t, pc, members, mask, mode, values, lane_op, clamp, more, k + 1);
        let n = m.shfl_results(
            t,
            pc,
            members,
            mask,
            mode,
            values,
            lane_op,
            clamp,
            results,
            k,
        ).0;
        within_is_transitive(m3.exprs, n.exprs, end);
        within_is_transitive(m2.exprs, m3.exprs, end);
        within_is_transitive(m1.exprs, m2.exprs, end);
        assert(gets(m, members, mode, values, lane_op, clamp, k, x->Ok_0));
        assert forall|i: int| 0 <= i < k + 1 implies gets(
            m3,
            members,
            mode,
            values,
            lane_op,
            clamp,
            i,
            #[trigger] more[i],
        ) by {
            let _ = members[i];
            assert(integer_of(m3, members[i], lane_op) == integer_of(m, members[i], lane_op));
            if i < k {
                assert(more[i] == results[i]);
            }
        }
        lemma_results(
            m3,
            t,
            pc,
            members,
            mask,
            mode,
            values,
            lane_op,
            clamp,
            more,
            k + 1,
            end,
        );
        within_is_transitive(m.exprs, m3.exprs, n.exprs);
        let out = m.shfl_results(
            t,
            pc,
            members,
            mask,
            mode,
            values,
            lane_op,
            clamp,
            results,
            k,
        ).1->Ok_0;
        assert forall|i: int| 0 <= i < members.len() implies gets(
            m,
            members,
            mode,
            values,
            lane_op,
            clamp,
            i,
            #[trigger] out[i],
        ) by {
            let _ = members[i];
            assert(integer_of(m3, members[i], lane_op) == integer_of(m, members[i], lane_op));
            assert(gets(m3, members, mode, values, lane_op, clamp, i, out[i]));
        }
    }
}

proof fn lemma_results_grow(
    m: Machine,
    t: ThreadId,
    pc: InstrId,
    members: Seq<ThreadId>,
    mask: u32,
    mode: ShflMode,
    values: Seq<Option<Value>>,
    lane_op: Operand,
    clamp: Operand,
    results: Seq<(ThreadId, bool, Value)>,
    k: int,
)
    requires
        0 <= k <= members.len(),
        forall|i: int|
            0 <= i < members.len() ==> integer_of(m, #[trigger] members[i], lane_op) is Some
                && integer_of(m, members[i], clamp) is Some,
    ensures
        within(
            m.exprs,
            m.shfl_results(
                t,
                pc,
                members,
                mask,
                mode,
                values,
                lane_op,
                clamp,
                results,
                k,
            ).0.exprs,
        ),
    decreases members.len() - k,
{
    if k < members.len() {
        reveal(Machine::shfl_result);
        let u = members[k];
        assert(integer_of(m, members[k], lane_op) is Some);
        let (m1, b) = m.concrete_operand(u, pc, lane_op, "shfl.sync lane operand");
        lemma_concrete(m, u, pc, lane_op, "shfl.sync lane operand");
        lemma_integer_grown(m, m1, u, clamp);
        let (m2, c) = m1.concrete_operand(u, pc, clamp, "shfl.sync clamp operand");
        lemma_concrete(m1, u, pc, clamp, "shfl.sync clamp operand");
        within_is_transitive(m.exprs, m1.exprs, m2.exprs);
        let (m3, x) = m.shfl_result(t, pc, u, mask, mode, values, lane_op, clamp);
        lemma_within_with(m2.exprs, ExprNode::Undefined);
        within_is_transitive(m.exprs, m2.exprs, m2.exprs.undefined().0);
        assert(m3 == m.with_exprs(m3.exprs));
        assert(within(m.exprs, m3.exprs));
        if x is Ok {
            assert forall|i: int|
                0 <= i < members.len() implies integer_of(m3, #[trigger] members[i], lane_op)
                is Some && integer_of(m3, members[i], clamp) is Some by {
                lemma_integer_grown(m, m3, members[i], lane_op);
                lemma_integer_grown(m, m3, members[i], clamp);
            }
            lemma_results_grow(
                m3,
                t,
                pc,
                members,
                mask,
                mode,
                values,
                lane_op,
                clamp,
                results.push(x->Ok_0),
                k + 1,
            );
            within_is_transitive(
                m.exprs,
                m3.exprs,
                m.shfl_results(
                    t,
                    pc,
                    members,
                    mask,
                    mode,
                    values,
                    lane_op,
                    clamp,
                    results,
                    k,
                ).0.exprs,
            );
        }
    }
}

/// The registers of a thread that is not among those written stay.
proof fn lemma_writes(
    m: Machine,
    t: ThreadId,
    pc: InstrId,
    results: Seq<(ThreadId, bool, Value)>,
    dst: RegId,
    dst_pred: Option<RegId>,
    k: int,
)
    requires
        0 <= k <= results.len(),
        forall|i: int| 0 <= i < results.len() ==> (#[trigger] results[i]).0.0 < m.threads.len(),
        forall|i: int, j: int|
            0 <= i < j < results.len() ==> (#[trigger] results[i]).0 != (#[trigger] results[j]).0,
        dst_pred != Some(dst),
        m.shfl_write(t, pc, results, dst, dst_pred, k).1 is Ok,
    ensures
        ({
            let z = m.shfl_write(t, pc, results, dst, dst_pred, k).0;
            &&& within(m.exprs, z.exprs)
            &&& z.threads.len() == m.threads.len()
            &&& z.race == m.race
            &&& z.shared == m.shared
            &&& z.global == m.global
            &&& z.env == m.env
            &&& forall|i: int|
                k <= i < results.len() ==> z.reg_value((#[trigger] results[i]).0, dst)
                    == results[i].2
            &&& addressable(z.exprs) && dst_pred is Some ==> forall|i: int|
                k <= i < results.len() ==> (z.reg_value((#[trigger] results[i]).0, dst_pred->0)
                    matches Value::Scalar(e) && z.exprs.node(e) == ExprNode::BoolConst(
                    results[i].1,
                ))
            &&& forall|u: ThreadId, reg: RegId|
                u.0 < m.threads.len() && ((reg != dst && dst_pred != Some(reg)) || (forall|i: int|
                    k <= i < results.len() ==> (#[trigger] results[i]).0 != u))
                    ==> #[trigger] z.reg_value(u, reg) == m.reg_value(u, reg)
        }),
    decreases results.len() - k,
{
    if k < results.len() {
        let it = results[k];
        let m1 = m.write_reg(it.0, pc, dst, it.2).0;
        let (s, x) = m1.exprs.bool_val(it.1);
        let m2 = match dst_pred {
            None => m1,
            Some(p) => m1.with_exprs(s).write_reg(it.0, pc, p, Value::Scalar(x)).0,
        };
        lemma_within_with(m1.exprs, ExprNode::BoolConst(it.1));
        lemma_writes(m2, t, pc, results, dst, dst_pred, k + 1);
        let z = m.shfl_write(t, pc, results, dst, dst_pred, k).0;
        within_is_transitive(m.exprs, m2.exprs, z.exprs);
        assert forall|i: int| k + 1 <= i < results.len() implies (#[trigger] results[i]).0
            != it.0 by {
            assert(results[k].0 != results[i].0);
        }
        assert(z.reg_value(it.0, dst) == m2.reg_value(it.0, dst));
        if dst_pred is Some && addressable(z.exprs) {
            an_entered_node_is_found(m1.exprs, ExprNode::BoolConst(it.1), z.exprs);
            assert(z.reg_value(it.0, dst_pred->0) == m2.reg_value(it.0, dst_pred->0));
        }
        assert forall|u: ThreadId, reg: RegId|
            u.0 < m.threads.len() && ((reg != dst && dst_pred != Some(reg)) || (forall|i: int|
                k <= i < results.len() ==> (#[trigger] results[i]).0 != u))
                implies #[trigger] z.reg_value(u, reg) == m.reg_value(u, reg) by {
            if !(reg != dst && dst_pred != Some(reg)) {
                assert(results[k].0 != u);
            }
            assert(z.reg_value(u, reg) == m2.reg_value(u, reg));
        }
    }
}

// ---------------------------------------------------------------------------
// Laws
// ---------------------------------------------------------------------------

/// A shuffle gives each member exactly the value that its partner lane had in
/// the source register before the operation, and tells in the predicate
/// whether there was a partner. Nothing else of a member changes, and nobody
/// else's registers do.
#[verifier::spinoff_prover]
pub proof fn a_shuffle_gives_the_partners_value(
    m: Machine,
    pc: InstrId,
    mask: u32,
    members: Seq<ThreadId>,
    base: int,
    mode: ShflMode,
    dst: RegId,
    dst_pred: Option<RegId>,
    src: RegId,
    offset: Operand,
    clamp: Operand,
    membermask: Operand,
    d: i64,
    w: int,
    i: int,
    j: int,
)
    requires
        pc.0 < m.env.program.instructions@.len(),
        m.env.program.instructions@[pc.0 as int] == (LoweredInstr::ShflSync {
            mode,
            dst,
            dst_pred,
            src: Operand::Reg(src),
            offset_or_lane: offset,
            clamp,
            membermask,
        }),
        of_one_warp(members, base, m.threads.len()),
        m.threads.len() == m.env.n_threads,
        dst_pred != Some(dst),
        0 <= d < 32,
        divides_warp(w),
        forall|q: int|
            0 <= q < members.len() ==> integer_of(m, #[trigger] members[q], offset) is Some
                && integer_of(m, members[q], clamp) == Some(segment_operand(mode, w)),
        0 <= i < members.len(),
        integer_of(m, members[i], offset) == Some(d),
        0 <= j < members.len(),
        members[j].0 - base == partner(mode, members[i].0 - base, d as int, w).0,
        m.warp_op(pc, mask, members).1 is Ok,
        addressable(m.warp_op(pc, mask, members).0.exprs),
    ensures
        ({
            let z = m.warp_op(pc, mask, members).0;
            &&& z.reg_value(members[i], dst) == m.reg_value(members[j], src)
            &&& dst_pred matches Some(p) ==> (z.reg_value(members[i], p) matches Value::Scalar(e)
                && z.exprs.node(e) == ExprNode::BoolConst(
                partner(mode, members[i].0 - base, d as int, w).1,
            ))
            &&& forall|u: ThreadId, reg: RegId|
                u.0 < m.threads.len() && ((reg != dst && dst_pred != Some(reg)) || !members.contains(
                    u,
                )) ==> #[trigger] z.reg_value(u, reg) == m.reg_value(u, reg)
        }),
{
    reveal(Machine::warp_effect);
    reveal(Machine::shfl_sync);
    let t = members[0];
    let g = crate::eval::cooperative::masked(
        (t.0 / WARP_SIZE * WARP_SIZE) as u32,
        mask,
        m.env.n_threads,
    );
    let m0 = m.counting_warp_sync().synced(g);
    let z = m.warp_op(pc, mask, members).0;
    let (n, f) = m0.shfl_sync(
        t,
        pc,
        mask,
        members,
        mode,
        dst,
        dst_pred,
        Operand::Reg(src),
        offset,
        clamp,
    );
    assert(f is Ok);
    let (m1, vs) = m0.shfl_sources(t, pc, members, Operand::Reg(src), no_values(), 0);
    lemma_sources(m0, t, pc, members, base, src, no_values(), 0);
    let values = vs->Ok_0;
    let (m2, rs) = m1.shfl_results(
        t,
        pc,
        members,
        mask,
        mode,
        values,
        offset,
        clamp,
        Seq::empty(),
        0,
    );
    assert forall|q: int|
        0 <= q < members.len() implies integer_of(m1, #[trigger] members[q], offset) is Some
        && integer_of(m1, members[q], clamp) is Some && integer_of(m1, members[q], offset)
        == integer_of(m, members[q], offset) && integer_of(m1, members[q], clamp) == integer_of(
        m,
        members[q],
        clamp,
    ) by {
        assert(integer_of(m, members[q], offset) is Some);
    }
    let results = rs->Ok_0;
    assert(n == m2.shfl_write(t, pc, results, dst, dst_pred, 0).0);
    lemma_results_grow(m1, t, pc, members, mask, mode, values, offset, clamp, Seq::empty(), 0);
    lemma_write_grows(m2, t, pc, results, dst, dst_pred, 0);
    let end = n.synced(g).all_advanced(members, 0);
    assert(z == end);
    lemma_advance_any(n.synced(g), members, 0);
    assert(z.exprs == n.exprs);
    lemma_results(
        m1,
        t,
        pc,
        members,
        mask,
        mode,
        values,
        offset,
        clamp,
        Seq::empty(),
        0,
        n.exprs,
    );
    assert forall|q: int| 0 <= q < results.len() implies (#[trigger] results[q]).0.0
        < m2.threads.len() && results[q].0 == members[q] by {
        assert(gets(m1, members, mode, values, offset, clamp, q, results[q]));
        let _ = members[q];
    }
    assert forall|p: int, q: int| 0 <= p < q < results.len() implies (#[trigger] results[p]).0 != (
    #[trigger] results[q]).0 by {
        assert(members[p] != members[q]);
    }
    lemma_writes(m2, t, pc, results, dst, dst_pred, 0);
    assert forall|q: int| 0 <= q < members.len() implies (#[trigger] members[q]).0
        < n.threads.len() by {}
    lemma_advanced(n.synced(g), members, 0);
    let lane = (members[i].0 % WARP_SIZE) as u32;
    assert(lane == members[i].0 - base);
    a_shuffle_reads_its_partner(mode, lane, d, w);
    assert(integer_of(m1, members[i], offset) == Some(d));
    assert(gets(m1, members, mode, values, offset, clamp, i, results[i]));
    let source = partner(mode, lane as int, d as int, w).0;
    assert(is_listed(members, 0, base + source)) by {
        assert(members[j].0 == base + source);
    }
    assert(values[source] == Some(m0.reg_value(ThreadId((base + source) as u32), src)));
    assert(members[j] == ThreadId((base + source) as u32));
    assert(results[i].2 == m.reg_value(members[j], src));
    assert(n.reg_value(results[i].0, dst) == results[i].2);
    assert forall|u: ThreadId, reg: RegId| u.0 < m.threads.len() implies #[trigger] z.reg_value(
        u,
        reg,
    ) == n.reg_value(u, reg) by {
        assert(z.threads[u.0 as int].regs == n.threads[u.0 as int].regs);
    }
    assert forall|u: ThreadId, reg: RegId|
        u.0 < m.threads.len() && ((reg != dst && dst_pred != Some(reg)) || !members.contains(u))
            implies #[trigger] z.reg_value(u, reg) == m.reg_value(u, reg) by {
        assert(z.reg_value(u, reg) == n.reg_value(u, reg));
        if !members.contains(u) {
            assert forall|q: int| 0 <= q < results.len() implies (#[trigger] results[q]).0 != u by {
                assert(results[q].0 == members[q]);
            }
        }
        assert(n.reg_value(u, reg) == m2.reg_value(u, reg));
    }
}

proof fn lemma_advance_any(m: Machine, members: Seq<ThreadId>, k: int)
    requires
        0 <= k <= members.len(),
    ensures
        m.all_advanced(members, k).exprs == m.exprs,
    decreases members.len() - k,
{
    if k < members.len() {
        lemma_advance_any(m.advanced(members[k]), members, k + 1);
    }
}

proof fn lemma_write_grows(
    m: Machine,
    t: ThreadId,
    pc: InstrId,
    results: Seq<(ThreadId, bool, Value)>,
    dst: RegId,
    dst_pred: Option<RegId>,
    k: int,
)
    requires
        0 <= k <= results.len(),
    ensures
        within(m.exprs, m.shfl_write(t, pc, results, dst, dst_pred, k).0.exprs),
    decreases results.len() - k,
{
    if k < results.len() {
        let it = results[k];
        let m1 = m.write_reg(it.0, pc, dst, it.2).0;
        let (s, x) = m1.exprs.bool_val(it.1);
        lemma_within_with(m1.exprs, ExprNode::BoolConst(it.1));
        let m2 = match dst_pred {
            None => m1,
            Some(p) => m1.with_exprs(s).write_reg(it.0, pc, p, Value::Scalar(x)).0,
        };
        let z = m.shfl_write(t, pc, results, dst, dst_pred, k).0;
        lemma_write_grows(m2, t, pc, results, dst, dst_pred, k + 1);
        let y = m2.shfl_write(t, pc, results, dst, dst_pred, k + 1).0;
        within_is_transitive(m.exprs, m2.exprs, y.exprs);
    }
}

} // verus!
