//! What `ldmatrix` gives each lane of a warp.

use vstd::prelude::*;

use crate::eval::cooperative::masked;
use crate::eval::effects::spare;
use crate::eval::exchanges::{integer_of, lemma_concrete};
use crate::eval::machine::Machine;
use crate::eval::memory::{MemAccessError, read_cells};
use crate::eval::products::{lemma_bracketed, whole_warp};
use crate::eval::value::Value;
use crate::eval::{ThreadId, WARP_SIZE};
use crate::lowered::{InstrId, LoweredInstr, Operand};
use crate::symbolic::ExprId;
use crate::symbolic::meaning::{within, within_is_transitive};
use crate::symbols::RegId;

verus! {

/// Whether a place in shared memory holds a value.
pub open spec fn shared_word(m: Machine, at: u64, width: u64, v: Value) -> bool {
    read_cells(m.shared, at, width) == Ok::<Value, MemAccessError>(v)
}

/// Whether the words of the matrices are where the lanes say: word `c` of row
/// `r` of matrix `i`, of two elements, is `word(i, r, c)`.
#[verifier::opaque]
pub open spec fn words_at(
    m: Machine,
    rows: Seq<u64>,
    n: int,
    word: spec_fn(int, int, int) -> Value,
) -> bool {
    forall|i: int, r: int, c: int|
        0 <= i < n && 0 <= r < 8 && 0 <= c < 4 ==> shared_word(
            m,
            rows[8 * i + r].wrapping_add((4 * c) as u64),
            4,
            #[trigger] word(i, r, c),
        )
}

/// Whether the elements of the matrices are where the lanes say.
#[verifier::opaque]
pub open spec fn elements_at(
    m: Machine,
    rows: Seq<u64>,
    n: int,
    element: spec_fn(int, int, int) -> ExprId,
) -> bool {
    forall|i: int, r: int, c: int|
        0 <= i < n && 0 <= r < 8 && 0 <= c < 8 ==> shared_word(
            m,
            rows[8 * i + r].wrapping_add((2 * c) as u64),
            2,
            Value::Scalar(#[trigger] element(i, r, c)),
        )
}

/// The addresses that the lanes supply: that of row `r` of matrix `i` comes
/// from lane `8 * i + r`.
pub open spec fn addresses(
    m: Machine,
    members: Seq<ThreadId>,
    addr: Operand,
    offset: i64,
    n: int,
) -> Seq<u64> {
    Seq::new(
        (8 * n) as nat,
        |q: int| (integer_of(m, members[q], addr)->0 as u64).wrapping_add(offset as u64),
    )
}

/// Whether `n` comes after `m` with nothing but registers, expressions and
/// marked accesses changed.
spec fn loaded(m: Machine, n: Machine) -> bool {
    &&& n == (Machine { threads: n.threads, exprs: n.exprs, race: n.race, ..m })
    &&& n.threads.len() == m.threads.len()
}

proof fn lemma_addrs(
    m0: Machine,
    m: Machine,
    t: ThreadId,
    pc: InstrId,
    members: Seq<ThreadId>,
    addr: Operand,
    offset: i64,
    n: int,
    what: &'static str,
    addrs: Seq<u64>,
    q: int,
)
    requires
        0 <= q <= 8 * n <= 32,
        members.len() == 32,
        m == m0.with_exprs(m.exprs),
        within(m0.exprs, m.exprs),
        spare(m, 8 * n - q),
        forall|l: int| 0 <= l < 32 ==> integer_of(m0, #[trigger] members[l], addr) is Some,
        addrs == addresses(m0, members, addr, offset, n).take(q),
        m.row_addrs(t, pc, members, addr, offset, (8 * n) as u64, what, addrs, q).1 is Ok,
    ensures
        ({
            let (z, s) = m.row_addrs(
                t,
                pc,
                members,
                addr,
                offset,
                (8 * n) as u64,
                what,
                addrs,
                q,
            );
            &&& z == m0.with_exprs(z.exprs)
            &&& s->Ok_0 == addresses(m0, members, addr, offset, n)
        }),
    decreases 8 * n - q,
{
    let all = addresses(m0, members, addr, offset, n);
    if q < 8 * n {
        let v = integer_of(m0, members[q], addr)->0;
        assert(integer_of(m, members[q], addr) == Some(v)) by {
            assert(integer_of(m0, members[q], addr) is Some);
            if let Operand::Reg(reg) = addr {
                let e = m0.reg_value(members[q], reg)->Scalar_0;
                assert(m.exprs.nodes[e.0 as int] == m0.exprs.nodes[e.0 as int]);
            }
        }
        lemma_concrete(m, members[q], pc, addr, what);
        let m1 = m.concrete_operand(members[q], pc, addr, what).0;
        within_is_transitive(m0.exprs, m.exprs, m1.exprs);
        let at = (v as u64).wrapping_add(offset as u64);
        assert(addrs.push(at) =~= all.take(q + 1));
        lemma_addrs(m0, m1, t, pc, members, addr, offset, n, what, addrs.push(at), q + 1);
    } else {
        assert(all.take(q) =~= all);
    }
}

/// What one lane gets of one matrix.
proof fn lemma_value(
    m: Machine,
    t: ThreadId,
    pc: InstrId,
    u: ThreadId,
    rows: Seq<u64>,
    n: int,
    i: int,
    trans: bool,
    word: spec_fn(int, int, int) -> Value,
    element: spec_fn(int, int, int) -> ExprId,
)
    requires
        0 <= i < n <= 4,
        rows.len() == 8 * n,
        !trans ==> words_at(m, rows, n, word),
        trans ==> elements_at(m, rows, n, element),
        m.matrix_value(t, pc, u, rows, i as u64, trans).1 is Ok,
    ensures
        ({
            let (z, v) = m.matrix_value(t, pc, u, rows, i as u64, trans);
            let lane = u.0 % 32;
            &&& z == (Machine { race: z.race, ..m })
            &&& v->Ok_0 == share(trans, word, element, i, lane as int)
        }),
{
    reveal(words_at);
    reveal(elements_at);
    reveal(Machine::matrix_value);
    reveal(Machine::matrix_half);
    reveal(Machine::mem_read_via);
    let lane = (u.0 % WARP_SIZE) as int;
    let z = m.matrix_value(t, pc, u, rows, i as u64, trans).0;
    if trans {
        let (r, c) = (2 * (lane % 4), lane / 4);
        let x = element(i, r, c);
        let y = element(i, r + 1, c);
        assert(shared_word(
            m,
            rows[8 * i + r].wrapping_add((2 * c) as u64),
            2,
            Value::Scalar(x),
        ));
        let m1 = m.matrix_half(t, pc, u, rows[8 * i + r].wrapping_add((2 * c) as u64)).0;
        assert(m1 =~= (Machine { race: m1.race, ..m }));
        assert(shared_word(
            m,
            rows[8 * i + (r + 1)].wrapping_add((2 * c) as u64),
            2,
            Value::Scalar(y),
        ));
        assert(z =~= (Machine { race: z.race, ..m }));
    } else {
        let (r, c) = (lane / 4, lane % 4);
        assert(shared_word(
            m,
            rows[8 * i + r].wrapping_add((4 * c) as u64),
            4,
            word(i, r, c),
        ));
        assert(z =~= (Machine { race: z.race, ..m }));
    }
}

/// The share of a lane in matrix `i`: the word with its two neighbours of row
/// `lane / 4`, or, transposed, two neighbours of column `lane / 4`.
pub open spec fn share(
    trans: bool,
    word: spec_fn(int, int, int) -> Value,
    element: spec_fn(int, int, int) -> ExprId,
    i: int,
    lane: int,
) -> Value {
    if trans {
        Value::Pair(
            element(i, 2 * (lane % 4), lane / 4),
            element(i, 2 * (lane % 4) + 1, lane / 4),
        )
    } else {
        word(i, lane / 4, lane % 4)
    }
}

proof fn lemma_lane(
    m: Machine,
    t: ThreadId,
    pc: InstrId,
    u: ThreadId,
    dst: Seq<RegId>,
    rows: Seq<u64>,
    trans: bool,
    word: spec_fn(int, int, int) -> Value,
    element: spec_fn(int, int, int) -> ExprId,
    i: int,
)
    requires
        0 <= i <= dst.len() <= 4,
        u.0 < m.threads.len(),
        dst.no_duplicates(),
        rows.len() == 8 * dst.len(),
        !trans ==> words_at(m, rows, dst.len() as int, word),
        trans ==> elements_at(m, rows, dst.len() as int, element),
        m.lane_matrices(t, pc, u, dst, rows, trans, i).1 is Ok,
    ensures
        ({
            let z = m.lane_matrices(t, pc, u, dst, rows, trans, i).0;
            &&& loaded(m, z)
            &&& forall|p: int|
                i <= p < dst.len() ==> z.reg_value(u, #[trigger] dst[p]) == share(
                    trans,
                    word,
                    element,
                    p,
                    (u.0 % 32) as int,
                )
            &&& forall|p: int|
                0 <= p < i ==> z.reg_value(u, #[trigger] dst[p]) == m.reg_value(u, dst[p])
            &&& forall|v: ThreadId, reg: RegId|
                v.0 < m.threads.len() && (v != u || !dst.contains(reg))
                    ==> #[trigger] z.reg_value(v, reg) == m.reg_value(v, reg)
        }),
    decreases dst.len() - i,
{
    if i < dst.len() {
        lemma_value(m, t, pc, u, rows, dst.len() as int, i, trans, word, element);
        let (m1, v) = m.matrix_value(t, pc, u, rows, i as u64, trans);
        let m2 = m1.write_reg(u, pc, dst[i], v->Ok_0).0;
        if trans {
            assert(elements_at(m2, rows, dst.len() as int, element)) by {
                lemma_same_elements(m, m2, rows, dst.len() as int, element);
            }
        } else {
            assert(words_at(m2, rows, dst.len() as int, word)) by {
                lemma_same_words(m, m2, rows, dst.len() as int, word);
            }
        }
        lemma_lane(m2, t, pc, u, dst, rows, trans, word, element, i + 1);
        let z = m.lane_matrices(t, pc, u, dst, rows, trans, i).0;
        assert(z.reg_value(u, dst[i]) == m2.reg_value(u, dst[i]));
        assert forall|p: int| 0 <= p < i implies z.reg_value(u, #[trigger] dst[p]) == m.reg_value(
            u,
            dst[p],
        ) by {
            assert(z.reg_value(u, dst[p]) == m2.reg_value(u, dst[p]));
            assert(dst[p] != dst[i]);
        }
        assert forall|v: ThreadId, reg: RegId|
            v.0 < m.threads.len() && (v != u || !dst.contains(reg))
                implies #[trigger] z.reg_value(v, reg) == m.reg_value(v, reg) by {
            assert(z.reg_value(v, reg) == m2.reg_value(v, reg));
            if v == u {
                assert(reg != dst[i]);
            }
        }
    }
}

proof fn lemma_same_words(
    m: Machine,
    n: Machine,
    rows: Seq<u64>,
    k: int,
    word: spec_fn(int, int, int) -> Value,
)
    requires
        words_at(m, rows, k, word),
        n.shared == m.shared,
    ensures
        words_at(n, rows, k, word),
{
    reveal(words_at);
    assert forall|i: int, r: int, c: int|
        0 <= i < k && 0 <= r < 8 && 0 <= c < 4 implies shared_word(
        n,
        rows[8 * i + r].wrapping_add((4 * c) as u64),
        4,
        #[trigger] word(i, r, c),
    ) by {
        assert(shared_word(m, rows[8 * i + r].wrapping_add((4 * c) as u64), 4, word(i, r, c)));
    }
}

proof fn lemma_same_elements(
    m: Machine,
    n: Machine,
    rows: Seq<u64>,
    k: int,
    element: spec_fn(int, int, int) -> ExprId,
)
    requires
        elements_at(m, rows, k, element),
        n.shared == m.shared,
    ensures
        elements_at(n, rows, k, element),
{
    reveal(elements_at);
    assert forall|i: int, r: int, c: int|
        0 <= i < k && 0 <= r < 8 && 0 <= c < 8 implies shared_word(
        n,
        rows[8 * i + r].wrapping_add((2 * c) as u64),
        2,
        Value::Scalar(#[trigger] element(i, r, c)),
    ) by {
        assert(shared_word(
            m,
            rows[8 * i + r].wrapping_add((2 * c) as u64),
            2,
            Value::Scalar(element(i, r, c)),
        ));
    }
}

proof fn lemma_lanes(
    m: Machine,
    t: ThreadId,
    pc: InstrId,
    members: Seq<ThreadId>,
    dst: Seq<RegId>,
    rows: Seq<u64>,
    trans: bool,
    word: spec_fn(int, int, int) -> Value,
    element: spec_fn(int, int, int) -> ExprId,
    k: int,
)
    requires
        0 <= k <= members.len(),
        dst.len() <= 4,
        dst.no_duplicates(),
        rows.len() == 8 * dst.len(),
        forall|l: int| 0 <= l < members.len() ==> (#[trigger] members[l]).0 < m.threads.len(),
        forall|o: int, p: int|
            0 <= o < p < members.len() ==> #[trigger] members[o] != #[trigger] members[p],
        !trans ==> words_at(m, rows, dst.len() as int, word),
        trans ==> elements_at(m, rows, dst.len() as int, element),
        m.load_matrices(t, pc, members, dst, rows, trans, k).1 is Ok,
    ensures
        ({
            let z = m.load_matrices(t, pc, members, dst, rows, trans, k).0;
            &&& loaded(m, z)
            &&& forall|l: int, p: int|
                k <= l < members.len() && 0 <= p < dst.len() ==> z.reg_value(
                    #[trigger] members[l],
                    #[trigger] dst[p],
                ) == share(trans, word, element, p, (members[l].0 % 32) as int)
            &&& forall|v: ThreadId, reg: RegId|
                v.0 < m.threads.len() && (!dst.contains(reg) || forall|l: int|
                    k <= l < members.len() ==> #[trigger] members[l] != v)
                    ==> #[trigger] z.reg_value(v, reg) == m.reg_value(v, reg)
        }),
    decreases members.len() - k,
{
    if k < members.len() {
        let u = members[k];
        let m1 = m.lane_matrices(t, pc, u, dst, rows, trans, 0).0;
        lemma_lane(m, t, pc, u, dst, rows, trans, word, element, 0);
        if trans {
            lemma_same_elements(m, m1, rows, dst.len() as int, element);
        } else {
            lemma_same_words(m, m1, rows, dst.len() as int, word);
        }
        lemma_lanes(m1, t, pc, members, dst, rows, trans, word, element, k + 1);
        let z = m.load_matrices(t, pc, members, dst, rows, trans, k).0;
        assert forall|l: int, p: int|
            k <= l < members.len() && 0 <= p < dst.len() implies z.reg_value(
            #[trigger] members[l],
            #[trigger] dst[p],
        ) == share(trans, word, element, p, (members[l].0 % 32) as int) by {
            if l == k {
                assert forall|o: int| k + 1 <= o < members.len() implies #[trigger] members[o]
                    != u by {
                    assert(members[k] != members[o]);
                }
                assert(z.reg_value(u, dst[p]) == m1.reg_value(u, dst[p]));
            }
        }
        assert forall|v: ThreadId, reg: RegId|
            v.0 < m.threads.len() && (!dst.contains(reg) || forall|l: int|
                k <= l < members.len() ==> #[trigger] members[l] != v)
                implies #[trigger] z.reg_value(v, reg) == m.reg_value(v, reg) by {
            assert(z.reg_value(v, reg) == m1.reg_value(v, reg));
            if v == u {
                assert(members[k] == v);
            }
        }
    }
}

/// What the instruction does to registers.
#[verifier::spinoff_prover]
proof fn lemma_ldmatrix(
    m: Machine,
    t: ThreadId,
    pc: InstrId,
    members: Seq<ThreadId>,
    dst: Seq<RegId>,
    addr: Operand,
    offset: i64,
    trans: bool,
    word: spec_fn(int, int, int) -> Value,
    element: spec_fn(int, int, int) -> ExprId,
)
    requires
        members.len() == 32,
        forall|l: int| 0 <= l < members.len() ==> (#[trigger] members[l]).0 < m.threads.len(),
        forall|o: int, p: int|
            0 <= o < p < members.len() ==> #[trigger] members[o] != #[trigger] members[p],
        dst.no_duplicates(),
        spare(m, 32),
        forall|q: int| 0 <= q < 32 ==> integer_of(m, #[trigger] members[q], addr) is Some,
        !trans ==> words_at(
            m,
            addresses(m, members, addr, offset, dst.len() as int),
            dst.len() as int,
            word,
        ),
        trans ==> elements_at(
            m,
            addresses(m, members, addr, offset, dst.len() as int),
            dst.len() as int,
            element,
        ),
        m.ldmatrix(t, pc, members, dst, addr, offset, trans).1 is Ok,
    ensures
        ({
            let z = m.ldmatrix(t, pc, members, dst, addr, offset, trans).0;
            &&& loaded(m, z)
            &&& forall|l: int, p: int|
                0 <= l < members.len() && 0 <= p < dst.len() ==> z.reg_value(
                    #[trigger] members[l],
                    #[trigger] dst[p],
                ) == share(trans, word, element, p, (members[l].0 % 32) as int)
            &&& forall|v: ThreadId, reg: RegId|
                v.0 < m.threads.len() && (!members.contains(v) || !dst.contains(reg))
                    ==> #[trigger] z.reg_value(v, reg) == m.reg_value(v, reg)
        }),
{
    reveal(Machine::ldmatrix);
    let n = dst.len() as int;
    let rows = addresses(m, members, addr, offset, n);
    assert(rows.take(0) =~= Seq::<u64>::empty());
    assert(m.with_exprs(m.exprs) =~= m);
    let what = "ldmatrix row address";
    lemma_addrs(m, m, t, pc, members, addr, offset, n, what, Seq::empty(), 0);
    let m1 = m.row_addrs(
        t,
        pc,
        members,
        addr,
        offset,
        (8 * n) as u64,
        what,
        Seq::empty(),
        0,
    ).0;
    if trans {
        lemma_same_elements(m, m1, rows, n, element);
    } else {
        lemma_same_words(m, m1, rows, n, word);
    }
    lemma_lanes(m1, t, pc, members, dst, rows, trans, word, element, 0);
    let z = m.ldmatrix(t, pc, members, dst, addr, offset, trans).0;
    assert forall|v: ThreadId, reg: RegId|
        v.0 < m.threads.len() && (!members.contains(v) || !dst.contains(reg))
            implies #[trigger] z.reg_value(v, reg) == m.reg_value(v, reg) by {
        if dst.contains(reg) {
            assert forall|o: int| 0 <= o < members.len() implies #[trigger] members[o] != v by {}
        }
        assert(z.reg_value(v, reg) == m1.reg_value(v, reg));
        assert(m1.reg_value(v, reg) == m.reg_value(v, reg));
    }
}

/// The synchronization before the operation moves no address.
proof fn lemma_same_addresses(
    m: Machine,
    n: Machine,
    members: Seq<ThreadId>,
    addr: Operand,
    offset: i64,
    k: int,
)
    requires
        members.len() == 32,
        0 <= 8 * k <= 32,
        n.threads == m.threads,
        n.env == m.env,
        n.exprs == m.exprs,
        forall|q: int| 0 <= q < 32 ==> integer_of(m, #[trigger] members[q], addr) is Some,
    ensures
        addresses(n, members, addr, offset, k) == addresses(m, members, addr, offset, k),
        forall|q: int| 0 <= q < 32 ==> integer_of(n, #[trigger] members[q], addr) is Some,
{
    assert forall|q: int| 0 <= q < 32 implies integer_of(n, #[trigger] members[q], addr)
        == integer_of(m, members[q], addr) && integer_of(n, members[q], addr) is Some by {
        assert(integer_of(m, members[q], addr) is Some);
    }
    assert(addresses(n, members, addr, offset, k) =~= addresses(m, members, addr, offset, k));
}

/// `ldmatrix` gives each lane its share of each matrix: lane `8 * i + r` says
/// where row `r` of matrix `i` lies; lane `l` then holds in register `i` the
/// elements `2 * (l % 4)` and the next of row `l / 4`, or, transposed, of
/// column `l / 4`. No other register and no memory changes.
#[verifier::spinoff_prover]
pub proof fn ldmatrix_gives_each_lane_its_share(
    m: Machine,
    pc: InstrId,
    mask: u32,
    members: Seq<ThreadId>,
    base: int,
    dst: Seq<RegId>,
    addr: Operand,
    offset: i64,
    trans: bool,
    word: spec_fn(int, int, int) -> Value,
    element: spec_fn(int, int, int) -> ExprId,
    l: int,
    i: int,
)
    requires
        whole_warp(members, base, m.threads.len()),
        m.env.program.instructions@[pc.0 as int] matches LoweredInstr::Ldmatrix {
            dst: d,
            addr: a,
            addr_offset,
            trans: x,
            ..
        } && d@ == dst && a == addr && addr_offset == offset && x == trans,
        dst.no_duplicates(),
        spare(m, 32),
        forall|q: int| 0 <= q < 32 ==> integer_of(m, #[trigger] members[q], addr) is Some,
        !trans ==> words_at(
            m,
            addresses(m, members, addr, offset, dst.len() as int),
            dst.len() as int,
            word,
        ),
        trans ==> elements_at(
            m,
            addresses(m, members, addr, offset, dst.len() as int),
            dst.len() as int,
            element,
        ),
        m.warp_op(pc, mask, members).1 is Ok,
        0 <= l < 32,
        0 <= i < dst.len(),
    ensures
        ({
            let z = m.warp_op(pc, mask, members).0;
            &&& z.reg_value(members[l], dst[i]) == (if trans {
                Value::Pair(
                    element(i, 2 * (l % 4), l / 4),
                    element(i, 2 * (l % 4) + 1, l / 4),
                )
            } else {
                word(i, l / 4, l % 4)
            })
            &&& forall|v: ThreadId, reg: RegId|
                v.0 < m.threads.len() && (!members.contains(v) || !dst.contains(reg))
                    ==> #[trigger] z.reg_value(v, reg) == m.reg_value(v, reg)
        }),
{
    assert forall|o: int| 0 <= o < members.len() implies (#[trigger] members[o]).0
        < m.threads.len() by {
        assert(members[o] == ThreadId((base + o) as u32));
    }
    assert forall|o: int, p: int| 0 <= o < p < members.len() implies #[trigger] members[o]
        != #[trigger] members[p] by {
        assert(members[o] == ThreadId((base + o) as u32));
        assert(members[p] == ThreadId((base + p) as u32));
    }
    lemma_bracketed(m, pc, mask, members);
    let t = members[0];
    let g = masked((t.0 / WARP_SIZE * WARP_SIZE) as u32, mask, m.env.n_threads);
    let m0 = m.counting_warp_sync().synced(g);
    let n = dst.len() as int;
    let rows = addresses(m, members, addr, offset, n);
    let instr = m.env.program.instructions@[pc.0 as int];
    let (y, f) = m0.warp_effect(t, pc, mask, instr, members);
    assert((y, f) == m0.ldmatrix(t, pc, members, dst, addr, offset, trans)) by {
        reveal(Machine::warp_effect);
    }
    assert(n <= 4) by {
        reveal(Machine::ldmatrix);
    }
    lemma_same_addresses(m, m0, members, addr, offset, n);
    if trans {
        lemma_same_elements(m, m0, rows, n, element);
    } else {
        lemma_same_words(m, m0, rows, n, word);
    }
    lemma_ldmatrix(m0, t, pc, members, dst, addr, offset, trans, word, element);
    let z = m.warp_op(pc, mask, members).0;
    assert(members[l] == ThreadId((base + l) as u32));
    assert(members[l].0 % 32 == l);
    assert(y.reg_value(members[l], dst[i]) == share(trans, word, element, i, l));
    assert(z.reg_value(members[l], dst[i]) == y.reg_value(members[l], dst[i]));
    assert forall|v: ThreadId, reg: RegId|
        v.0 < m.threads.len() && (!members.contains(v) || !dst.contains(reg))
            implies #[trigger] z.reg_value(v, reg) == m.reg_value(v, reg) by {
        assert(y.reg_value(v, reg) == m0.reg_value(v, reg));
    }
}

} // verus!
