//! Sums in any order and grouping: two sums of the same terms are the same.

use vstd::prelude::*;

use crate::canon::coeff::{
    Coeff, an_integer_has_a_canonical_form, canonical_form_is_unique, integers_add,
    lemma_same_denoted, lemma_zero_denoted, the_units_are_integers,
};
use crate::symbolic::ExprId;
use crate::symbolic::arena::{ExprNode, Exprs, int_coeff, lemma_sum_is};
use crate::symbolic::sums::{
    Monomial, Product, SUM_BUDGET, all_zero, entered, expanded, same_factors, same_sum,
    taken_apart, whole,
};

verus! {

/// The terms that additions, at most `depth` of them nested, bring together
/// in `e`, from right to left. There are none if one of them is a constant,
/// a difference or a product, or has no value.
pub open spec fn terms(s: Exprs, e: ExprId, depth: nat) -> Option<Seq<ExprId>>
    decreases depth,
{
    match s.node(e) {
        ExprNode::Add(a, b) => if depth == 0 {
            None
        } else {
            match (terms(s, b, (depth - 1) as nat), terms(s, a, (depth - 1) as nat)) {
                (Some(p), Some(q)) => Some(p + q),
                _ => None,
            }
        },
        ExprNode::Sub(..)
        | ExprNode::Neg(..)
        | ExprNode::Mul(..)
        | ExprNode::Fma(..)
        | ExprNode::IntConst(..)
        | ExprNode::RealConst(..)
        | ExprNode::Undefined
        | ExprNode::Infinity { .. } => None,
        _ => Some(seq![e]),
    }
}

/// Each term entered with the constant `c`.
spec fn all_entered(table: Seq<Monomial>, c: Coeff, ts: Seq<ExprId>) -> Option<Seq<Monomial>>
    decreases ts.len(),
{
    if ts.len() == 0 {
        Some(table)
    } else {
        match all_entered(table, c, ts.drop_last()) {
            Some(t) => entered(t, c, seq![ts.last()]),
            None => None,
        }
    }
}

proof fn lemma_all_entered(table: Seq<Monomial>, c: Coeff, p: Seq<ExprId>, q: Seq<ExprId>)
    ensures
        all_entered(table, c, p + q) == (match all_entered(table, c, p) {
            Some(t) => all_entered(t, c, q),
            None => None,
        }),
    decreases q.len(),
{
    if q.len() == 0 {
        assert(p + q =~= p);
    } else {
        assert((p + q).drop_last() =~= p + q.drop_last());
        assert((p + q).last() == q.last());
        lemma_all_entered(table, c, p, q.drop_last());
    }
}

/// Taking a sum apart enters its terms, three steps to a term but one.
proof fn lemma_terms_entered(
    s: Exprs,
    work: Seq<Product>,
    c: Coeff,
    e: ExprId,
    depth: nat,
    table: Seq<Monomial>,
    fuel: nat,
)
    requires
        terms(s, e, depth) is Some,
        all_entered(table, c, terms(s, e, depth)->0) is Some,
        fuel >= 3 * terms(s, e, depth)->0.len() - 1,
    ensures
        terms(s, e, depth)->0.len() >= 1,
        expanded(s, work.push(whole(c, e)), table, fuel) == expanded(
            s,
            work,
            all_entered(table, c, terms(s, e, depth)->0)->0,
            (fuel - (3 * terms(s, e, depth)->0.len() - 1)) as nat,
        ),
    decreases depth,
{
    let ts = terms(s, e, depth)->0;
    let p = whole(c, e);
    let none = Product { coeff: c, done: Seq::empty(), open: Seq::empty() };
    assert(p.rest() =~= none);
    assert(work.push(p).drop_last() =~= work);
    match s.node(e) {
        ExprNode::Add(a, b) => {
            let d = (depth - 1) as nat;
            let tb = terms(s, b, d)->0;
            let ta = terms(s, a, d)->0;
            lemma_all_entered(table, c, tb, ta);
            let mid = all_entered(table, c, tb)->0;
            assert(none.times(a) =~= whole(c, a)) by {
                assert(Seq::<ExprId>::empty().push(a) =~= seq![a]);
            }
            assert(none.times(b) =~= whole(c, b)) by {
                assert(Seq::<ExprId>::empty().push(b) =~= seq![b]);
            }
            lemma_terms_nonempty(s, a, d);
            lemma_terms_nonempty(s, b, d);
            let left = (fuel - 1) as nat;
            assert(work + seq![none.times(a), none.times(b)] =~= work.push(whole(c, a)).push(
                whole(c, b),
            ));
            assert(taken_apart(s, p) == Some(seq![none.times(a), none.times(b)]));
            assert(expanded(s, work.push(p), table, fuel) == expanded(
                s,
                work.push(whole(c, a)).push(whole(c, b)),
                table,
                left,
            ));
            lemma_terms_entered(s, work.push(whole(c, a)), c, b, d, table, left);
            let after = (left - (3 * tb.len() - 1)) as nat;
            lemma_terms_entered(s, work, c, a, d, mid, after);
        },
        _ => {
            assert(ts =~= seq![e]);
            let kept = none.keeping(e);
            assert(kept.done =~= seq![e]);
            assert(taken_apart(s, p) == Some(seq![kept]));
            assert(work + seq![kept] =~= work.push(kept));
            assert(expanded(s, work.push(p), table, fuel) == expanded(
                s,
                work.push(kept),
                table,
                (fuel - 1) as nat,
            ));
            assert(work.push(kept).drop_last() =~= work);
            assert(ts.drop_last() =~= Seq::<ExprId>::empty());
            assert(all_entered(table, c, ts.drop_last()) == Some(table));
            assert(all_entered(table, c, ts) == entered(table, c, seq![e]));
        },
    }
}

proof fn lemma_terms_nonempty(s: Exprs, e: ExprId, depth: nat)
    ensures
        terms(s, e, depth) matches Some(ts) ==> ts.len() >= 1,
    decreases depth,
{
    match s.node(e) {
        ExprNode::Add(a, b) => if depth > 0 {
            lemma_terms_nonempty(s, b, (depth - 1) as nat);
            lemma_terms_nonempty(s, a, (depth - 1) as nat);
        },
        _ => {},
    }
}

/// Whether a table holds each term once, with the number of times that it
/// occurs as its constant.
spec fn counts(table: Seq<Monomial>, times: spec_fn(ExprId) -> int) -> bool {
    &&& forall|i: int|
        0 <= i < table.len() ==> {
            &&& (#[trigger] table[i]).factors.len() == 1
            &&& table[i].coeff == int_coeff(times(table[i].factors[0]) as i64)
        }
    &&& forall|i: int, j: int|
        0 <= i < j < table.len() ==> (#[trigger] table[i]).factors[0] != (
        #[trigger] table[j]).factors[0]
    &&& forall|e: ExprId|
        #[trigger] times(e) != 0 ==> exists|i: int|
            0 <= i < table.len() && (#[trigger] table[i]).factors[0] == e
}

/// The counts after `sign` times each of some terms.
spec fn counted(times: spec_fn(ExprId) -> int, sign: int, ts: Seq<ExprId>) -> spec_fn(
    ExprId,
) -> int {
    |e: ExprId| times(e) + sign * ts.to_multiset().count(e)
}

proof fn lemma_int_coeff(v: int)
    requires
        -0x1000_0000 <= v <= 0x1000_0000,
    ensures
        int_coeff(v as i64).canonical(),
        int_coeff(v as i64).denotes(v, 1, 0),
{
    an_integer_has_a_canonical_form(v as i64);
}

proof fn lemma_int_coeff_is(c: Coeff, v: int)
    requires
        -0x1000_0000 <= v <= 0x1000_0000,
        c.canonical(),
        c.denotes(v, 1, 0),
    ensures
        int_coeff(v as i64) == c,
{
    lemma_int_coeff(v);
    lemma_same_denoted(c, int_coeff(v as i64), v, 1, 0);
    canonical_form_is_unique(c, int_coeff(v as i64));
}

proof fn lemma_one_factor(a: Seq<ExprId>, e: ExprId)
    requires
        a.len() == 1,
    ensures
        (a.to_multiset() == seq![e].to_multiset()) <==> a[0] == e,
{
    broadcast use vstd::seq_lib::group_to_multiset_ensures;

    assert(a =~= seq![a[0]]);
    assert(seq![e].contains(e)) by {
        assert(seq![e][0] == e);
    }
    if a[0] != e {
        assert(!a.contains(e));
        assert(a.to_multiset().count(e) == 0);
        assert(seq![e].to_multiset().count(e) > 0);
    }
}

/// Where a term stands in a table from `i` on.
proof fn lemma_where(table: Seq<Monomial>, e: ExprId, i: int)
    requires
        0 <= i <= table.len(),
        forall|j: int| 0 <= j < table.len() ==> (#[trigger] table[j]).factors.len() == 1,
    ensures
        ({
            let k = same_factors(table, seq![e], i);
            &&& i <= k <= table.len()
            &&& k < table.len() ==> table[k].factors[0] == e
            &&& forall|j: int| i <= j < k ==> (#[trigger] table[j]).factors[0] != e
        }),
    decreases table.len() - i,
{
    if i < table.len() {
        lemma_one_factor(table[i].factors, e);
        if table[i].factors[0] != e {
            lemma_where(table, e, i + 1);
        }
    }
}

/// Entering a term changes its count and no other.
proof fn lemma_count_one(
    table: Seq<Monomial>,
    times: spec_fn(ExprId) -> int,
    sign: int,
    e: ExprId,
    more: spec_fn(ExprId) -> int,
)
    requires
        counts(table, times),
        sign == 1 || sign == -1,
        -0x0fff_ffff <= times(e) <= 0x0fff_ffff,
        more(e) == times(e) + sign,
        forall|f: ExprId| f != e ==> #[trigger] more(f) == times(f),
    ensures
        entered(table, int_coeff(sign as i64), seq![e]) is Some,
        counts(entered(table, int_coeff(sign as i64), seq![e])->0, more),
{
    lemma_where(table, e, 0);
    let k = same_factors(table, seq![e], 0);
    let c = int_coeff(sign as i64);
    lemma_int_coeff(sign);
    if k < table.len() {
        let old = table[k].coeff;
        let sum = int_coeff((times(e) + sign) as i64);
        lemma_int_coeff(times(e));
        lemma_int_coeff(times(e) + sign);
        integers_add(old, times(e), c, sign, sum);
        lemma_sum_is(old, c, sum);
        let next = table.update(k, Monomial { coeff: sum, factors: table[k].factors });
        assert(entered(table, c, seq![e]) == Some(next));
        assert forall|i: int| 0 <= i < next.len() implies {
            &&& (#[trigger] next[i]).factors.len() == 1
            &&& next[i].coeff == int_coeff(more(next[i].factors[0]) as i64)
        } by {
            assert(table[i].factors == next[i].factors);
            if i != k {
                assert(table[i].factors[0] != e) by {
                    let (x, y) = (table[i].factors[0], table[k].factors[0]);
                    assert(x != y);
                }
            }
        }
        assert forall|i: int, j: int| 0 <= i < j < next.len() implies (
        #[trigger] next[i]).factors[0] != (#[trigger] next[j]).factors[0] by {
            assert(table[i].factors == next[i].factors);
            assert(table[j].factors == next[j].factors);
        }
        assert forall|f: ExprId| #[trigger] more(f) != 0 implies exists|i: int|
            0 <= i < next.len() && (#[trigger] next[i]).factors[0] == f by {
            if f == e {
                assert(next[k].factors[0] == f);
            } else {
                let i = choose|i: int|
                    0 <= i < table.len() && (#[trigger] table[i]).factors[0] == f;
                assert(next[i].factors[0] == f);
            }
        }
    } else {
        assert(times(e) == 0) by {
            if times(e) != 0 {
                let i = choose|i: int|
                    0 <= i < table.len() && (#[trigger] table[i]).factors[0] == e;
                assert(table[i].factors[0] != e);
            }
        }
        let next = table.push(Monomial { coeff: c, factors: seq![e] });
        assert(entered(table, c, seq![e]) == Some(next));
        assert forall|i: int| 0 <= i < next.len() implies {
            &&& (#[trigger] next[i]).factors.len() == 1
            &&& next[i].coeff == int_coeff(more(next[i].factors[0]) as i64)
        } by {
            if i < table.len() {
                assert(next[i] == table[i]);
                assert(table[i].factors[0] != e);
            }
        }
        assert forall|i: int, j: int| 0 <= i < j < next.len() implies (
        #[trigger] next[i]).factors[0] != (#[trigger] next[j]).factors[0] by {
            assert(next[i] == table[i]);
            if j < table.len() {
                assert(next[j] == table[j]);
            } else {
                assert(table[i].factors[0] != e);
            }
        }
        assert forall|f: ExprId| #[trigger] more(f) != 0 implies exists|i: int|
            0 <= i < next.len() && (#[trigger] next[i]).factors[0] == f by {
            if f == e {
                assert(next[table.len() as int].factors[0] == f);
            } else {
                let i = choose|i: int|
                    0 <= i < table.len() && (#[trigger] table[i]).factors[0] == f;
                assert(next[i].factors[0] == f);
            }
        }
    }
}

/// Entering terms counts them.
proof fn lemma_count_all(
    table: Seq<Monomial>,
    times: spec_fn(ExprId) -> int,
    bound: nat,
    sign: int,
    ts: Seq<ExprId>,
)
    requires
        counts(table, times),
        sign == 1 || sign == -1,
        forall|e: ExprId| -bound <= #[trigger] times(e) <= bound,
        bound + ts.len() <= 0x0fff_ffff,
    ensures
        all_entered(table, int_coeff(sign as i64), ts) is Some,
        counts(
            all_entered(table, int_coeff(sign as i64), ts)->0,
            counted(times, sign, ts),
        ),
        forall|e: ExprId|
            -(bound + ts.len()) <= #[trigger] counted(times, sign, ts)(e) <= bound + ts.len(),
    decreases ts.len(),
{
    broadcast use vstd::seq_lib::group_to_multiset_ensures;

    let next = counted(times, sign, ts);
    if ts.len() == 0 {
        assert(ts.to_multiset().len() == 0);
        assert forall|e: ExprId| #[trigger] next(e) == times(e) by {
            assert(!ts.contains(e));
            assert(ts.to_multiset().count(e) == 0);
            assert(sign * 0 == 0);
        }
        assert forall|e: ExprId| #[trigger] next(e) != 0 implies exists|i: int|
            0 <= i < table.len() && (#[trigger] table[i]).factors[0] == e by {
            assert(times(e) != 0);
        }
        assert(counts(table, next));
    } else {
        let init = ts.drop_last();
        let e = ts.last();
        lemma_count_all(table, times, bound, sign, init);
        let mid = counted(times, sign, init);
        assert(ts =~= init.push(e));
        assert(ts.to_multiset() =~= init.to_multiset().insert(e));
        assert forall|f: ExprId| #[trigger]
            next(f) == mid(f) + (if f == e {
                sign
            } else {
                0
            }) by {
            let n = init.to_multiset().count(f) as int;
            assert(ts.to_multiset().count(f) == n + (if f == e {
                1int
            } else {
                0
            }));
            assert(sign * (n + 1) == sign * n + sign) by (nonlinear_arith);
        }
        assert(-(bound + init.len()) <= mid(e) <= bound + init.len());
        lemma_count_one(
            all_entered(table, int_coeff(sign as i64), init)->0,
            mid,
            sign,
            e,
            next,
        );
        assert forall|f: ExprId|
            -(bound + ts.len()) <= #[trigger] next(f) <= bound + ts.len() by {
            assert(-(bound + init.len()) <= mid(f) <= bound + init.len());
        }
    }
}

/// Two sums of the same terms are the same, in whatever order and grouping
/// the terms were added, as long as the comparison does not run out of steps.
pub proof fn order_and_grouping_do_not_matter(
    s: Exprs,
    x: ExprId,
    y: ExprId,
    depth: nat,
    xs: Seq<ExprId>,
    ys: Seq<ExprId>,
)
    requires
        terms(s, x, depth) == Some(xs),
        terms(s, y, depth) == Some(ys),
        xs.to_multiset() == ys.to_multiset(),
        6 * xs.len() - 2 <= SUM_BUDGET,
    ensures
        same_sum(s, x, y),
{
    broadcast use vstd::seq_lib::group_to_multiset_ensures;

    assert(xs.len() == xs.to_multiset().len());
    assert(ys.len() == ys.to_multiset().len());
    let none = Seq::<Monomial>::empty();
    let zero = |e: ExprId| 0int;
    let plus = int_coeff(1i64);
    let minus = int_coeff((-1int) as i64);
    assert(plus == Coeff::one() && minus == Coeff::minus_one()) by {
        the_units_are_integers();
        lemma_int_coeff_is(Coeff::one(), 1);
        lemma_int_coeff_is(Coeff::minus_one(), -1);
    }
    lemma_terms_nonempty(s, x, depth);
    lemma_terms_nonempty(s, y, depth);
    lemma_count_all(none, zero, 0, -1, ys);
    let first = all_entered(none, minus, ys)->0;
    let mid = counted(zero, -1, ys);
    lemma_count_all(first, mid, ys.len(), 1, xs);
    let last = all_entered(first, plus, xs)->0;
    let end = counted(mid, 1, xs);
    let steps = (3 * ys.len() - 1) as nat;
    let fuel = SUM_BUDGET as nat;
    let start = seq![whole(Coeff::one(), x), whole(Coeff::minus_one(), y)];
    let inner = Seq::<Product>::empty().push(whole(plus, x));
    assert(start =~= inner.push(whole(minus, y)));
    lemma_terms_entered(s, inner, minus, y, depth, none, fuel);
    lemma_terms_entered(s, Seq::empty(), plus, x, depth, first, (fuel - steps) as nat);
    assert(expanded(s, start, none, fuel) == Some(last));
    assert(all_zero(last)) by {
        assert forall|i: int| 0 <= i < last.len() implies (#[trigger] last[i]).coeff.num == 0 by {
            let e = last[i].factors[0];
            let n = xs.to_multiset().count(e) as int;
            assert(mid(e) == 0 + -1 * n);
            assert(end(e) == mid(e) + 1 * n);
            assert(end(e) == 0);
            lemma_int_coeff(0);
            lemma_zero_denoted(last[i].coeff, 1, 0);
        }
    }
}

} // verus!
