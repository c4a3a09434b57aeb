//! What expressions mean: the number, or the truth value, that each stands
//! for once numbers are assigned to the symbols.

use vstd::prelude::*;

use crate::canon::coeff::{
    Coeff, a_reducible_number_has_a_canonical_form, an_addable_pair_has_a_sum,
    an_integer_has_a_canonical_form, minus_one_negates, the_units_are_integers,
};
use crate::eval::fp8::FloatValue;
use crate::symbolic::ExprId;
use crate::symbolic::arena::{
    ExprNode, Exprs, canonical_node, coeff_less, coeff_product, coeff_sum, float_node,
    float_numerator, int_coeff, is_float_coeff, lemma_product_is, lemma_sum_is,
};
use crate::symbolic::readings::{Numbers, reads};

verus! {

/// Numbers and truth values of all expressions. What a quotient, a remainder,
/// a root and an exponential are is left open; they depend on the numbers of
/// their operands alone.
#[verifier::reject_recursive_types(K)]
pub struct Reading<K> {
    pub k: Numbers<K>,
    pub number: spec_fn(ExprId) -> K,
    pub truth: spec_fn(ExprId) -> bool,
    pub less: spec_fn(K, K) -> bool,
    pub quotient: spec_fn(K, K) -> K,
    pub remainder: spec_fn(K, K) -> K,
    pub reciprocal: spec_fn(K) -> K,
    pub root: spec_fn(K) -> K,
    pub exponential: spec_fn(K) -> K,
}

impl<K> Reading<K> {
    pub open spec fn plus(self, a: K, b: K) -> K {
        (self.k.plus)(a, b)
    }

    pub open spec fn times(self, a: K, b: K) -> K {
        (self.k.times)(a, b)
    }

    pub open spec fn negative(self, a: K) -> K {
        (self.k.times)((self.k.constant)(Coeff::minus_one()), a)
    }

    pub open spec fn constant(self, c: Coeff) -> K {
        (self.k.constant)(c)
    }

    /// The number of an integer.
    pub open spec fn integer(self, n: i64) -> K {
        (self.k.constant)(int_coeff(n))
    }

    pub open spec fn smaller(self, a: K, b: K) -> K {
        if (self.less)(b, a) {
            b
        } else {
            a
        }
    }

    pub open spec fn larger(self, a: K, b: K) -> K {
        if (self.less)(a, b) {
            b
        } else {
            a
        }
    }

    pub open spec fn magnitude(self, a: K) -> K {
        if (self.less)(a, self.k.zero) {
            self.negative(a)
        } else {
            a
        }
    }

    /// The numbers add and multiply as numbers do, and the constants are
    /// ordered by their differences.
    pub open spec fn lawful(self) -> bool {
        &&& self.k.lawful()
        &&& forall|a: Coeff, b: Coeff, d: Coeff|
            a.canonical() && b.canonical() && #[trigger] a.is_sum(b.spec_neg(), Ok(d)) ==> (
            self.less)((self.k.constant)(a), (self.k.constant)(b)) == (d.num < 0)
    }

    /// Whether the node of an expression says of it what the reading does.
    pub open spec fn fits(self, n: ExprNode, e: ExprId) -> bool {
        let v = (self.number)(e);
        let p = (self.truth)(e);
        match n {
            ExprNode::Div(a, b) => v == (self.quotient)((self.number)(a), (self.number)(b)),
            ExprNode::Rem(a, b) => v == (self.remainder)((self.number)(a), (self.number)(b)),
            ExprNode::Min(a, b) => v == self.smaller((self.number)(a), (self.number)(b)),
            ExprNode::Max(a, b) => v == self.larger((self.number)(a), (self.number)(b)),
            ExprNode::Abs(a) => v == self.magnitude((self.number)(a)),
            ExprNode::Rcp(a) => v == (self.reciprocal)((self.number)(a)),
            ExprNode::Sqrt(a) => v == (self.root)((self.number)(a)),
            ExprNode::Exp(a) => v == (self.exponential)((self.number)(a)),
            ExprNode::ToFloat(a) => v == (self.number)(a),
            ExprNode::Select(c, a, b) => v == (if (self.truth)(c) {
                (self.number)(a)
            } else {
                (self.number)(b)
            }),
            ExprNode::BoolConst(b) => p == b,
            ExprNode::And(a, b) => p == ((self.truth)(a) && (self.truth)(b)),
            ExprNode::Or(a, b) => p == ((self.truth)(a) || (self.truth)(b)),
            ExprNode::Not(a) => p == !(self.truth)(a),
            ExprNode::Eq(a, b) => p == ((self.number)(a) == (self.number)(b)),
            ExprNode::Ne(a, b) => p == ((self.number)(a) != (self.number)(b)),
            ExprNode::Lt(a, b) => p == (self.less)((self.number)(a), (self.number)(b)),
            ExprNode::Gt(a, b) => p == (self.less)((self.number)(b), (self.number)(a)),
            ExprNode::Le(a, b) => p == !(self.less)((self.number)(b), (self.number)(a)),
            ExprNode::Ge(a, b) => p == !(self.less)((self.number)(a), (self.number)(b)),
            _ => true,
        }
    }

    /// Whether this is a reading of the expressions of an arena.
    #[verifier::opaque]
    pub open spec fn of(self, s: Exprs) -> bool {
        &&& self.lawful()
        &&& reads(s, self.k, self.number)
        &&& forall|e: ExprId| self.fits(s.node(e), e)
    }
}

/// Whether every expression of `s` is one of `t`, under the same handle.
pub open spec fn within(s: Exprs, t: Exprs) -> bool {
    s.nodes.len() <= t.nodes.len() && forall|i: int|
        0 <= i < s.nodes.len() ==> #[trigger] t.nodes[i] == s.nodes[i]
}

/// Whether every expression has a handle.
pub open spec fn addressable(s: Exprs) -> bool {
    s.nodes.len() <= usize::MAX
}

/// Whether every constant is in canonical form.
pub open spec fn canonical_exprs(s: Exprs) -> bool {
    forall|i: int| 0 <= i < s.nodes.len() ==> canonical_node(#[trigger] s.nodes[i])
}

pub proof fn within_is_transitive(s: Exprs, t: Exprs, u: Exprs)
    requires
        within(s, t),
        within(t, u),
    ensures
        within(s, u),
{
    assert forall|i: int| 0 <= i < s.nodes.len() implies #[trigger] u.nodes[i] == s.nodes[i] by {
        assert(t.nodes[i] == s.nodes[i]);
    }
}

/// A reading of an arena is one of every arena it grew from.
pub proof fn a_reading_holds_before<K>(r: Reading<K>, s: Exprs, t: Exprs)
    requires
        within(s, t),
        r.of(t),
    ensures
        r.of(s),
{
    reveal(Reading::of);
    assert forall|e: ExprId| r.fits(s.node(e), e) by {
        assert(r.fits(t.node(e), e));
        if e.0 < s.nodes.len() {
            assert(t.nodes[e.0 as int] == s.nodes[e.0 as int]);
        }
    }
    assert(reads(s, r.k, r.number)) by {
        assert forall|e: ExprId|
            match s.node(e) {
                ExprNode::Add(a, b) => (#[trigger] (r.number)(e)) == (r.k.plus)(
                    (r.number)(a),
                    (r.number)(b),
                ),
                ExprNode::Sub(a, b) => (r.number)(e) == (r.k.plus)(
                    (r.number)(a),
                    (r.k.times)((r.k.constant)(Coeff::minus_one()), (r.number)(b)),
                ),
                ExprNode::Neg(a) => (r.number)(e) == (r.k.times)(
                    (r.k.constant)(Coeff::minus_one()),
                    (r.number)(a),
                ),
                ExprNode::Mul(a, b) => (r.number)(e) == (r.k.times)((r.number)(a), (r.number)(b)),
                ExprNode::Fma(a, b, c) => (r.number)(e) == (r.k.plus)(
                    (r.k.times)((r.number)(a), (r.number)(b)),
                    (r.number)(c),
                ),
                ExprNode::IntConst(n) => (r.number)(e) == (r.k.constant)(int_coeff(n)),
                ExprNode::RealConst(c) => (r.number)(e) == (r.k.constant)(c),
                _ => true,
            } by {
            let _ = (r.number)(e);
            if e.0 < s.nodes.len() {
                assert(t.nodes[e.0 as int] == s.nodes[e.0 as int]);
                assert(t.node(e) == s.node(e));
            }
        }
    }
}

/// Entering a node keeps the expressions there are, and the node is found
/// under its handle ever after.
pub proof fn an_entered_node_is_found(s: Exprs, n: ExprNode, t: Exprs)
    requires
        within(s.with(n).0, t),
        addressable(t),
    ensures
        within(s, s.with(n).0),
        within(s, t),
        s.with(n).0.node(s.with(n).1) == n,
        t.node(s.with(n).1) == n,
        canonical_exprs(s) && canonical_node(n) ==> canonical_exprs(s.with(n).0),
{
    let (u, e) = s.with(n);
    if s.nodes.contains(n) {
        let i = s.nodes.index_of(n);
        assert(s.nodes[i] == n);
        assert(t.nodes[i] == u.nodes[i]);
    } else {
        assert(u.nodes[s.nodes.len() as int] == n);
        assert(t.nodes[s.nodes.len() as int] == u.nodes[s.nodes.len() as int]);
    }
    within_is_transitive(s, u, t);
}

/// The number or truth of an entered node.
pub proof fn an_entered_node_has_its_meaning<K>(r: Reading<K>, s: Exprs, n: ExprNode, t: Exprs)
    requires
        within(s.with(n).0, t),
        addressable(t),
        r.of(t),
    ensures
        ({
            let e = s.with(n).1;
            let v = (r.number)(e);
            &&& r.fits(n, e)
            &&& match n {
                ExprNode::Add(a, b) => v == r.plus((r.number)(a), (r.number)(b)),
                ExprNode::Sub(a, b) => v == r.plus(
                    (r.number)(a),
                    r.negative((r.number)(b)),
                ),
                ExprNode::Neg(a) => v == r.negative((r.number)(a)),
                ExprNode::Mul(a, b) => v == r.times((r.number)(a), (r.number)(b)),
                ExprNode::Fma(a, b, c) => v == r.plus(
                    r.times((r.number)(a), (r.number)(b)),
                    (r.number)(c),
                ),
                ExprNode::IntConst(i) => v == r.integer(i),
                ExprNode::RealConst(c) => v == r.constant(c),
                _ => true,
            }
        }),
{
    reveal(Reading::of);
    an_entered_node_is_found(s, n, t);
    let e = s.with(n).1;
    let _ = (r.number)(e);
    assert(r.fits(t.node(e), e));
}

proof fn lemma_constants<K>(r: Reading<K>, s: Exprs, t: Exprs, e: ExprId)
    requires
        r.of(t),
        within(s, t),
        canonical_exprs(s),
    ensures
        s.node(e) matches ExprNode::RealConst(c) ==> c.canonical() && (r.number)(e) == r.constant(
            c,
        ),
        s.node(e) matches ExprNode::IntConst(n) ==> (r.number)(e) == r.integer(n),
        r.lawful(),
{
    a_reading_holds_before(r, s, t);
    reveal(Reading::of);
    let _ = (r.number)(e);
    if e.0 < s.nodes.len() {
        assert(canonical_node(s.nodes[e.0 as int]));
    }
}

// ---------------------------------------------------------------------------
// What the arena's operations compute
// ---------------------------------------------------------------------------

/// A sum is the sum: whatever the symbols stand for, its number is that of
/// the one operand plus that of the other. Two integers apart, which wrap.
pub proof fn a_sum_is_the_sum<K>(r: Reading<K>, s: Exprs, a: ExprId, b: ExprId, t: Exprs)
    requires
        canonical_exprs(s),
        within(s.plus(a, b).0, t),
        addressable(t),
        r.of(t),
        !(s.node(a) is IntConst && s.node(b) is IntConst),
    ensures
        (r.number)(s.plus(a, b).1) == r.plus((r.number)(a), (r.number)(b)),
        within(s, s.plus(a, b).0),
        canonical_exprs(s.plus(a, b).0),
{
    match (s.node(a), s.node(b)) {
        (ExprNode::RealConst(x), ExprNode::RealConst(y)) => match coeff_sum(x, y) {
            Some(c) => {
                an_entered_node_is_found(s, ExprNode::RealConst(c), t);
                lemma_constants(r, s, t, a);
                lemma_constants(r, s, t, b);
                r.k.sum_of_constants(x, y, c);
                an_entered_node_has_its_meaning(r, s, ExprNode::RealConst(c), t);
            },
            None => {
                an_entered_node_is_found(s, ExprNode::Add(a, b), t);
                an_entered_node_has_its_meaning(r, s, ExprNode::Add(a, b), t);
            },
        },
        _ => {
            an_entered_node_is_found(s, ExprNode::Add(a, b), t);
            an_entered_node_has_its_meaning(r, s, ExprNode::Add(a, b), t);
        },
    }
}

/// A difference is the first operand plus the negative of the second.
pub proof fn a_difference_is_the_difference<K>(
    r: Reading<K>,
    s: Exprs,
    a: ExprId,
    b: ExprId,
    t: Exprs,
)
    requires
        canonical_exprs(s),
        within(s.minus(a, b).0, t),
        addressable(t),
        r.of(t),
        !(s.node(a) is IntConst && s.node(b) is IntConst),
    ensures
        (r.number)(s.minus(a, b).1) == r.plus((r.number)(a), r.negative((r.number)(b))),
        within(s, s.minus(a, b).0),
        canonical_exprs(s.minus(a, b).0),
{
    an_entered_node_is_found(s, ExprNode::Sub(a, b), t);
    an_entered_node_has_its_meaning(r, s, ExprNode::Sub(a, b), t);
}

/// A product is the product of its operands.
pub proof fn a_product_is_the_product<K>(r: Reading<K>, s: Exprs, a: ExprId, b: ExprId, t: Exprs)
    requires
        canonical_exprs(s),
        within(s.times(a, b).0, t),
        addressable(t),
        r.of(t),
        !(s.node(a) is IntConst && s.node(b) is IntConst),
    ensures
        (r.number)(s.times(a, b).1) == r.times((r.number)(a), (r.number)(b)),
        within(s, s.times(a, b).0),
        canonical_exprs(s.times(a, b).0),
{
    match (s.node(a), s.node(b)) {
        (ExprNode::RealConst(x), ExprNode::RealConst(y)) => match coeff_product(x, y) {
            Some(c) => {
                an_entered_node_is_found(s, ExprNode::RealConst(c), t);
                lemma_constants(r, s, t, a);
                lemma_constants(r, s, t, b);
                r.k.product_of_constants(x, y, c);
                an_entered_node_has_its_meaning(r, s, ExprNode::RealConst(c), t);
            },
            None => {
                an_entered_node_is_found(s, ExprNode::Mul(a, b), t);
                an_entered_node_has_its_meaning(r, s, ExprNode::Mul(a, b), t);
            },
        },
        _ => {
            an_entered_node_is_found(s, ExprNode::Mul(a, b), t);
            an_entered_node_has_its_meaning(r, s, ExprNode::Mul(a, b), t);
        },
    }
}

/// A fused multiply-add is the product of the first two operands plus the
/// third.
pub proof fn a_fused_product_adds_its_third_operand<K>(
    r: Reading<K>,
    s: Exprs,
    a: ExprId,
    b: ExprId,
    c: ExprId,
    t: Exprs,
)
    requires
        canonical_exprs(s),
        within(s.fused(a, b, c).0, t),
        addressable(t),
        r.of(t),
    ensures
        (r.number)(s.fused(a, b, c).1) == r.plus(
            r.times((r.number)(a), (r.number)(b)),
            (r.number)(c),
        ),
        within(s, s.fused(a, b, c).0),
        canonical_exprs(s.fused(a, b, c).0),
{
    let plain = s.fused(a, b, c) == s.with(ExprNode::Fma(a, b, c));
    if plain {
        an_entered_node_is_found(s, ExprNode::Fma(a, b, c), t);
        an_entered_node_has_its_meaning(r, s, ExprNode::Fma(a, b, c), t);
    } else {
        let x = s.node(a)->RealConst_0;
        let y = s.node(b)->RealConst_0;
        let z = s.node(c)->RealConst_0;
        let p = coeff_product(x, y)->0;
        let q = coeff_sum(p, z)->0;
        an_entered_node_is_found(s, ExprNode::RealConst(q), t);
        lemma_constants(r, s, t, a);
        lemma_constants(r, s, t, b);
        lemma_constants(r, s, t, c);
        r.k.product_of_constants(x, y, p);
        r.k.sum_of_constants(p, z, q);
        an_entered_node_has_its_meaning(r, s, ExprNode::RealConst(q), t);
    }
}

/// A negation is the negative. An integer apart, whose negative may wrap, and
/// an infinity, which is no number.
pub proof fn a_negation_is_the_negative<K>(r: Reading<K>, s: Exprs, a: ExprId, t: Exprs)
    requires
        canonical_exprs(s),
        within(s.negated(a).0, t),
        addressable(t),
        r.of(t),
        !(s.node(a) is IntConst),
        !(s.node(a) is Infinity),
    ensures
        (r.number)(s.negated(a).1) == r.negative((r.number)(a)),
        within(s, s.negated(a).0),
        canonical_exprs(s.negated(a).0),
{
    match s.node(a) {
        ExprNode::RealConst(c) => {
            let n = ExprNode::RealConst(c.spec_neg());
            an_entered_node_is_found(s, n, t);
            lemma_constants(r, s, t, a);
            c.negation_is_canonical();
            minus_one_negates(c);
            the_units_are_integers();
            lemma_product_is(Coeff::minus_one(), c, c.spec_neg());
            r.k.product_of_constants(Coeff::minus_one(), c, c.spec_neg());
            an_entered_node_has_its_meaning(r, s, n, t);
        },
        _ => {
            an_entered_node_is_found(s, ExprNode::Neg(a), t);
            an_entered_node_has_its_meaning(r, s, ExprNode::Neg(a), t);
        },
    }
}

proof fn lemma_less<K>(r: Reading<K>, x: Coeff, y: Coeff, less: bool)
    requires
        r.lawful(),
        x.canonical(),
        y.canonical(),
        coeff_less(x, y) == Some(less),
    ensures
        (r.less)(r.constant(x), r.constant(y)) == less,
{
    y.negation_is_canonical();
    let d = an_addable_pair_has_a_sum(x, y.spec_neg());
    lemma_sum_is(x, y.spec_neg(), d);
    assert(x.is_sum(y.spec_neg(), Ok(d)));
}

/// A minimum is the smaller of its operands.
pub proof fn a_minimum_is_the_smaller<K>(r: Reading<K>, s: Exprs, a: ExprId, b: ExprId, t: Exprs)
    requires
        canonical_exprs(s),
        within(s.minimum(a, b).0, t),
        addressable(t),
        r.of(t),
        !(s.node(a) is IntConst && s.node(b) is IntConst),
    ensures
        (r.number)(s.minimum(a, b).1) == r.smaller((r.number)(a), (r.number)(b)),
        within(s, s.minimum(a, b).0),
        canonical_exprs(s.minimum(a, b).0),
{
    if s.minimum(a, b) == s.with(ExprNode::Min(a, b)) {
        an_entered_node_is_found(s, ExprNode::Min(a, b), t);
        an_entered_node_has_its_meaning(r, s, ExprNode::Min(a, b), t);
    } else {
        let x = s.node(a)->RealConst_0;
        let y = s.node(b)->RealConst_0;
        lemma_constants(r, s, t, a);
        lemma_constants(r, s, t, b);
        lemma_less(r, y, x, coeff_less(y, x)->0);
    }
}

/// A maximum is the larger of its operands.
pub proof fn a_maximum_is_the_larger<K>(r: Reading<K>, s: Exprs, a: ExprId, b: ExprId, t: Exprs)
    requires
        canonical_exprs(s),
        within(s.maximum(a, b).0, t),
        addressable(t),
        r.of(t),
        !(s.node(a) is IntConst && s.node(b) is IntConst),
    ensures
        (r.number)(s.maximum(a, b).1) == r.larger((r.number)(a), (r.number)(b)),
        within(s, s.maximum(a, b).0),
        canonical_exprs(s.maximum(a, b).0),
{
    if s.maximum(a, b) == s.with(ExprNode::Max(a, b)) {
        an_entered_node_is_found(s, ExprNode::Max(a, b), t);
        an_entered_node_has_its_meaning(r, s, ExprNode::Max(a, b), t);
    } else {
        let x = s.node(a)->RealConst_0;
        let y = s.node(b)->RealConst_0;
        lemma_constants(r, s, t, a);
        lemma_constants(r, s, t, b);
        lemma_less(r, x, y, coeff_less(x, y)->0);
    }
}

/// The node of a decoded float is canonical.
pub proof fn a_float_node_is_canonical(f: FloatValue)
    ensures
        canonical_node(float_node(f)),
{
    if let FloatValue::Finite { exp2, .. } = f {
        if crate::canon::coeff::reducible(float_numerator(f), 1, exp2 as int) {
            let c = a_reducible_number_has_a_canonical_form(float_numerator(f), 1, exp2 as int);
            assert(is_float_coeff(f, c));
        }
    }
}

/// The coefficient of an integer is canonical and has its value.
pub proof fn an_integer_coefficient_has_its_value(n: i64)
    ensures
        int_coeff(n).canonical(),
        int_coeff(n).denotes(n as int, 1, 0),
{
    an_integer_has_a_canonical_form(n);
}

} // verus!
