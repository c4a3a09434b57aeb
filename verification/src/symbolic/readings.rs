//! What equality of polynomials means: however the parts of two equal
//! expressions are read as numbers, the expressions are the same number.

use vstd::prelude::*;

use crate::canon::coeff::{
    Coeff, a_multipliable_pair_has_a_product, an_addable_pair_has_a_sum,
};
use crate::symbolic::ExprId;
use crate::symbolic::arena::{
    ExprNode, Exprs, canonical_node, coeff_product, coeff_sum, int_coeff, lemma_product_is,
    lemma_sum_is,
};
use crate::symbolic::sums::{
    Monomial, Product, SUM_BUDGET, all_zero, entered, expanded, same_factors, same_sum,
    taken_apart, whole,
};

verus! {

/// Numbers with a sum and a product, among them the exact constants.
#[verifier::reject_recursive_types(K)]
pub struct Numbers<K> {
    pub zero: K,
    pub plus: spec_fn(K, K) -> K,
    pub times: spec_fn(K, K) -> K,
    pub constant: spec_fn(Coeff) -> K,
}

impl<K> Numbers<K> {
    /// Sums and products commute, associate and distribute, and the constants
    /// add and multiply as their values do.
    #[verifier::opaque]
    pub open spec fn lawful(self) -> bool {
        &&& forall|a: K, b: K| #[trigger] (self.plus)(a, b) == (self.plus)(b, a)
        &&& forall|a: K, b: K, c: K|
            #[trigger] (self.plus)((self.plus)(a, b), c) == (self.plus)(a, (self.plus)(b, c))
        &&& forall|a: K| #[trigger] (self.plus)(a, self.zero) == a
        &&& forall|a: K, b: K| #[trigger] (self.times)(a, b) == (self.times)(b, a)
        &&& forall|a: K, b: K, c: K|
            #[trigger] (self.times)((self.times)(a, b), c) == (self.times)(a, (self.times)(b, c))
        &&& forall|a: K| #[trigger] (self.times)(a, (self.constant)(Coeff::one())) == a
        &&& forall|a: K| #[trigger] (self.times)(a, self.zero) == self.zero
        &&& forall|a: K, b: K, c: K|
            #[trigger] (self.times)(a, (self.plus)(b, c)) == (self.plus)(
                (self.times)(a, b),
                (self.times)(a, c),
            )
        &&& (self.constant)(Coeff::zero()) == self.zero
        &&& forall|a: Coeff, b: Coeff, c: Coeff|
            a.canonical() && b.canonical() && #[trigger] a.is_sum(b, Ok(c)) ==> (self.constant)(c)
                == (self.plus)((self.constant)(a), (self.constant)(b))
        &&& forall|a: Coeff, b: Coeff, c: Coeff|
            a.canonical() && b.canonical() && #[trigger] a.is_product(b, Ok(c)) ==> (
            self.constant)(c) == (self.times)((self.constant)(a), (self.constant)(b))
    }

    pub proof fn plus_commutes(self, a: K, b: K)
        requires
            self.lawful(),
        ensures
            (self.plus)(a, b) == (self.plus)(b, a),
    {
        reveal(Numbers::lawful);
    }

    pub proof fn plus_associates(self, a: K, b: K, c: K)
        requires
            self.lawful(),
        ensures
            (self.plus)((self.plus)(a, b), c) == (self.plus)(a, (self.plus)(b, c)),
    {
        reveal(Numbers::lawful);
    }

    pub proof fn plus_zero(self, a: K)
        requires
            self.lawful(),
        ensures
            (self.plus)(a, self.zero) == a,
            (self.plus)(self.zero, a) == a,
    {
        reveal(Numbers::lawful);
        assert((self.plus)(self.zero, a) == (self.plus)(a, self.zero));
    }

    pub proof fn times_commutes(self, a: K, b: K)
        requires
            self.lawful(),
        ensures
            (self.times)(a, b) == (self.times)(b, a),
    {
        reveal(Numbers::lawful);
    }

    proof fn times_associates(self, a: K, b: K, c: K)
        requires
            self.lawful(),
        ensures
            (self.times)((self.times)(a, b), c) == (self.times)(a, (self.times)(b, c)),
    {
        reveal(Numbers::lawful);
    }

    proof fn times_unit(self, a: K)
        requires
            self.lawful(),
        ensures
            (self.times)(a, (self.constant)(Coeff::one())) == a,
            (self.times)((self.constant)(Coeff::one()), a) == a,
    {
        reveal(Numbers::lawful);
        let u = (self.constant)(Coeff::one());
        assert((self.times)(u, a) == (self.times)(a, u));
    }

    pub proof fn times_zero(self, a: K)
        requires
            self.lawful(),
        ensures
            (self.times)(self.zero, a) == self.zero,
    {
        reveal(Numbers::lawful);
        assert((self.times)(self.zero, a) == (self.times)(a, self.zero));
    }

    proof fn distributes(self, a: K, b: K, c: K)
        requires
            self.lawful(),
        ensures
            (self.times)(a, (self.plus)(b, c)) == (self.plus)(
                (self.times)(a, b),
                (self.times)(a, c),
            ),
    {
        reveal(Numbers::lawful);
    }

    proof fn zero_is_constant(self)
        requires
            self.lawful(),
        ensures
            (self.constant)(Coeff::zero()) == self.zero,
    {
        reveal(Numbers::lawful);
    }

    /// The constant of a sum.
    pub proof fn sum_of_constants(self, a: Coeff, b: Coeff, c: Coeff)
        requires
            self.lawful(),
            a.canonical(),
            b.canonical(),
            coeff_sum(a, b) == Some(c),
        ensures
            c.canonical(),
            (self.constant)(c) == (self.plus)((self.constant)(a), (self.constant)(b)),
    {
        let d = an_addable_pair_has_a_sum(a, b);
        lemma_sum_is(a, b, d);
        reveal(Numbers::lawful);
        assert(a.is_sum(b, Ok(c)));
    }

    /// The constant of a product.
    pub proof fn product_of_constants(self, a: Coeff, b: Coeff, c: Coeff)
        requires
            self.lawful(),
            a.canonical(),
            b.canonical(),
            coeff_product(a, b) == Some(c),
        ensures
            c.canonical(),
            (self.constant)(c) == (self.times)((self.constant)(a), (self.constant)(b)),
    {
        let d = a_multipliable_pair_has_a_product(a, b);
        lemma_product_is(a, b, d);
        reveal(Numbers::lawful);
        assert(a.is_product(b, Ok(c)));
    }
}

/// A reading of expressions as numbers that adds, subtracts, negates and
/// multiplies as the expressions do.
pub open spec fn reads<K>(s: Exprs, k: Numbers<K>, v: spec_fn(ExprId) -> K) -> bool {
    forall|e: ExprId|
        match s.node(e) {
            ExprNode::Add(a, b) => (#[trigger] v(e)) == (k.plus)(v(a), v(b)),
            ExprNode::Sub(a, b) => v(e) == (k.plus)(
                v(a),
                (k.times)((k.constant)(Coeff::minus_one()), v(b)),
            ),
            ExprNode::Neg(a) => v(e) == (k.times)((k.constant)(Coeff::minus_one()), v(a)),
            ExprNode::Mul(a, b) => v(e) == (k.times)(v(a), v(b)),
            ExprNode::Fma(a, b, c) => v(e) == (k.plus)((k.times)(v(a), v(b)), v(c)),
            ExprNode::IntConst(n) => v(e) == (k.constant)(int_coeff(n)),
            ExprNode::RealConst(c) => v(e) == (k.constant)(c),
            _ => true,
        }
}

/// The product of factors.
spec fn prod<K>(k: Numbers<K>, v: spec_fn(ExprId) -> K, es: Seq<ExprId>) -> K
    decreases es.len(),
{
    if es.len() == 0 {
        (k.constant)(Coeff::one())
    } else {
        (k.times)(prod(k, v, es.drop_last()), v(es.last()))
    }
}

spec fn value<K>(k: Numbers<K>, v: spec_fn(ExprId) -> K, p: Product) -> K {
    (k.times)((k.constant)(p.coeff), (k.times)(prod(k, v, p.done), prod(k, v, p.open)))
}

spec fn weight<K>(k: Numbers<K>, v: spec_fn(ExprId) -> K, m: Monomial) -> K {
    (k.times)((k.constant)(m.coeff), prod(k, v, m.factors))
}

spec fn owed<K>(k: Numbers<K>, v: spec_fn(ExprId) -> K, work: Seq<Product>) -> K
    decreases work.len(),
{
    if work.len() == 0 {
        k.zero
    } else {
        (k.plus)(owed(k, v, work.drop_last()), value(k, v, work.last()))
    }
}

spec fn total<K>(k: Numbers<K>, v: spec_fn(ExprId) -> K, table: Seq<Monomial>) -> K
    decreases table.len(),
{
    if table.len() == 0 {
        k.zero
    } else {
        (k.plus)(total(k, v, table.drop_last()), weight(k, v, table.last()))
    }
}

proof fn lemma_prod_push<K>(k: Numbers<K>, v: spec_fn(ExprId) -> K, es: Seq<ExprId>, e: ExprId)
    ensures
        prod(k, v, es.push(e)) == (k.times)(prod(k, v, es), v(e)),
{
    assert(es.push(e).drop_last() =~= es);
}

proof fn lemma_owed_push<K>(k: Numbers<K>, v: spec_fn(ExprId) -> K, w: Seq<Product>, p: Product)
    ensures
        owed(k, v, w.push(p)) == (k.plus)(owed(k, v, w), value(k, v, p)),
{
    assert(w.push(p).drop_last() =~= w);
}

/// `C * (D * (O * (K * B))) == (C * K) * (D * (O * B))`.
proof fn lemma_pull<K>(k: Numbers<K>, c: K, d: K, o: K, x: K, b: K)
    requires
        k.lawful(),
    ensures
        (k.times)(c, (k.times)(d, (k.times)(o, (k.times)(x, b)))) == (k.times)(
            (k.times)(c, x),
            (k.times)(d, (k.times)(o, b)),
        ),
{
    let ob = (k.times)(o, b);
    let dob = (k.times)(d, ob);
    // O * (K * B) == K * (O * B)
    k.times_associates(o, x, b);
    k.times_commutes(o, x);
    k.times_associates(x, o, b);
    // D * (K * (O * B)) == K * (D * (O * B))
    k.times_associates(d, x, ob);
    k.times_commutes(d, x);
    k.times_associates(x, d, ob);
    k.times_associates(c, x, dob);
}

/// `C * (D * (O * (A + B))) == C * (D * (O * A)) + C * (D * (O * B))`.
proof fn lemma_spread<K>(k: Numbers<K>, c: K, d: K, o: K, a: K, b: K)
    requires
        k.lawful(),
    ensures
        (k.times)(c, (k.times)(d, (k.times)(o, (k.plus)(a, b)))) == (k.plus)(
            (k.times)(c, (k.times)(d, (k.times)(o, a))),
            (k.times)(c, (k.times)(d, (k.times)(o, b))),
        ),
{
    k.distributes(o, a, b);
    let (oa, ob) = ((k.times)(o, a), (k.times)(o, b));
    k.distributes(d, oa, ob);
    k.distributes(c, (k.times)(d, oa), (k.times)(d, ob));
}

/// Taking a factor apart keeps the number of a product.
proof fn lemma_apart<K>(
    s: Exprs,
    k: Numbers<K>,
    v: spec_fn(ExprId) -> K,
    p: Product,
    w: Seq<Product>,
)
    requires
        s.wf(),
        k.lawful(),
        reads(s, k, v),
        p.coeff.canonical(),
        p.open.len() > 0,
        taken_apart(s, p) is Some,
    ensures
        owed(k, v, w + taken_apart(s, p)->0) == (k.plus)(owed(k, v, w), value(k, v, p)),
        forall|i: int|
            0 <= i < (taken_apart(s, p)->0).len() ==> (#[trigger] (taken_apart(
                s,
                p,
            )->0)[i]).coeff.canonical(),
{
    let parts = taken_apart(s, p)->0;
    let e = p.open.last();
    let rest = p.rest();
    let c = (k.constant)(p.coeff);
    let d = prod(k, v, p.done);
    let o = prod(k, v, rest.open);
    let minus = (k.constant)(Coeff::minus_one());
    lemma_minus_one_is_canonical();
    let _ = v(e);
    assert(value(k, v, p) == (k.times)(c, (k.times)(d, (k.times)(o, v(e)))));
    match s.node(e) {
        ExprNode::Add(a, b) => {
            lemma_prod_push(k, v, rest.open, a);
            lemma_prod_push(k, v, rest.open, b);
            lemma_spread(k, c, d, o, v(a), v(b));
            lemma_two(k, v, w, rest.times(a), rest.times(b));
        },
        ExprNode::Sub(a, b) => {
            let n = coeff_product(p.coeff, Coeff::minus_one())->0;
            k.product_of_constants(p.coeff, Coeff::minus_one(), n);
            lemma_prod_push(k, v, rest.open, a);
            lemma_prod_push(k, v, rest.open, b);
            lemma_spread(k, c, d, o, v(a), (k.times)(minus, v(b)));
            lemma_pull(k, c, d, o, minus, v(b));
            lemma_two(k, v, w, rest.times(a), rest.scaled(n).times(b));
        },
        ExprNode::Neg(a) => {
            let n = coeff_product(p.coeff, Coeff::minus_one())->0;
            k.product_of_constants(p.coeff, Coeff::minus_one(), n);
            lemma_prod_push(k, v, rest.open, a);
            lemma_pull(k, c, d, o, minus, v(a));
            lemma_one(k, v, w, rest.scaled(n).times(a));
        },
        ExprNode::Mul(a, b) => {
            lemma_prod_push(k, v, rest.open, a);
            lemma_prod_push(k, v, rest.open.push(a), b);
            k.times_associates(o, v(a), v(b));
            lemma_one(k, v, w, rest.times(a).times(b));
        },
        ExprNode::Fma(a, b, z) => {
            lemma_prod_push(k, v, rest.open, a);
            lemma_prod_push(k, v, rest.open.push(a), b);
            lemma_prod_push(k, v, rest.open, z);
            k.times_associates(o, v(a), v(b));
            lemma_spread(k, c, d, o, (k.times)(v(a), v(b)), v(z));
            lemma_two(k, v, w, rest.times(a).times(b), rest.times(z));
        },
        ExprNode::IntConst(n) => {
            lemma_int_is_canonical(n);
            let m = coeff_product(p.coeff, int_coeff(n))->0;
            k.product_of_constants(p.coeff, int_coeff(n), m);
            lemma_constant_factor(k, c, d, o, (k.constant)(int_coeff(n)));
            lemma_one(k, v, w, rest.scaled(m));
        },
        ExprNode::RealConst(x) => {
            assert(canonical_node(s.nodes[e.0 as int]));
            let m = coeff_product(p.coeff, x)->0;
            k.product_of_constants(p.coeff, x, m);
            lemma_constant_factor(k, c, d, o, (k.constant)(x));
            lemma_one(k, v, w, rest.scaled(m));
        },
        ExprNode::Undefined | ExprNode::Infinity { .. } => {},
        _ => {
            lemma_prod_push(k, v, p.done, e);
            k.times_commutes(o, v(e));
            k.times_associates(d, v(e), o);
            lemma_one(k, v, w, rest.keeping(e));
        },
    }
}

proof fn lemma_one<K>(k: Numbers<K>, v: spec_fn(ExprId) -> K, w: Seq<Product>, p: Product)
    ensures
        owed(k, v, w + seq![p]) == (k.plus)(owed(k, v, w), value(k, v, p)),
{
    assert(w + seq![p] =~= w.push(p));
    lemma_owed_push(k, v, w, p);
}

proof fn lemma_two<K>(
    k: Numbers<K>,
    v: spec_fn(ExprId) -> K,
    w: Seq<Product>,
    p: Product,
    q: Product,
)
    requires
        k.lawful(),
    ensures
        owed(k, v, w + seq![p, q]) == (k.plus)(
            owed(k, v, w),
            (k.plus)(value(k, v, p), value(k, v, q)),
        ),
{
    assert(w + seq![p, q] =~= w.push(p).push(q));
    lemma_owed_push(k, v, w, p);
    lemma_owed_push(k, v, w.push(p), q);
    k.plus_associates(owed(k, v, w), value(k, v, p), value(k, v, q));
}

/// `C * (D * (O * X)) == (C * X) * (D * O)`.
proof fn lemma_constant_factor<K>(k: Numbers<K>, c: K, d: K, o: K, x: K)
    requires
        k.lawful(),
    ensures
        (k.times)(c, (k.times)(d, (k.times)(o, x))) == (k.times)(
            (k.times)(c, x),
            (k.times)(d, o),
        ),
{
    let d_o = (k.times)(d, o);
    k.times_associates(d, o, x);
    k.times_commutes(d_o, x);
    k.times_associates(c, x, d_o);
}

proof fn lemma_minus_one_is_canonical()
    ensures
        Coeff::minus_one().canonical(),
        Coeff::one().canonical(),
{
    reveal_with_fuel(crate::canon::number::gcd, 3);
}

proof fn lemma_int_is_canonical(n: i64)
    ensures
        int_coeff(n).canonical(),
{
    crate::canon::coeff::an_integer_has_a_canonical_form(n);
}

// ---------------------------------------------------------------------------
// Tables of monomials
// ---------------------------------------------------------------------------

proof fn lemma_prod_remove<K>(k: Numbers<K>, v: spec_fn(ExprId) -> K, es: Seq<ExprId>, j: int)
    requires
        k.lawful(),
        0 <= j < es.len(),
    ensures
        prod(k, v, es) == (k.times)(prod(k, v, es.remove(j)), v(es[j])),
    decreases es.len(),
{
    if j == es.len() - 1 {
        assert(es.remove(j) =~= es.drop_last());
    } else {
        let front = es.drop_last();
        lemma_prod_remove(k, v, front, j);
        assert(es.remove(j).drop_last() =~= front.remove(j));
        assert(es.remove(j).last() == es.last());
        let r = prod(k, v, front.remove(j));
        let (x, y) = (v(es[j]), v(es.last()));
        k.times_associates(r, x, y);
        k.times_commutes(x, y);
        k.times_associates(r, y, x);
    }
}

/// The same factors have the same product.
proof fn lemma_same_prod<K>(
    k: Numbers<K>,
    v: spec_fn(ExprId) -> K,
    a: Seq<ExprId>,
    b: Seq<ExprId>,
)
    requires
        k.lawful(),
        a.to_multiset() == b.to_multiset(),
    ensures
        prod(k, v, a) == prod(k, v, b),
    decreases a.len(),
{
    broadcast use vstd::seq_lib::group_to_multiset_ensures;

    assert(a.len() == a.to_multiset().len() == b.len());
    if a.len() > 0 {
        let t = a.last();
        assert(a.contains(t));
        assert(b.to_multiset().count(t) > 0);
        let j = choose|j: int| 0 <= j < b.len() && b[j] == t;
        assert(a.remove(a.len() - 1) =~= a.drop_last());
        assert(a.remove(a.len() - 1).to_multiset() =~= b.remove(j).to_multiset());
        lemma_same_prod(k, v, a.drop_last(), b.remove(j));
        lemma_prod_remove(k, v, b, j);
    }
}

proof fn lemma_same_factors(table: Seq<Monomial>, factors: Seq<ExprId>, i: int)
    requires
        0 <= i <= table.len(),
    ensures
        i <= same_factors(table, factors, i) <= table.len(),
        same_factors(table, factors, i) < table.len() ==> table[same_factors(
            table,
            factors,
            i,
        )].factors.to_multiset() == factors.to_multiset(),
    decreases table.len() - i,
{
    if i < table.len() && table[i].factors.to_multiset() != factors.to_multiset() {
        lemma_same_factors(table, factors, i + 1);
    }
}

/// A monomial that grows by `x` grows the sum by `x`.
proof fn lemma_total_update<K>(
    k: Numbers<K>,
    v: spec_fn(ExprId) -> K,
    table: Seq<Monomial>,
    i: int,
    m: Monomial,
    x: K,
)
    requires
        k.lawful(),
        0 <= i < table.len(),
        weight(k, v, m) == (k.plus)(weight(k, v, table[i]), x),
    ensures
        total(k, v, table.update(i, m)) == (k.plus)(total(k, v, table), x),
    decreases table.len(),
{
    let front = table.drop_last();
    let z = table.update(i, m);
    let t = total(k, v, front);
    let w = weight(k, v, table.last());
    if i == table.len() - 1 {
        assert(z.drop_last() =~= front);
        k.plus_associates(t, w, x);
    } else {
        lemma_total_update(k, v, front, i, m, x);
        assert(z.drop_last() =~= front.update(i, m));
        assert(z.last() == table.last());
        k.plus_associates(t, x, w);
        k.plus_commutes(x, w);
        k.plus_associates(t, w, x);
    }
}

spec fn canonical_table(table: Seq<Monomial>) -> bool {
    forall|i: int| 0 <= i < table.len() ==> (#[trigger] table[i]).coeff.canonical()
}

spec fn canonical_work(work: Seq<Product>) -> bool {
    forall|i: int| 0 <= i < work.len() ==> (#[trigger] work[i]).coeff.canonical()
}

proof fn lemma_entered<K>(
    k: Numbers<K>,
    v: spec_fn(ExprId) -> K,
    table: Seq<Monomial>,
    coeff: Coeff,
    factors: Seq<ExprId>,
)
    requires
        k.lawful(),
        coeff.canonical(),
        canonical_table(table),
        entered(table, coeff, factors) is Some,
    ensures
        canonical_table(entered(table, coeff, factors)->0),
        total(k, v, entered(table, coeff, factors)->0) == (k.plus)(
            total(k, v, table),
            weight(k, v, (Monomial { coeff, factors })),
        ),
{
    let m = Monomial { coeff, factors };
    let i = same_factors(table, factors, 0);
    lemma_same_factors(table, factors, 0);
    if i < table.len() {
        let old_m = table[i];
        let c = coeff_sum(old_m.coeff, coeff)->0;
        k.sum_of_constants(old_m.coeff, coeff, c);
        lemma_same_prod(k, v, old_m.factors, factors);
        let f = prod(k, v, factors);
        let (x, y) = ((k.constant)(old_m.coeff), (k.constant)(coeff));
        k.times_commutes((k.plus)(x, y), f);
        k.distributes(f, x, y);
        k.times_commutes(f, x);
        k.times_commutes(f, y);
        lemma_total_update(
            k,
            v,
            table,
            i,
            Monomial { coeff: c, factors: old_m.factors },
            weight(k, v, m),
        );
    } else {
        assert(table.push(m).drop_last() =~= table);
    }
}

/// Expanding keeps the number of a sum.
proof fn lemma_expanded<K>(
    s: Exprs,
    k: Numbers<K>,
    v: spec_fn(ExprId) -> K,
    work: Seq<Product>,
    table: Seq<Monomial>,
    fuel: nat,
)
    requires
        s.wf(),
        k.lawful(),
        reads(s, k, v),
        canonical_work(work),
        canonical_table(table),
        expanded(s, work, table, fuel) is Some,
    ensures
        canonical_table(expanded(s, work, table, fuel)->0),
        total(k, v, expanded(s, work, table, fuel)->0) == (k.plus)(
            owed(k, v, work),
            total(k, v, table),
        ),
    decreases fuel,
{
    if work.len() == 0 {
        k.plus_zero(total(k, v, table));
    } else {
        let p = work.last();
        let rest = work.drop_last();
        let left = (fuel - 1) as nat;
        let r = owed(k, v, rest);
        if p.open.len() == 0 {
            let t = entered(table, p.coeff, p.done)->0;
            let m = Monomial { coeff: p.coeff, factors: p.done };
            lemma_entered(k, v, table, p.coeff, p.done);
            lemma_expanded(s, k, v, rest, t, left);
            k.times_unit(prod(k, v, p.done));
            assert(value(k, v, p) == weight(k, v, m));
            let (a, w) = (total(k, v, table), weight(k, v, m));
            k.plus_commutes(a, w);
            k.plus_associates(r, w, a);
        } else {
            let parts = taken_apart(s, p)->0;
            lemma_apart(s, k, v, p, rest);
            assert(canonical_work(rest + parts)) by {
                assert forall|i: int| 0 <= i < (rest + parts).len() implies (#[trigger] (rest
                    + parts)[i]).coeff.canonical() by {
                    if i < rest.len() {
                        assert((rest + parts)[i] == work[i]);
                    } else {
                        assert((rest + parts)[i] == parts[i - rest.len()]);
                    }
                }
            }
            lemma_expanded(s, k, v, rest + parts, table, left);
        }
    }
}

proof fn lemma_zero_total<K>(k: Numbers<K>, v: spec_fn(ExprId) -> K, table: Seq<Monomial>)
    requires
        k.lawful(),
        canonical_table(table),
        all_zero(table),
    ensures
        total(k, v, table) == k.zero,
    decreases table.len(),
{
    if table.len() > 0 {
        let front = table.drop_last();
        assert forall|i: int| 0 <= i < front.len() implies (#[trigger] front[i]).coeff.canonical()
            && front[i].coeff.num == 0 by {
            assert(front[i] == table[i]);
        }
        lemma_zero_total(k, v, front);
        let m = table.last();
        assert(m == table[table.len() - 1]);
        assert(m.coeff == Coeff::zero());
        k.zero_is_constant();
        k.times_zero(prod(k, v, m.factors));
        k.plus_zero(k.zero);
    }
}

/// Expressions that are the same polynomial are the same number, whatever
/// numbers their parts are read as.
pub proof fn the_same_sum_is_the_same_number<K>(
    s: Exprs,
    k: Numbers<K>,
    v: spec_fn(ExprId) -> K,
    x: ExprId,
    y: ExprId,
)
    requires
        s.wf(),
        k.lawful(),
        reads(s, k, v),
        same_sum(s, x, y),
    ensures
        v(x) == v(y),
{
    if x != y {
        let px = whole(Coeff::one(), x);
        let py = whole(Coeff::minus_one(), y);
        let none: Seq<Product> = Seq::empty();
        let work = seq![px, py];
        lemma_minus_one_is_canonical();
        lemma_expanded(s, k, v, work, Seq::empty(), SUM_BUDGET as nat);
        let table = expanded(s, work, Seq::empty(), SUM_BUDGET as nat)->0;
        lemma_zero_total(k, v, table);
        assert(work =~= none.push(px).push(py));
        lemma_owed_push(k, v, none, px);
        lemma_owed_push(k, v, none.push(px), py);
        let (a, b) = (v(x), v(y));
        let nb = (k.times)((k.constant)(Coeff::minus_one()), b);
        lemma_whole(k, v, Coeff::one(), x);
        lemma_whole(k, v, Coeff::minus_one(), y);
        k.times_unit(a);
        k.plus_zero(a);
        k.plus_zero(owed(k, v, work));
        assert((k.plus)(a, nb) == k.zero);
        // a == a + (-b + b) == (a + -b) + b == b
        lemma_opposites(k, b);
        k.plus_associates(a, nb, b);
        k.plus_zero(b);
    }
}

proof fn lemma_whole<K>(k: Numbers<K>, v: spec_fn(ExprId) -> K, c: Coeff, e: ExprId)
    requires
        k.lawful(),
    ensures
        value(k, v, whole(c, e)) == (k.times)((k.constant)(c), v(e)),
{
    let none: Seq<ExprId> = Seq::empty();
    assert(seq![e] =~= none.push(e));
    lemma_prod_push(k, v, none, e);
    k.times_unit(v(e));
}

/// `-b + b` is zero.
proof fn lemma_opposites<K>(k: Numbers<K>, b: K)
    requires
        k.lawful(),
    ensures
        (k.plus)((k.times)((k.constant)(Coeff::minus_one()), b), b) == k.zero,
{
    let one = Coeff::one();
    let minus = Coeff::minus_one();
    lemma_minus_one_is_canonical();
    crate::canon::coeff::one_minus_one_is_zero();
    lemma_sum_is(minus, one, Coeff::zero());
    k.sum_of_constants(minus, one, Coeff::zero());
    k.zero_is_constant();
    let (u, m) = ((k.constant)(one), (k.constant)(minus));
    k.times_unit(b);
    k.times_commutes(b, m);
    k.distributes(b, m, u);
    k.times_commutes(b, k.zero);
    k.times_zero(b);
}

} // verus!
