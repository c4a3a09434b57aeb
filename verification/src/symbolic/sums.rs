//! Equality of polynomials: whether two expressions are the same sum of the
//! same products, in whatever order and grouping they were built.

use vstd::prelude::*;

use crate::canon::coeff::{Coeff, canonical_form_is_unique, lemma_same_denoted};
use crate::symbolic::ExprId;
use crate::symbolic::arena::{
    ExprArena, ExprNode, Exprs, coeff_product, coeff_sum, int_coeff, product_of, sum_of,
};

verus! {

/// How many expressions a comparison takes apart before it gives up.
pub const SUM_BUDGET: usize = 65536;

/// A product: a constant, factors that are not taken apart, and factors that
/// still are to be.
#[verifier::ext_equal]
pub struct Product {
    pub coeff: Coeff,
    pub done: Seq<ExprId>,
    pub open: Seq<ExprId>,
}

/// A constant times factors that are not taken apart.
#[verifier::ext_equal]
pub struct Monomial {
    pub coeff: Coeff,
    pub factors: Seq<ExprId>,
}

/// Position of the first monomial from `i` on with the same factors.
pub open spec fn same_factors(table: Seq<Monomial>, factors: Seq<ExprId>, i: int) -> int
    decreases table.len() - i,
{
    if i >= table.len() {
        table.len() as int
    } else if table[i].factors.to_multiset() == factors.to_multiset() {
        i
    } else {
        same_factors(table, factors, i + 1)
    }
}

/// A sum with one more product. There is none if a constant does not fit.
pub open spec fn entered(table: Seq<Monomial>, coeff: Coeff, factors: Seq<ExprId>) -> Option<
    Seq<Monomial>,
> {
    let i = same_factors(table, factors, 0);
    if i < table.len() {
        match coeff_sum(table[i].coeff, coeff) {
            Some(c) => Some(table.update(i, Monomial { coeff: c, factors: table[i].factors })),
            None => None,
        }
    } else {
        Some(table.push(Monomial { coeff, factors }))
    }
}

impl Product {
    /// The product with `e` among the factors to take apart.
    pub open spec fn times(self, e: ExprId) -> Product {
        Product { open: self.open.push(e), ..self }
    }

    /// The product with another constant.
    pub open spec fn scaled(self, c: Coeff) -> Product {
        Product { coeff: c, ..self }
    }

    /// The product with `e` as a factor of its own.
    pub open spec fn keeping(self, e: ExprId) -> Product {
        Product { done: self.done.push(e), ..self }
    }

    /// The product without the factor to take apart next.
    pub open spec fn rest(self) -> Product {
        Product { open: self.open.drop_last(), ..self }
    }
}

/// What one factor of a product turns it into: the products whose sum it is.
/// There is none if the factor is undefined or infinite, or a constant does
/// not fit.
pub open spec fn taken_apart(s: Exprs, p: Product) -> Option<Seq<Product>> {
    let e = p.open.last();
    let rest = p.rest();
    match s.node(e) {
        ExprNode::Add(a, b) => Some(seq![rest.times(a), rest.times(b)]),
        ExprNode::Sub(a, b) => match coeff_product(p.coeff, Coeff::minus_one()) {
            Some(c) => Some(seq![rest.times(a), rest.scaled(c).times(b)]),
            None => None,
        },
        ExprNode::Neg(a) => match coeff_product(p.coeff, Coeff::minus_one()) {
            Some(c) => Some(seq![rest.scaled(c).times(a)]),
            None => None,
        },
        ExprNode::Mul(a, b) => Some(seq![rest.times(a).times(b)]),
        ExprNode::Fma(a, b, c) => Some(seq![rest.times(a).times(b), rest.times(c)]),
        ExprNode::IntConst(v) => match coeff_product(p.coeff, int_coeff(v)) {
            Some(c) => Some(seq![rest.scaled(c)]),
            None => None,
        },
        ExprNode::RealConst(k) => match coeff_product(p.coeff, k) {
            Some(c) => Some(seq![rest.scaled(c)]),
            None => None,
        },
        ExprNode::Undefined | ExprNode::Infinity { .. } => None,
        _ => Some(seq![rest.keeping(e)]),
    }
}

/// The monomials of a sum of products, added to those of `table`. There are
/// none if a product cannot be taken apart, or if it takes more than `fuel`
/// steps.
pub open spec fn expanded(
    s: Exprs,
    work: Seq<Product>,
    table: Seq<Monomial>,
    fuel: nat,
) -> Option<Seq<Monomial>>
    decreases fuel,
{
    if work.len() == 0 {
        Some(table)
    } else if fuel == 0 {
        None
    } else {
        let p = work.last();
        let rest = work.drop_last();
        let left = (fuel - 1) as nat;
        if p.open.len() == 0 {
            match entered(table, p.coeff, p.done) {
                Some(t) => expanded(s, rest, t, left),
                None => None,
            }
        } else {
            match taken_apart(s, p) {
                Some(parts) => expanded(s, rest + parts, table, left),
                None => None,
            }
        }
    }
}

/// `coeff * e`, not taken apart yet.
pub open spec fn whole(coeff: Coeff, e: ExprId) -> Product {
    Product { coeff, done: Seq::empty(), open: seq![e] }
}

/// Whether all constants are zero.
pub open spec fn all_zero(table: Seq<Monomial>) -> bool {
    forall|i: int| 0 <= i < table.len() ==> (#[trigger] table[i]).coeff.num == 0
}

/// Whether `x - y` cancels, monomial by monomial.
pub open spec fn cancels(s: Exprs, x: ExprId, y: ExprId) -> bool {
    match expanded(
        s,
        seq![whole(Coeff::one(), x), whole(Coeff::minus_one(), y)],
        Seq::empty(),
        SUM_BUDGET as nat,
    ) {
        Some(table) => all_zero(table),
        None => false,
    }
}

/// Whether two expressions are the same, or the same polynomial.
pub open spec fn same_sum(s: Exprs, x: ExprId, y: ExprId) -> bool {
    x == y || cancels(s, x, y)
}

// ---------------------------------------------------------------------------
// Comparison
// ---------------------------------------------------------------------------

/// A product in memory.
struct Part {
    coeff: Coeff,
    done: Vec<ExprId>,
    open: Vec<ExprId>,
}

impl Part {
    spec fn model(&self) -> Product {
        Product { coeff: self.coeff, done: self.done@, open: self.open@ }
    }
}

/// A monomial in memory.
struct Entry {
    coeff: Coeff,
    factors: Vec<ExprId>,
}

impl Entry {
    spec fn model(&self) -> Monomial {
        Monomial { coeff: self.coeff, factors: self.factors@ }
    }
}

spec fn products(v: Seq<Part>) -> Seq<Product> {
    v.map_values(|p: Part| p.model())
}

spec fn monomials(v: Seq<Entry>) -> Seq<Monomial> {
    v.map_values(|m: Entry| m.model())
}

fn copied(v: &Vec<ExprId>) -> (r: Vec<ExprId>)
    ensures
        r@ == v@,
{
    let mut r: Vec<ExprId> = Vec::new();
    let mut i: usize = 0;
    while i < v.len()
        invariant
            i <= v@.len(),
            r@ == v@.take(i as int),
        decreases v@.len() - i,
    {
        r.push(v[i]);
        i = i + 1;
        assert(r@ =~= v@.take(i as int));
    }
    assert(r@ =~= v@);
    r
}

/// The first occurrence of a factor.
fn position(factors: &Vec<ExprId>, e: ExprId) -> (r: Option<usize>)
    ensures
        match r {
            Some(i) => i < factors@.len() && factors@[i as int] == e,
            None => !factors@.contains(e),
        },
{
    let mut i: usize = 0;
    while i < factors.len()
        invariant
            i <= factors@.len(),
            forall|j: int| 0 <= j < i ==> factors@[j] != e,
        decreases factors@.len() - i,
    {
        if factors[i] == e {
            return Some(i);
        }
        i = i + 1;
    }
    None
}

/// Whether two lists hold the same factors equally often.
pub fn match_factors(a: &Vec<ExprId>, b: &Vec<ExprId>) -> (r: bool)
    ensures
        r == (a@.to_multiset() == b@.to_multiset()),
{
    broadcast use vstd::seq_lib::group_to_multiset_ensures;

    if a.len() != b.len() {
        assert(a@.to_multiset().len() != b@.to_multiset().len());
        return false;
    }
    let mut rest: Vec<ExprId> = copied(b);
    let mut i: usize = 0;
    assert(a@.take(0) =~= Seq::<ExprId>::empty());
    assert(a@.take(0).to_multiset() =~= vstd::multiset::Multiset::<ExprId>::empty()) by {
        assert(a@.take(0).to_multiset().len() == 0);
    }
    assert(b@.to_multiset() =~= a@.take(0).to_multiset().add(rest@.to_multiset()));
    while i < a.len()
        invariant
            i <= a@.len(),
            b@.to_multiset() == a@.take(i as int).to_multiset().add(rest@.to_multiset()),
        decreases a@.len() - i,
    {
        broadcast use vstd::seq_lib::group_to_multiset_ensures;

        let ghost before = a@.take(i as int);
        let ghost old_rest = rest@;
        assert(a@.take(i + 1) =~= before.push(a@[i as int]));
        assert(a@.take(i + 1).to_multiset() =~= before.to_multiset().insert(a@[i as int]));
        match position(&rest, a[i]) {
            None => {
                proof {
                    lemma_prefix_counts(a@, i + 1, a@[i as int]);
                    assert(rest@.to_multiset().count(a@[i as int]) == 0);
                    assert(a@.to_multiset().count(a@[i as int]) > b@.to_multiset().count(
                        a@[i as int],
                    ));
                }
                return false;
            },
            Some(j) => {
                rest.remove(j);
                proof {
                    assert(rest@ =~= old_rest.remove(j as int));
                    assert(old_rest.to_multiset().count(a@[i as int]) > 0) by {
                        assert(old_rest.contains(a@[i as int]));
                    }
                    assert(b@.to_multiset() =~= a@.take(i + 1).to_multiset().add(
                        rest@.to_multiset(),
                    ));
                }
                i = i + 1;
            },
        }
    }
    assert(a@.take(i as int) =~= a@);
    if rest.len() == 0 {
        assert(rest@.to_multiset().len() == 0);
        assert(b@.to_multiset() =~= a@.to_multiset());
        true
    } else {
        assert(b@.to_multiset().len() == a@.to_multiset().len() + rest@.to_multiset().len());
        false
    }
}

/// A prefix holds no factor more often than the whole.
proof fn lemma_prefix_counts(a: Seq<ExprId>, n: int, e: ExprId)
    requires
        0 <= n <= a.len(),
    ensures
        a.take(n).to_multiset().count(e) <= a.to_multiset().count(e),
    decreases a.len() - n,
{
    broadcast use vstd::seq_lib::group_to_multiset_ensures;

    if n == a.len() {
        assert(a.take(n) =~= a);
    } else {
        lemma_prefix_counts(a, n + 1, e);
        assert(a.take(n + 1) =~= a.take(n).push(a[n]));
    }
}

spec fn canonical_entries(table: Seq<Entry>) -> bool {
    forall|i: int| 0 <= i < table.len() ==> (#[trigger] table[i]).coeff.canonical()
}

spec fn canonical_parts(work: Seq<Part>) -> bool {
    forall|i: int| 0 <= i < work.len() ==> (#[trigger] work[i]).coeff.canonical()
}

/// Adds a product to a sum. Also says whether its constant fits.
fn enter(table: &mut Vec<Entry>, coeff: Coeff, factors: Vec<ExprId>) -> (r: bool)
    requires
        coeff.canonical(),
        canonical_entries(old(table)@),
    ensures
        canonical_entries(final(table)@),
        r == (entered(monomials(old(table)@), coeff, factors@) is Some),
        r ==> Some(monomials(final(table)@)) == entered(
            monomials(old(table)@),
            coeff,
            factors@,
        ),
{
    let ghost before = monomials(table@);
    let mut i: usize = 0;
    while i < table.len()
        invariant
            i <= table@.len(),
            table@ == old(table)@,
            before == monomials(table@),
            canonical_entries(table@),
            coeff.canonical(),
            same_factors(before, factors@, 0) == same_factors(before, factors@, i as int),
        decreases table@.len() - i,
    {
        if match_factors(&table[i].factors, &factors) {
            assert(table@[i as int].coeff.canonical());
            match sum_of(table[i].coeff, coeff) {
                Some(c) => {
                    let own = copied(&table[i].factors);
                    table.set(i, Entry { coeff: c, factors: own });
                    assert(monomials(table@) =~= before.update(
                        i as int,
                        Monomial { coeff: c, factors: before[i as int].factors },
                    ));
                    return true;
                },
                None => {
                    return false;
                },
            }
        }
        i = i + 1;
    }
    table.push(Entry { coeff, factors });
    assert(monomials(table@) =~= before.push(Monomial { coeff, factors: factors@ }));
    true
}

/// A product with one more factor to take apart.
fn extended(coeff: Coeff, done: &Vec<ExprId>, open: &Vec<ExprId>, e: ExprId) -> (r: Part)
    ensures
        r.model() == (Product { coeff, done: done@, open: open@ }).times(e),
        r.coeff == coeff,
{
    let mut more = copied(open);
    more.push(e);
    Part { coeff, done: copied(done), open: more }
}

fn int_constant(v: i64) -> (c: Coeff)
    ensures
        c == int_coeff(v),
        c.canonical(),
{
    let c = Coeff::from_int(v);
    proof {
        let d = int_coeff(v);
        lemma_same_denoted(c, d, v as int, 1, 0);
        canonical_form_is_unique(c, d);
    }
    c
}

/// Takes one factor of a product apart.
fn take_apart(arena: &ExprArena, p: Part, work: &mut Vec<Part>) -> (r: bool)
    requires
        arena.wf(),
        p.coeff.canonical(),
        p.open@.len() > 0,
        canonical_parts(old(work)@),
    ensures
        canonical_parts(final(work)@),
        r == (taken_apart(arena@, p.model()) is Some),
        r ==> products(final(work)@) == products(old(work)@) + taken_apart(arena@, p.model())->0,
{
    let Part { coeff, done, open } = p;
    let mut done = done;
    let mut open = open;
    let e = match open.pop() {
        Some(e) => e,
        None => {
            return false;
        },
    };
    let ghost rest = Product { coeff, done: done@, open: open@ };
    let ghost before = products(work@);
    proof {
        assert(rest =~= p.model().rest());
        arena.lemma_constant(e);
    }
    match arena.node(e) {
        ExprNode::Add(a, b) => {
            work.push(extended(coeff, &done, &open, a));
            work.push(extended(coeff, &done, &open, b));
            assert(products(work@) =~= before + seq![rest.times(a), rest.times(b)]);
            true
        },
        ExprNode::Sub(a, b) => match product_of(coeff, Coeff::minus_one()) {
            Some(c) => {
                work.push(extended(coeff, &done, &open, a));
                work.push(extended(c, &done, &open, b));
                assert(products(work@) =~= before + seq![
                    rest.times(a),
                    rest.scaled(c).times(b),
                ]);
                true
            },
            None => false,
        },
        ExprNode::Neg(a) => match product_of(coeff, Coeff::minus_one()) {
            Some(c) => {
                open.push(a);
                work.push(Part { coeff: c, done, open });
                assert(products(work@) =~= before + seq![rest.scaled(c).times(a)]);
                true
            },
            None => false,
        },
        ExprNode::Mul(a, b) => {
            open.push(a);
            open.push(b);
            work.push(Part { coeff, done, open });
            assert(products(work@) =~= before + seq![rest.times(a).times(b)]);
            true
        },
        ExprNode::Fma(a, b, c) => {
            let last = extended(coeff, &done, &open, c);
            open.push(a);
            open.push(b);
            work.push(Part { coeff, done, open });
            work.push(last);
            assert(products(work@) =~= before + seq![rest.times(a).times(b), rest.times(c)]);
            true
        },
        ExprNode::IntConst(v) => match product_of(coeff, int_constant(v)) {
            Some(c) => {
                work.push(Part { coeff: c, done, open });
                assert(products(work@) =~= before + seq![rest.scaled(c)]);
                true
            },
            None => false,
        },
        ExprNode::RealConst(k) => match product_of(coeff, k) {
            Some(c) => {
                work.push(Part { coeff: c, done, open });
                assert(products(work@) =~= before + seq![rest.scaled(c)]);
                true
            },
            None => false,
        },
        ExprNode::Undefined | ExprNode::Infinity { .. } => false,
        _ => {
            done.push(e);
            work.push(Part { coeff, done, open });
            assert(products(work@) =~= before + seq![rest.keeping(e)]);
            true
        },
    }
}

/// Whether two expressions are the same, or the same polynomial.
pub fn check_same_sum(arena: &ExprArena, x: ExprId, y: ExprId) -> (r: bool)
    requires
        arena.wf(),
    ensures
        r == same_sum(arena@, x, y),
{
    if x == y {
        return true;
    }
    let none: Vec<ExprId> = Vec::new();
    let mut work: Vec<Part> = Vec::new();
    work.push(extended(Coeff::one(), &none, &none, x));
    work.push(extended(Coeff::minus_one(), &none, &none, y));
    let mut table: Vec<Entry> = Vec::new();
    let mut fuel: usize = SUM_BUDGET;
    let ghost s = arena@;
    let ghost end = expanded(
        s,
        seq![whole(Coeff::one(), x), whole(Coeff::minus_one(), y)],
        Seq::empty(),
        SUM_BUDGET as nat,
    );
    proof {
        assert(none@.push(x) =~= seq![x]);
        assert(none@.push(y) =~= seq![y]);
        assert(products(work@) =~= seq![whole(Coeff::one(), x), whole(Coeff::minus_one(), y)]);
        assert(monomials(table@) =~= Seq::<Monomial>::empty());
    }
    while work.len() > 0
        invariant
            arena.wf(),
            s == arena@,
            canonical_parts(work@),
            canonical_entries(table@),
            end == expanded(s, products(work@), monomials(table@), fuel as nat),
            cancels(s, x, y) == (match end {
                Some(t) => all_zero(t),
                None => false,
            }),
            x != y,
        decreases fuel,
    {
        if fuel == 0 {
            return false;
        }
        let ghost before = work@;
        let p = match work.pop() {
            Some(p) => p,
            None => {
                return false;
            },
        };
        proof {
            assert(p == before.last());
            assert(products(before).last() == p.model());
            assert(products(work@) =~= products(before).drop_last());
        }
        fuel = fuel - 1;
        if p.open.len() == 0 {
            let Part { coeff, done, open } = p;
            if !enter(&mut table, coeff, done) {
                return false;
            }
        } else if !take_apart(arena, p, &mut work) {
            return false;
        }
    }
    let mut i: usize = 0;
    assert(end == Some(monomials(table@)));
    while i < table.len()
        invariant
            i <= table@.len(),
            x != y,
            end == Some(monomials(table@)),
            cancels(s, x, y) == (match end {
                Some(t) => all_zero(t),
                None => false,
            }),
            forall|j: int| 0 <= j < i ==> (#[trigger] monomials(table@)[j]).coeff.num == 0,
            s == arena@,
        decreases table@.len() - i,
    {
        assert(monomials(table@)[i as int].coeff == table@[i as int].coeff);
        if table[i].coeff.num != 0 {
            return false;
        }
        i = i + 1;
    }
    true
}

} // verus!
