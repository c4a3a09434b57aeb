//! Hash-consed symbolic expressions.
//!
//! Nodes are interned: the same node always has the same handle, so equal
//! handles mean structurally equal expressions. Constant integers and exact
//! real constants fold; everything else builds a node.

use std::collections::HashMap;

use vstd::prelude::*;
use vstd::string::*;

use crate::canon::coeff::{Coeff, canonical_form_is_unique, lemma_same_denoted, reducible};
use crate::eval::fp8::FloatValue;
use crate::symbolic::ExprId;

verus! {

/// Handle to an interned string.
#[derive(Debug, Clone, Copy, PartialEq, Eq, Structural, Hash)]
pub struct StringId(pub usize);

/// One expression node.
#[derive(Debug, Clone, Copy, PartialEq, Eq, Structural)]
pub enum ExprNode {
    /// The value of an uninitialized read.
    Undefined,
    IntConst(i64),
    /// An exact real constant, in canonical form.
    RealConst(Coeff),
    Infinity { negative: bool },
    BoolConst(bool),
    /// A symbolic kernel parameter.
    ParamSymbol(StringId),
    /// An element of an input array.
    InputElement(StringId, u64),
    ToFloat(ExprId),
    Add(ExprId, ExprId),
    Sub(ExprId, ExprId),
    Mul(ExprId, ExprId),
    Div(ExprId, ExprId),
    Rem(ExprId, ExprId),
    Neg(ExprId),
    Abs(ExprId),
    Min(ExprId, ExprId),
    Max(ExprId, ExprId),
    Fma(ExprId, ExprId, ExprId),
    Rcp(ExprId),
    Sqrt(ExprId),
    Exp(ExprId),
    BitAnd(ExprId, ExprId),
    BitOr(ExprId, ExprId),
    BitXor(ExprId, ExprId),
    BitNot(ExprId),
    Shl(ExprId, ExprId),
    Shr(ExprId, ExprId),
    Lshr(ExprId, ExprId),
    And(ExprId, ExprId),
    Or(ExprId, ExprId),
    Not(ExprId),
    Eq(ExprId, ExprId),
    Ne(ExprId, ExprId),
    Lt(ExprId, ExprId),
    Le(ExprId, ExprId),
    Gt(ExprId, ExprId),
    Ge(ExprId, ExprId),
    Select(ExprId, ExprId, ExprId),
}

/// Operands of a node, in order.
pub open spec fn children(n: ExprNode) -> Seq<ExprId> {
    match n {
        ExprNode::ToFloat(a) | ExprNode::Neg(a) | ExprNode::Abs(a) => seq![a],
        ExprNode::Rcp(a) | ExprNode::Sqrt(a) | ExprNode::Exp(a) => seq![a],
        ExprNode::BitNot(a) | ExprNode::Not(a) => seq![a],
        ExprNode::Add(a, b) | ExprNode::Sub(a, b) | ExprNode::Mul(a, b) => seq![a, b],
        ExprNode::Div(a, b) | ExprNode::Rem(a, b) => seq![a, b],
        ExprNode::Min(a, b) | ExprNode::Max(a, b) => seq![a, b],
        ExprNode::BitAnd(a, b) | ExprNode::BitOr(a, b) | ExprNode::BitXor(a, b) => seq![a, b],
        ExprNode::Shl(a, b) | ExprNode::Shr(a, b) | ExprNode::Lshr(a, b) => seq![a, b],
        ExprNode::And(a, b) | ExprNode::Or(a, b) => seq![a, b],
        ExprNode::Eq(a, b) | ExprNode::Ne(a, b) | ExprNode::Lt(a, b) => seq![a, b],
        ExprNode::Le(a, b) | ExprNode::Gt(a, b) | ExprNode::Ge(a, b) => seq![a, b],
        ExprNode::Fma(a, b, c) | ExprNode::Select(a, b, c) => seq![a, b, c],
        _ => Seq::empty(),
    }
}

impl ExprNode {
    /// The operands, in order; at most three.
    pub fn child_list(&self) -> (r: Vec<ExprId>)
        ensures
            r@ == children(*self),
    {
        let mut r: Vec<ExprId> = Vec::new();
        match self {
            ExprNode::ToFloat(a) | ExprNode::Neg(a) | ExprNode::Abs(a) | ExprNode::Rcp(a)
            | ExprNode::Sqrt(a) | ExprNode::Exp(a) | ExprNode::BitNot(a) | ExprNode::Not(a) => {
                r.push(*a);
            },
            ExprNode::Add(a, b) | ExprNode::Sub(a, b) | ExprNode::Mul(a, b) | ExprNode::Div(a, b)
            | ExprNode::Rem(a, b) | ExprNode::Min(a, b) | ExprNode::Max(a, b)
            | ExprNode::BitAnd(a, b) | ExprNode::BitOr(a, b) | ExprNode::BitXor(a, b)
            | ExprNode::Shl(a, b) | ExprNode::Shr(a, b) | ExprNode::Lshr(a, b)
            | ExprNode::And(a, b) | ExprNode::Or(a, b) | ExprNode::Eq(a, b) | ExprNode::Ne(a, b)
            | ExprNode::Lt(a, b) | ExprNode::Le(a, b) | ExprNode::Gt(a, b)
            | ExprNode::Ge(a, b) => {
                r.push(*a);
                r.push(*b);
            },
            ExprNode::Fma(a, b, c) | ExprNode::Select(a, b, c) => {
                r.push(*a);
                r.push(*b);
                r.push(*c);
            },
            _ => {},
        }
        assert(r@ =~= children(*self));
        r
    }
}

/// How often an expression occurs among the first `n` operands of a node.
pub open spec fn occurrences(operands: Seq<ExprId>, n: int, e: int) -> nat
    decreases n,
{
    if n <= 0 {
        0
    } else {
        occurrences(operands, n - 1, e) + (if operands[n - 1].0 == e {
            1nat
        } else {
            0nat
        })
    }
}

/// How often an expression is an operand of the first `n` nodes.
pub open spec fn uses(nodes: Seq<ExprNode>, n: int, e: int) -> nat
    decreases n,
{
    if n <= 0 {
        0
    } else {
        uses(nodes, n - 1, e) + occurrences(
            children(nodes[n - 1]),
            children(nodes[n - 1]).len() as int,
            e,
        )
    }
}

/// A count in a machine word, which stops at its maximum.
pub open spec fn capped(n: nat) -> u32 {
    if n <= u32::MAX {
        n as u32
    } else {
        u32::MAX
    }
}

/// The number of entries from `i` on that are at least two.
pub open spec fn shared_from(counts: Seq<u32>, i: int) -> nat
    decreases counts.len() - i,
{
    if i >= counts.len() {
        0
    } else {
        shared_from(counts, i + 1) + (if counts[i] >= 2 {
            1nat
        } else {
            0nat
        })
    }
}

/// How many of the counted expressions are shared: operands more than once.
pub fn shared_count(counts: &Vec<u32>) -> (r: usize)
    ensures
        r == shared_from(counts@, 0),
{
    let n: usize = counts.len();
    let mut i: usize = n;
    let mut r: usize = 0;
    while i > 0
        invariant
            n == counts@.len(),
            i <= counts@.len(),
            r == shared_from(counts@, i as int),
            r <= counts@.len() - i,
        decreases i,
    {
        i = i - 1;
        if counts[i] >= 2 {
            r = r + 1;
        }
    }
    r
}

/// What an arena holds: its nodes and its strings, by handle.
#[verifier::ext_equal]
pub struct Exprs {
    pub nodes: Seq<ExprNode>,
    pub strings: Seq<Seq<char>>,
}

/// The exact sum of two coefficients, where it can be formed.
pub open spec fn coeff_sum(a: Coeff, b: Coeff) -> Option<Coeff> {
    if a.addable(b) {
        Some(choose|c: Coeff| a.is_sum(b, Ok(c)))
    } else {
        None
    }
}

/// The exact product of two coefficients, where it can be formed.
pub open spec fn coeff_product(a: Coeff, b: Coeff) -> Option<Coeff> {
    if a.multipliable(b) {
        Some(choose|c: Coeff| a.is_product(b, Ok(c)))
    } else {
        None
    }
}

/// Whether `a < b`, where the difference can be formed.
pub open spec fn coeff_less(a: Coeff, b: Coeff) -> Option<bool> {
    match coeff_sum(a, b.spec_neg()) {
        Some(d) => Some(d.num < 0),
        None => None,
    }
}

/// The real constant of a decoded float.
pub open spec fn is_float_coeff(f: FloatValue, c: Coeff) -> bool {
    f matches FloatValue::Finite { exp2, .. } && c.canonical() && c.denotes(
        float_numerator(f),
        1,
        exp2 as int,
    )
}

/// The signed mantissa of a decoded float.
pub open spec fn float_numerator(f: FloatValue) -> int {
    match f {
        FloatValue::Finite { negative, mantissa, .. } => if negative {
            -(mantissa as int)
        } else {
            mantissa as int
        },
        _ => 0,
    }
}

/// The node of a decoded float. An exponent beyond the range of a
/// coefficient leaves the value undefined.
pub open spec fn float_node(f: FloatValue) -> ExprNode {
    match f {
        FloatValue::Infinity { negative } => ExprNode::Infinity { negative },
        FloatValue::Finite { exp2, .. } => if reducible(float_numerator(f), 1, exp2 as int) {
            ExprNode::RealConst(choose|c: Coeff| is_float_coeff(f, c))
        } else {
            ExprNode::Undefined
        },
    }
}

/// The real constant of an integer.
pub open spec fn int_coeff(v: i64) -> Coeff {
    choose|c: Coeff| c.canonical() && c.denotes(v as int, 1, 0)
}

impl Exprs {
    pub open spec fn initial() -> Exprs {
        Exprs { nodes: Seq::empty(), strings: Seq::empty() }
    }

    /// The node of a handle; a handle beyond the arena stands for an
    /// undefined value.
    pub open spec fn node(self, e: ExprId) -> ExprNode {
        if e.0 < self.nodes.len() {
            self.nodes[e.0 as int]
        } else {
            ExprNode::Undefined
        }
    }

    /// The arena with `n` in it, and the handle of `n`.
    pub open spec fn with(self, n: ExprNode) -> (Exprs, ExprId) {
        if self.nodes.contains(n) {
            (self, ExprId(self.nodes.index_of(n) as usize))
        } else {
            (
                Exprs { nodes: self.nodes.push(n), ..self },
                ExprId(self.nodes.len() as usize),
            )
        }
    }

    /// The arena with `t` among its strings, and the handle of `t`.
    pub open spec fn with_string(self, t: Seq<char>) -> (Exprs, StringId) {
        if self.strings.contains(t) {
            (self, StringId(self.strings.index_of(t) as usize))
        } else {
            (
                Exprs { strings: self.strings.push(t), ..self },
                StringId(self.strings.len() as usize),
            )
        }
    }

    pub open spec fn as_int(self, e: ExprId) -> Option<i64> {
        match self.node(e) {
            ExprNode::IntConst(v) => Some(v),
            _ => None,
        }
    }

    pub open spec fn as_bool(self, e: ExprId) -> Option<bool> {
        match self.node(e) {
            ExprNode::BoolConst(b) => Some(b),
            _ => None,
        }
    }

    pub open spec fn is_undefined(self, e: ExprId) -> bool {
        self.node(e) == ExprNode::Undefined
    }

    /// Whether the expression is a constant.
    pub open spec fn is_concrete(self, e: ExprId) -> bool {
        match self.node(e) {
            ExprNode::IntConst(_) | ExprNode::RealConst(_) => true,
            ExprNode::Infinity { .. } | ExprNode::BoolConst(_) => true,
            _ => false,
        }
    }

    pub open spec fn int_const(self, v: i64) -> (Exprs, ExprId) {
        self.with(ExprNode::IntConst(v))
    }

    pub open spec fn bool_val(self, b: bool) -> (Exprs, ExprId) {
        self.with(ExprNode::BoolConst(b))
    }

    pub open spec fn undefined(self) -> (Exprs, ExprId) {
        self.with(ExprNode::Undefined)
    }

    pub open spec fn real_const(self, c: Coeff) -> (Exprs, ExprId) {
        self.with(ExprNode::RealConst(c))
    }

    pub open spec fn float(self, f: FloatValue) -> (Exprs, ExprId) {
        self.with(float_node(f))
    }

    pub open spec fn to_float(self, a: ExprId) -> (Exprs, ExprId) {
        match self.node(a) {
            ExprNode::IntConst(v) => self.with(ExprNode::RealConst(int_coeff(v))),
            _ => self.with(ExprNode::ToFloat(a)),
        }
    }

    /// A sum folds two integers whose sum fits, or two real constants.
    pub open spec fn plus(self, a: ExprId, b: ExprId) -> (Exprs, ExprId) {
        match (self.node(a), self.node(b)) {
            (ExprNode::IntConst(x), ExprNode::IntConst(y)) if i64::MIN <= x + y <= i64::MAX => {
                self.with(ExprNode::IntConst((x + y) as i64))
            },
            (ExprNode::RealConst(x), ExprNode::RealConst(y)) => match coeff_sum(x, y) {
                Some(c) => self.with(ExprNode::RealConst(c)),
                None => self.with(ExprNode::Add(a, b)),
            },
            _ => self.with(ExprNode::Add(a, b)),
        }
    }

    pub open spec fn minus(self, a: ExprId, b: ExprId) -> (Exprs, ExprId) {
        match (self.node(a), self.node(b)) {
            (ExprNode::IntConst(x), ExprNode::IntConst(y)) if i64::MIN <= x - y <= i64::MAX => {
                self.with(ExprNode::IntConst((x - y) as i64))
            },
            _ => self.with(ExprNode::Sub(a, b)),
        }
    }

    /// A product folds two integers whose product fits, or two real
    /// constants.
    pub open spec fn times(self, a: ExprId, b: ExprId) -> (Exprs, ExprId) {
        match (self.node(a), self.node(b)) {
            (ExprNode::IntConst(x), ExprNode::IntConst(y)) if i64::MIN <= x * y <= i64::MAX => {
                self.with(ExprNode::IntConst((x * y) as i64))
            },
            (ExprNode::RealConst(x), ExprNode::RealConst(y)) => match coeff_product(x, y) {
                Some(c) => self.with(ExprNode::RealConst(c)),
                None => self.with(ExprNode::Mul(a, b)),
            },
            _ => self.with(ExprNode::Mul(a, b)),
        }
    }

    pub open spec fn negated(self, a: ExprId) -> (Exprs, ExprId) {
        match self.node(a) {
            ExprNode::IntConst(x) if x != i64::MIN => self.with(
                ExprNode::IntConst((-x) as i64),
            ),
            ExprNode::RealConst(c) => self.with(ExprNode::RealConst(c.spec_neg())),
            ExprNode::Infinity { negative } => self.with(
                ExprNode::Infinity { negative: !negative },
            ),
            _ => self.with(ExprNode::Neg(a)),
        }
    }

    pub open spec fn minimum(self, a: ExprId, b: ExprId) -> (Exprs, ExprId) {
        match (self.node(a), self.node(b)) {
            (ExprNode::IntConst(x), ExprNode::IntConst(y)) => (
                self,
                if y < x {
                    b
                } else {
                    a
                },
            ),
            (ExprNode::RealConst(x), ExprNode::RealConst(y)) => match coeff_less(y, x) {
                Some(less) => (
                    self,
                    if less {
                        b
                    } else {
                        a
                    },
                ),
                None => self.with(ExprNode::Min(a, b)),
            },
            _ => self.with(ExprNode::Min(a, b)),
        }
    }

    pub open spec fn maximum(self, a: ExprId, b: ExprId) -> (Exprs, ExprId) {
        match (self.node(a), self.node(b)) {
            (ExprNode::IntConst(x), ExprNode::IntConst(y)) => (
                self,
                if x < y {
                    b
                } else {
                    a
                },
            ),
            (ExprNode::RealConst(x), ExprNode::RealConst(y)) => match coeff_less(x, y) {
                Some(less) => (
                    self,
                    if less {
                        b
                    } else {
                        a
                    },
                ),
                None => self.with(ExprNode::Max(a, b)),
            },
            _ => self.with(ExprNode::Max(a, b)),
        }
    }

    /// A fused multiply-add folds only if every operand is a real constant.
    pub open spec fn fused(self, a: ExprId, b: ExprId, c: ExprId) -> (Exprs, ExprId) {
        match (self.node(a), self.node(b), self.node(c)) {
            (ExprNode::RealConst(x), ExprNode::RealConst(y), ExprNode::RealConst(z)) => {
                match coeff_product(x, y) {
                    Some(p) => match coeff_sum(p, z) {
                        Some(s) => self.with(ExprNode::RealConst(s)),
                        None => self.with(ExprNode::Fma(a, b, c)),
                    },
                    None => self.with(ExprNode::Fma(a, b, c)),
                }
            },
            _ => self.with(ExprNode::Fma(a, b, c)),
        }
    }

    /// A right shift folds a constant amount below the width.
    pub open spec fn shifted_right(self, a: ExprId, b: ExprId, arithmetic: bool) -> (
        Exprs,
        ExprId,
    ) {
        match (self.node(a), self.node(b)) {
            (ExprNode::IntConst(x), ExprNode::IntConst(y)) if 0 <= y < 64 => self.with(
                ExprNode::IntConst(
                    if arithmetic {
                        x >> y
                    } else {
                        ((x as u64) >> (y as u64)) as i64
                    },
                ),
            ),
            _ => self.with(
                if arithmetic {
                    ExprNode::Shr(a, b)
                } else {
                    ExprNode::Lshr(a, b)
                },
            ),
        }
    }

    pub open spec fn operands_before(self, i: int) -> bool {
        forall|j: int|
            0 <= j < children(self.nodes[i]).len() ==> (#[trigger] children(self.nodes[i])[j]).0
                < i
    }

    /// Every node's operands come before it.
    pub open spec fn ordered(self) -> bool {
        forall|i: int| 0 <= i < self.nodes.len() ==> #[trigger] self.operands_before(i)
    }

    /// No node or string occurs twice, and every constant is canonical.
    pub open spec fn wf(self) -> bool {
        &&& self.nodes.no_duplicates()
        &&& self.strings.no_duplicates()
        &&& forall|i: int|
            0 <= i < self.nodes.len() ==> canonical_node(#[trigger] self.nodes[i])
    }
}

pub open spec fn canonical_node(n: ExprNode) -> bool {
    n matches ExprNode::RealConst(c) ==> c.canonical()
}

/// Two words mixed into one.
pub open spec fn spec_mix(h: u64, x: u64) -> u64 {
    let s = h.wrapping_mul(0x9E37_79B9_7F4A_7C15).wrapping_add(x);
    s ^ (s >> 29u64)
}

#[verifier::when_used_as_spec(spec_mix)]
fn mix(h: u64, x: u64) -> (r: u64)
    ensures
        r == spec_mix(h, x),
{
    let s: u64 = h.wrapping_mul(0x9E37_79B9_7F4A_7C15).wrapping_add(x);
    s ^ (s >> 29u64)
}

/// A number equal nodes share.
#[verifier::opaque]
pub open spec fn spec_node_key(n: ExprNode) -> u64 {
    match n {
        ExprNode::Undefined => 1,
        ExprNode::IntConst(v) => spec_mix(2, v as u64),
        ExprNode::RealConst(c) => spec_mix(spec_mix(3, c.num as u64), c.exp2 as u64),
        ExprNode::Infinity { .. } => 4,
        ExprNode::BoolConst(_) => 5,
        ExprNode::ParamSymbol(s) => spec_mix(6, s.0 as u64),
        ExprNode::InputElement(s, i) => spec_mix(spec_mix(7, s.0 as u64), i),
        ExprNode::ToFloat(a) => spec_mix(8, a.0 as u64),
        ExprNode::Neg(a) => spec_mix(9, a.0 as u64),
        ExprNode::Abs(a) => spec_mix(10, a.0 as u64),
        ExprNode::Rcp(a) => spec_mix(11, a.0 as u64),
        ExprNode::Sqrt(a) => spec_mix(12, a.0 as u64),
        ExprNode::Exp(a) => spec_mix(13, a.0 as u64),
        ExprNode::BitNot(a) => spec_mix(14, a.0 as u64),
        ExprNode::Not(a) => spec_mix(15, a.0 as u64),
        ExprNode::Add(a, b) => spec_mix(spec_mix(16, a.0 as u64), b.0 as u64),
        ExprNode::Sub(a, b) => spec_mix(spec_mix(17, a.0 as u64), b.0 as u64),
        ExprNode::Mul(a, b) => spec_mix(spec_mix(18, a.0 as u64), b.0 as u64),
        ExprNode::Min(a, b) => spec_mix(spec_mix(19, a.0 as u64), b.0 as u64),
        ExprNode::Max(a, b) => spec_mix(spec_mix(20, a.0 as u64), b.0 as u64),
        ExprNode::Shr(a, b) => spec_mix(spec_mix(21, a.0 as u64), b.0 as u64),
        ExprNode::Lshr(a, b) => spec_mix(spec_mix(22, a.0 as u64), b.0 as u64),
        ExprNode::Div(a, b) => spec_mix(spec_mix(23, a.0 as u64), b.0 as u64),
        ExprNode::Rem(a, b) => spec_mix(spec_mix(24, a.0 as u64), b.0 as u64),
        ExprNode::BitAnd(a, b) => spec_mix(spec_mix(25, a.0 as u64), b.0 as u64),
        ExprNode::BitOr(a, b) => spec_mix(spec_mix(26, a.0 as u64), b.0 as u64),
        ExprNode::BitXor(a, b) => spec_mix(spec_mix(27, a.0 as u64), b.0 as u64),
        ExprNode::Shl(a, b) => spec_mix(spec_mix(28, a.0 as u64), b.0 as u64),
        ExprNode::And(a, b) => spec_mix(spec_mix(29, a.0 as u64), b.0 as u64),
        ExprNode::Or(a, b) => spec_mix(spec_mix(30, a.0 as u64), b.0 as u64),
        ExprNode::Eq(a, b) => spec_mix(spec_mix(31, a.0 as u64), b.0 as u64),
        ExprNode::Ne(a, b) => spec_mix(spec_mix(32, a.0 as u64), b.0 as u64),
        ExprNode::Lt(a, b) => spec_mix(spec_mix(33, a.0 as u64), b.0 as u64),
        ExprNode::Le(a, b) => spec_mix(spec_mix(34, a.0 as u64), b.0 as u64),
        ExprNode::Gt(a, b) => spec_mix(spec_mix(35, a.0 as u64), b.0 as u64),
        ExprNode::Ge(a, b) => spec_mix(spec_mix(36, a.0 as u64), b.0 as u64),
        ExprNode::Fma(a, b, c) => spec_mix(
            spec_mix(spec_mix(37, a.0 as u64), b.0 as u64),
            c.0 as u64,
        ),
        ExprNode::Select(a, b, c) => spec_mix(
            spec_mix(spec_mix(38, a.0 as u64), b.0 as u64),
            c.0 as u64,
        ),
    }
}

#[verifier::when_used_as_spec(spec_node_key)]
fn node_key(n: ExprNode) -> (r: u64)
    ensures
        r == spec_node_key(n),
{
    reveal(spec_node_key);
    match n {
        ExprNode::Undefined => 1,
        ExprNode::IntConst(v) => mix(2, v as u64),
        ExprNode::RealConst(c) => mix(mix(3, c.num as u64), c.exp2 as u64),
        ExprNode::Infinity { .. } => 4,
        ExprNode::BoolConst(_) => 5,
        ExprNode::ParamSymbol(s) => mix(6, s.0 as u64),
        ExprNode::InputElement(s, i) => mix(mix(7, s.0 as u64), i),
        ExprNode::ToFloat(a) => mix(8, a.0 as u64),
        ExprNode::Neg(a) => mix(9, a.0 as u64),
        ExprNode::Abs(a) => mix(10, a.0 as u64),
        ExprNode::Rcp(a) => mix(11, a.0 as u64),
        ExprNode::Sqrt(a) => mix(12, a.0 as u64),
        ExprNode::Exp(a) => mix(13, a.0 as u64),
        ExprNode::BitNot(a) => mix(14, a.0 as u64),
        ExprNode::Not(a) => mix(15, a.0 as u64),
        ExprNode::Add(a, b) => mix(mix(16, a.0 as u64), b.0 as u64),
        ExprNode::Sub(a, b) => mix(mix(17, a.0 as u64), b.0 as u64),
        ExprNode::Mul(a, b) => mix(mix(18, a.0 as u64), b.0 as u64),
        ExprNode::Min(a, b) => mix(mix(19, a.0 as u64), b.0 as u64),
        ExprNode::Max(a, b) => mix(mix(20, a.0 as u64), b.0 as u64),
        ExprNode::Shr(a, b) => mix(mix(21, a.0 as u64), b.0 as u64),
        ExprNode::Lshr(a, b) => mix(mix(22, a.0 as u64), b.0 as u64),
        ExprNode::Div(a, b) => mix(mix(23, a.0 as u64), b.0 as u64),
        ExprNode::Rem(a, b) => mix(mix(24, a.0 as u64), b.0 as u64),
        ExprNode::BitAnd(a, b) => mix(mix(25, a.0 as u64), b.0 as u64),
        ExprNode::BitOr(a, b) => mix(mix(26, a.0 as u64), b.0 as u64),
        ExprNode::BitXor(a, b) => mix(mix(27, a.0 as u64), b.0 as u64),
        ExprNode::Shl(a, b) => mix(mix(28, a.0 as u64), b.0 as u64),
        ExprNode::And(a, b) => mix(mix(29, a.0 as u64), b.0 as u64),
        ExprNode::Or(a, b) => mix(mix(30, a.0 as u64), b.0 as u64),
        ExprNode::Eq(a, b) => mix(mix(31, a.0 as u64), b.0 as u64),
        ExprNode::Ne(a, b) => mix(mix(32, a.0 as u64), b.0 as u64),
        ExprNode::Lt(a, b) => mix(mix(33, a.0 as u64), b.0 as u64),
        ExprNode::Le(a, b) => mix(mix(34, a.0 as u64), b.0 as u64),
        ExprNode::Gt(a, b) => mix(mix(35, a.0 as u64), b.0 as u64),
        ExprNode::Ge(a, b) => mix(mix(36, a.0 as u64), b.0 as u64),
        ExprNode::Fma(a, b, c) => mix(mix(mix(37, a.0 as u64), b.0 as u64), c.0 as u64),
        ExprNode::Select(a, b, c) => mix(mix(mix(38, a.0 as u64), b.0 as u64), c.0 as u64),
    }
}

/// The expressions of one analysis.
pub struct ExprArena {
    nodes: Vec<ExprNode>,
    /// Positions of the nodes, by the nodes' keys.
    buckets: HashMap<u64, Vec<usize>>,
    strings: Vec<String>,
}

impl View for ExprArena {
    type V = Exprs;

    closed spec fn view(&self) -> Exprs {
        Exprs { nodes: self.nodes@, strings: self.strings@.map_values(|s: String| s@) }
    }
}

impl ExprArena {
    /// Every node is found under its key.
    pub closed spec fn wf(&self) -> bool {
        &&& self@.wf()
        &&& forall|i: int|
            0 <= i < self.nodes@.len() ==> self.buckets@.contains_key(
                node_key(#[trigger] self.nodes@[i]),
            ) && self.buckets@[node_key(self.nodes@[i])]@.contains(i as usize)
        &&& forall|k: u64, j: int|
            self.buckets@.contains_key(k) && 0 <= j < self.buckets@[k]@.len()
                ==> #[trigger] self.buckets@[k]@[j] < self.nodes@.len()
    }

    pub fn new() -> (r: Self)
        ensures
            r.wf(),
            r@ == Exprs::initial(),
    {
        let r = ExprArena { nodes: Vec::new(), buckets: HashMap::new(), strings: Vec::new() };
        assert(r@ =~= Exprs::initial());
        r
    }

    /// Number of nodes.
    pub fn node_count(&self) -> (r: usize)
        ensures
            r == self@.nodes.len(),
    {
        self.nodes.len()
    }

    /// The node of a handle.
    pub fn node(&self, e: ExprId) -> (r: ExprNode)
        ensures
            r == self@.node(e),
    {
        if e.0 < self.nodes.len() {
            self.nodes[e.0]
        } else {
            ExprNode::Undefined
        }
    }

    /// The handle of `n`, which is entered if it is new.
    pub fn intern(&mut self, n: ExprNode) -> (r: ExprId)
        requires
            old(self).wf(),
            canonical_node(n),
        ensures
            final(self).wf(),
            (final(self)@, r) == old(self)@.with(n),
    {
        let key: u64 = node_key(n);
        let count: usize = self.nodes.len();
        let known: bool = self.buckets.contains_key(&key);
        if known {
            let bucket = self.buckets.get(&key).unwrap();
            let mut j: usize = 0;
            while j < bucket.len()
                invariant
                    self.wf(),
                    *old(self) == *self,
                    count == self.nodes@.len(),
                    self.buckets@.contains_key(key),
                    *bucket == self.buckets@[key],
                    j <= bucket@.len(),
                    forall|q: int|
                        0 <= q < j ==> self.nodes@[(#[trigger] bucket@[q]) as int] != n,
                decreases bucket@.len() - j,
            {
                let i: usize = bucket[j];
                assert(self.buckets@[key]@[j as int] < self.nodes@.len());
                if self.nodes[i] == n {
                    assert(self@.nodes[i as int] == n);
                    assert(self@.nodes.index_of(n) == i);
                    return ExprId(i);
                }
                j = j + 1;
            }
            assert(!self.nodes@.contains(n)) by {
                if self.nodes@.contains(n) {
                    let i = self.nodes@.index_of(n);
                    assert(self.nodes@[i] == n);
                    let q = self.buckets@[key]@.index_of(i as usize);
                    assert(self.nodes@.len() == count);
                    assert(bucket@[q] == i as usize);
                    assert(self.nodes@[bucket@[q] as int] != n);
                }
            }
        } else {
            assert(!self.nodes@.contains(n));
        }
        let i: usize = count;
        self.nodes.push(n);
        let mut bucket: Vec<usize> = Vec::new();
        if known {
            bucket = self.buckets.remove(&key).unwrap();
        }
        let ghost before = bucket@;
        bucket.push(i);
        self.buckets.insert(key, bucket);
        proof {
            assert(self@.nodes =~= old(self)@.nodes.push(n));
            assert(self@.strings =~= old(self)@.strings);
            assert forall|q: int| 0 <= q < self.nodes@.len() implies self.buckets@.contains_key(
                node_key(#[trigger] self.nodes@[q]),
            ) && self.buckets@[node_key(self.nodes@[q])]@.contains(q as usize) by {
                if q < i {
                    assert(self.nodes@[q] == old(self).nodes@[q]);
                    if node_key(self.nodes@[q]) == key {
                        let w = before.index_of(q as usize);
                        assert(self.buckets@[key]@[w] == q as usize);
                    }
                } else {
                    assert(self.buckets@[key]@[before.len() as int] == i);
                }
            }
            assert forall|k: u64, j: int|
                self.buckets@.contains_key(k) && 0 <= j
                    < self.buckets@[k]@.len() implies #[trigger] self.buckets@[k]@[j]
                < self.nodes@.len() by {
                if k == key {
                    if j < before.len() {
                        assert(old(self).buckets@[k]@[j] < old(self).nodes@.len());
                    }
                } else {
                    assert(old(self).buckets@[k]@[j] < old(self).nodes@.len());
                }
            }
        }
        ExprId(i)
    }

    /// The handle of a string, which is entered if it is new.
    pub fn intern_string(&mut self, t: &String) -> (r: StringId)
        requires
            old(self).wf(),
        ensures
            final(self).wf(),
            (final(self)@, r) == old(self)@.with_string(t@),
    {
        let mut j: usize = 0;
        while j < self.strings.len()
            invariant
                self.wf(),
                *old(self) == *self,
                j <= self.strings@.len(),
                forall|q: int| 0 <= q < j ==> (#[trigger] self.strings@[q])@ != t@,
            decreases self.strings@.len() - j,
        {
            if self.strings[j] == *t {
                assert(self@.strings[j as int] == t@);
                assert(self@.strings.index_of(t@) == j);
                return StringId(j);
            }
            j = j + 1;
        }
        proof {
            assert forall|q: int| 0 <= q < self@.strings.len() implies self@.strings[q]
                != t@ by {
                assert(self.strings@[q]@ != t@);
            }
        }
        let i: usize = self.strings.len();
        self.strings.push(t.clone());
        assert(self@.strings =~= old(self)@.strings.push(t@));
        StringId(i)
    }

    /// The string of a handle, or an empty string beyond the last.
    pub fn string(&self, s: StringId) -> (r: String)
        ensures
            r@ == (if s.0 < self@.strings.len() {
                self@.strings[s.0 as int]
            } else {
                Seq::<char>::empty()
            }),
    {
        if s.0 < self.strings.len() {
            self.strings[s.0].clone()
        } else {
            proof {
                reveal_strlit("");
            }
            assert(""@ =~= Seq::<char>::empty());
            String::from_str("")
        }
    }

    /// The value of an integer constant.
    pub fn as_int_const(&self, e: ExprId) -> (r: Option<i64>)
        ensures
            r == self@.as_int(e),
    {
        match self.node(e) {
            ExprNode::IntConst(v) => Some(v),
            _ => None,
        }
    }

    /// The value of an integer constant.
    pub fn as_i64(&self, e: ExprId) -> (r: Option<i64>)
        ensures
            r == self@.as_int(e),
    {
        self.as_int_const(e)
    }

    /// The value of a boolean constant.
    pub fn as_bool(&self, e: ExprId) -> (r: Option<bool>)
        ensures
            r == self@.as_bool(e),
    {
        match self.node(e) {
            ExprNode::BoolConst(b) => Some(b),
            _ => None,
        }
    }

    pub fn is_undefined(&self, e: ExprId) -> (r: bool)
        ensures
            r == self@.is_undefined(e),
    {
        matches!(self.node(e), ExprNode::Undefined)
    }

    /// Whether the expression is a constant.
    pub fn is_concrete(&self, e: ExprId) -> (r: bool)
        ensures
            r == self@.is_concrete(e),
    {
        match self.node(e) {
            ExprNode::IntConst(_) | ExprNode::RealConst(_) => true,
            ExprNode::Infinity { .. } | ExprNode::BoolConst(_) => true,
            _ => false,
        }
    }

    pub fn undefined(&mut self) -> (r: ExprId)
        requires
            old(self).wf(),
        ensures
            final(self).wf(),
            (final(self)@, r) == old(self)@.undefined(),
    {
        self.intern(ExprNode::Undefined)
    }

    pub fn int_const(&mut self, v: i64) -> (r: ExprId)
        requires
            old(self).wf(),
        ensures
            final(self).wf(),
            (final(self)@, r) == old(self)@.int_const(v),
    {
        self.intern(ExprNode::IntConst(v))
    }

    pub fn bool_val(&mut self, b: bool) -> (r: ExprId)
        requires
            old(self).wf(),
        ensures
            final(self).wf(),
            (final(self)@, r) == old(self)@.bool_val(b),
    {
        self.intern(ExprNode::BoolConst(b))
    }

    pub fn real_const(&mut self, c: Coeff) -> (r: ExprId)
        requires
            old(self).wf(),
            c.canonical(),
        ensures
            final(self).wf(),
            (final(self)@, r) == old(self)@.real_const(c),
    {
        self.intern(ExprNode::RealConst(c))
    }

    pub fn param_symbol(&mut self, s: StringId) -> (r: ExprId)
        requires
            old(self).wf(),
        ensures
            final(self).wf(),
            (final(self)@, r) == old(self)@.with(ExprNode::ParamSymbol(s)),
    {
        self.intern(ExprNode::ParamSymbol(s))
    }

    pub fn input_element(&mut self, s: StringId, index: u64) -> (r: ExprId)
        requires
            old(self).wf(),
        ensures
            final(self).wf(),
            (final(self)@, r) == old(self)@.with(ExprNode::InputElement(s, index)),
    {
        self.intern(ExprNode::InputElement(s, index))
    }

    pub fn abs(&mut self, a: ExprId) -> (r: ExprId)
        requires
            old(self).wf(),
        ensures
            final(self).wf(),
            (final(self)@, r) == old(self)@.with(ExprNode::Abs(a)),
    {
        self.intern(ExprNode::Abs(a))
    }

    pub fn rcp(&mut self, a: ExprId) -> (r: ExprId)
        requires
            old(self).wf(),
        ensures
            final(self).wf(),
            (final(self)@, r) == old(self)@.with(ExprNode::Rcp(a)),
    {
        self.intern(ExprNode::Rcp(a))
    }

    pub fn sqrt(&mut self, a: ExprId) -> (r: ExprId)
        requires
            old(self).wf(),
        ensures
            final(self).wf(),
            (final(self)@, r) == old(self)@.with(ExprNode::Sqrt(a)),
    {
        self.intern(ExprNode::Sqrt(a))
    }

    pub fn exp(&mut self, a: ExprId) -> (r: ExprId)
        requires
            old(self).wf(),
        ensures
            final(self).wf(),
            (final(self)@, r) == old(self)@.with(ExprNode::Exp(a)),
    {
        self.intern(ExprNode::Exp(a))
    }

    pub fn bit_not(&mut self, a: ExprId) -> (r: ExprId)
        requires
            old(self).wf(),
        ensures
            final(self).wf(),
            (final(self)@, r) == old(self)@.with(ExprNode::BitNot(a)),
    {
        self.intern(ExprNode::BitNot(a))
    }

    pub fn not(&mut self, a: ExprId) -> (r: ExprId)
        requires
            old(self).wf(),
        ensures
            final(self).wf(),
            (final(self)@, r) == old(self)@.with(ExprNode::Not(a)),
    {
        self.intern(ExprNode::Not(a))
    }

    pub fn div(&mut self, a: ExprId, b: ExprId) -> (r: ExprId)
        requires
            old(self).wf(),
        ensures
            final(self).wf(),
            (final(self)@, r) == old(self)@.with(ExprNode::Div(a, b)),
    {
        self.intern(ExprNode::Div(a, b))
    }

    pub fn rem(&mut self, a: ExprId, b: ExprId) -> (r: ExprId)
        requires
            old(self).wf(),
        ensures
            final(self).wf(),
            (final(self)@, r) == old(self)@.with(ExprNode::Rem(a, b)),
    {
        self.intern(ExprNode::Rem(a, b))
    }

    pub fn bit_and(&mut self, a: ExprId, b: ExprId) -> (r: ExprId)
        requires
            old(self).wf(),
        ensures
            final(self).wf(),
            (final(self)@, r) == old(self)@.with(ExprNode::BitAnd(a, b)),
    {
        self.intern(ExprNode::BitAnd(a, b))
    }

    pub fn bit_or(&mut self, a: ExprId, b: ExprId) -> (r: ExprId)
        requires
            old(self).wf(),
        ensures
            final(self).wf(),
            (final(self)@, r) == old(self)@.with(ExprNode::BitOr(a, b)),
    {
        self.intern(ExprNode::BitOr(a, b))
    }

    pub fn bit_xor(&mut self, a: ExprId, b: ExprId) -> (r: ExprId)
        requires
            old(self).wf(),
        ensures
            final(self).wf(),
            (final(self)@, r) == old(self)@.with(ExprNode::BitXor(a, b)),
    {
        self.intern(ExprNode::BitXor(a, b))
    }

    pub fn shl(&mut self, a: ExprId, b: ExprId) -> (r: ExprId)
        requires
            old(self).wf(),
        ensures
            final(self).wf(),
            (final(self)@, r) == old(self)@.with(ExprNode::Shl(a, b)),
    {
        self.intern(ExprNode::Shl(a, b))
    }

    pub fn and(&mut self, a: ExprId, b: ExprId) -> (r: ExprId)
        requires
            old(self).wf(),
        ensures
            final(self).wf(),
            (final(self)@, r) == old(self)@.with(ExprNode::And(a, b)),
    {
        self.intern(ExprNode::And(a, b))
    }

    pub fn or(&mut self, a: ExprId, b: ExprId) -> (r: ExprId)
        requires
            old(self).wf(),
        ensures
            final(self).wf(),
            (final(self)@, r) == old(self)@.with(ExprNode::Or(a, b)),
    {
        self.intern(ExprNode::Or(a, b))
    }

    pub fn eq(&mut self, a: ExprId, b: ExprId) -> (r: ExprId)
        requires
            old(self).wf(),
        ensures
            final(self).wf(),
            (final(self)@, r) == old(self)@.with(ExprNode::Eq(a, b)),
    {
        self.intern(ExprNode::Eq(a, b))
    }

    pub fn ne(&mut self, a: ExprId, b: ExprId) -> (r: ExprId)
        requires
            old(self).wf(),
        ensures
            final(self).wf(),
            (final(self)@, r) == old(self)@.with(ExprNode::Ne(a, b)),
    {
        self.intern(ExprNode::Ne(a, b))
    }

    pub fn lt(&mut self, a: ExprId, b: ExprId) -> (r: ExprId)
        requires
            old(self).wf(),
        ensures
            final(self).wf(),
            (final(self)@, r) == old(self)@.with(ExprNode::Lt(a, b)),
    {
        self.intern(ExprNode::Lt(a, b))
    }

    pub fn le(&mut self, a: ExprId, b: ExprId) -> (r: ExprId)
        requires
            old(self).wf(),
        ensures
            final(self).wf(),
            (final(self)@, r) == old(self)@.with(ExprNode::Le(a, b)),
    {
        self.intern(ExprNode::Le(a, b))
    }

    pub fn gt(&mut self, a: ExprId, b: ExprId) -> (r: ExprId)
        requires
            old(self).wf(),
        ensures
            final(self).wf(),
            (final(self)@, r) == old(self)@.with(ExprNode::Gt(a, b)),
    {
        self.intern(ExprNode::Gt(a, b))
    }

    pub fn ge(&mut self, a: ExprId, b: ExprId) -> (r: ExprId)
        requires
            old(self).wf(),
        ensures
            final(self).wf(),
            (final(self)@, r) == old(self)@.with(ExprNode::Ge(a, b)),
    {
        self.intern(ExprNode::Ge(a, b))
    }

    pub fn select(&mut self, c: ExprId, a: ExprId, b: ExprId) -> (r: ExprId)
        requires
            old(self).wf(),
        ensures
            final(self).wf(),
            (final(self)@, r) == old(self)@.with(ExprNode::Select(c, a, b)),
    {
        self.intern(ExprNode::Select(c, a, b))
    }

    /// The constant of a decoded float.
    pub fn float(&mut self, f: FloatValue) -> (r: ExprId)
        requires
            old(self).wf(),
        ensures
            final(self).wf(),
            (final(self)@, r) == old(self)@.float(f),
    {
        match f {
            FloatValue::Infinity { negative } => self.intern(ExprNode::Infinity { negative }),
            FloatValue::Finite { negative, mantissa, exp2 } => {
                let n: i128 = if negative {
                    -(mantissa as i128)
                } else {
                    mantissa as i128
                };
                match Coeff::reduced(n, 1, exp2) {
                    Ok(c) => {
                        assert(is_float_coeff(f, c));
                        proof {
                            lemma_float_node(f, c);
                        }
                        self.intern(ExprNode::RealConst(c))
                    },
                    Err(_) => self.intern(ExprNode::Undefined),
                }
            },
        }
    }

    /// An integer read as a real number.
    pub fn to_float(&mut self, a: ExprId) -> (r: ExprId)
        requires
            old(self).wf(),
        ensures
            final(self).wf(),
            (final(self)@, r) == old(self)@.to_float(a),
    {
        match self.node(a) {
            ExprNode::IntConst(v) => {
                let c = Coeff::from_int(v);
                proof {
                    let d = int_coeff(v);
                    lemma_same_denoted(c, d, v as int, 1, 0);
                    canonical_form_is_unique(c, d);
                }
                self.intern(ExprNode::RealConst(c))
            },
            _ => self.intern(ExprNode::ToFloat(a)),
        }
    }

    pub fn add(&mut self, a: ExprId, b: ExprId) -> (r: ExprId)
        requires
            old(self).wf(),
        ensures
            final(self).wf(),
            (final(self)@, r) == old(self)@.plus(a, b),
    {
        match (self.node(a), self.node(b)) {
            (ExprNode::IntConst(x), ExprNode::IntConst(y)) => {
                let v: i128 = x as i128 + y as i128;
                if i64::MIN as i128 <= v && v <= i64::MAX as i128 {
                    return self.intern(ExprNode::IntConst(v as i64));
                }
            },
            (ExprNode::RealConst(x), ExprNode::RealConst(y)) => {
                proof {
                    self.lemma_constant(a);
                    self.lemma_constant(b);
                }
                let folded = sum_of(x, y);
                if let Some(c) = folded {
                    return self.intern(ExprNode::RealConst(c));
                }
            },
            _ => {},
        }
        self.intern(ExprNode::Add(a, b))
    }

    pub fn mul(&mut self, a: ExprId, b: ExprId) -> (r: ExprId)
        requires
            old(self).wf(),
        ensures
            final(self).wf(),
            (final(self)@, r) == old(self)@.times(a, b),
    {
        match (self.node(a), self.node(b)) {
            (ExprNode::IntConst(x), ExprNode::IntConst(y)) => {
                assert(-0x4000_0000_0000_0000_0000_0000_0000_0000 <= x * y
                    <= 0x4000_0000_0000_0000_0000_0000_0000_0000) by (nonlinear_arith)
                    requires
                        -0x8000_0000_0000_0000 <= x <= 0x7fff_ffff_ffff_ffff,
                        -0x8000_0000_0000_0000 <= y <= 0x7fff_ffff_ffff_ffff,
                ;
                let v: i128 = x as i128 * y as i128;
                if i64::MIN as i128 <= v && v <= i64::MAX as i128 {
                    return self.intern(ExprNode::IntConst(v as i64));
                }
            },
            (ExprNode::RealConst(x), ExprNode::RealConst(y)) => {
                proof {
                    self.lemma_constant(a);
                    self.lemma_constant(b);
                }
                let folded = product_of(x, y);
                if let Some(c) = folded {
                    return self.intern(ExprNode::RealConst(c));
                }
            },
            _ => {},
        }
        self.intern(ExprNode::Mul(a, b))
    }

    pub fn sub(&mut self, a: ExprId, b: ExprId) -> (r: ExprId)
        requires
            old(self).wf(),
        ensures
            final(self).wf(),
            (final(self)@, r) == old(self)@.minus(a, b),
    {
        match (self.node(a), self.node(b)) {
            (ExprNode::IntConst(x), ExprNode::IntConst(y)) => {
                let v: i128 = x as i128 - y as i128;
                if i64::MIN as i128 <= v && v <= i64::MAX as i128 {
                    return self.intern(ExprNode::IntConst(v as i64));
                }
            },
            _ => {},
        }
        self.intern(ExprNode::Sub(a, b))
    }

    pub fn neg(&mut self, a: ExprId) -> (r: ExprId)
        requires
            old(self).wf(),
        ensures
            final(self).wf(),
            (final(self)@, r) == old(self)@.negated(a),
    {
        match self.node(a) {
            ExprNode::IntConst(x) => {
                if x != i64::MIN {
                    return self.intern(ExprNode::IntConst(-x));
                }
            },
            ExprNode::RealConst(c) => {
                proof {
                    self.lemma_constant(a);
                }
                return self.intern(ExprNode::RealConst(c.neg()));
            },
            ExprNode::Infinity { negative } => {
                return self.intern(ExprNode::Infinity { negative: !negative });
            },
            _ => {},
        }
        self.intern(ExprNode::Neg(a))
    }

    pub fn min(&mut self, a: ExprId, b: ExprId) -> (r: ExprId)
        requires
            old(self).wf(),
        ensures
            final(self).wf(),
            (final(self)@, r) == old(self)@.minimum(a, b),
    {
        match (self.node(a), self.node(b)) {
            (ExprNode::IntConst(x), ExprNode::IntConst(y)) => {
                return if y < x {
                    b
                } else {
                    a
                };
            },
            (ExprNode::RealConst(x), ExprNode::RealConst(y)) => {
                proof {
                    self.lemma_constant(a);
                    self.lemma_constant(b);
                }
                let less = less_than(y, x);
                if let Some(l) = less {
                    return if l {
                        b
                    } else {
                        a
                    };
                }
            },
            _ => {},
        }
        self.intern(ExprNode::Min(a, b))
    }

    pub fn max(&mut self, a: ExprId, b: ExprId) -> (r: ExprId)
        requires
            old(self).wf(),
        ensures
            final(self).wf(),
            (final(self)@, r) == old(self)@.maximum(a, b),
    {
        match (self.node(a), self.node(b)) {
            (ExprNode::IntConst(x), ExprNode::IntConst(y)) => {
                return if x < y {
                    b
                } else {
                    a
                };
            },
            (ExprNode::RealConst(x), ExprNode::RealConst(y)) => {
                proof {
                    self.lemma_constant(a);
                    self.lemma_constant(b);
                }
                let less = less_than(x, y);
                if let Some(l) = less {
                    return if l {
                        b
                    } else {
                        a
                    };
                }
            },
            _ => {},
        }
        self.intern(ExprNode::Max(a, b))
    }

    pub fn fma(&mut self, a: ExprId, b: ExprId, c: ExprId) -> (r: ExprId)
        requires
            old(self).wf(),
        ensures
            final(self).wf(),
            (final(self)@, r) == old(self)@.fused(a, b, c),
    {
        match (self.node(a), self.node(b), self.node(c)) {
            (ExprNode::RealConst(x), ExprNode::RealConst(y), ExprNode::RealConst(z)) => {
                proof {
                    self.lemma_constant(a);
                    self.lemma_constant(b);
                    self.lemma_constant(c);
                }
                let product = product_of(x, y);
                if let Some(p) = product {
                    let sum = sum_of(p, z);
                    if let Some(s) = sum {
                        return self.intern(ExprNode::RealConst(s));
                    }
                }
            },
            _ => {},
        }
        self.intern(ExprNode::Fma(a, b, c))
    }

    pub fn shr(&mut self, a: ExprId, b: ExprId) -> (r: ExprId)
        requires
            old(self).wf(),
        ensures
            final(self).wf(),
            (final(self)@, r) == old(self)@.shifted_right(a, b, true),
    {
        match (self.node(a), self.node(b)) {
            (ExprNode::IntConst(x), ExprNode::IntConst(y)) => {
                if 0 <= y && y < 64 {
                    return self.intern(ExprNode::IntConst(x >> y));
                }
            },
            _ => {},
        }
        self.intern(ExprNode::Shr(a, b))
    }

    pub fn lshr(&mut self, a: ExprId, b: ExprId) -> (r: ExprId)
        requires
            old(self).wf(),
        ensures
            final(self).wf(),
            (final(self)@, r) == old(self)@.shifted_right(a, b, false),
    {
        match (self.node(a), self.node(b)) {
            (ExprNode::IntConst(x), ExprNode::IntConst(y)) => {
                if 0 <= y && y < 64 {
                    return self.intern(ExprNode::IntConst(((x as u64) >> (y as u64)) as i64));
                }
            },
            _ => {},
        }
        self.intern(ExprNode::Lshr(a, b))
    }

    /// How often each node is an operand, up to the maximum of the count.
    pub fn parent_counts(&self) -> (r: Vec<u32>)
        requires
            self@.ordered(),
        ensures
            r@.len() == self@.nodes.len(),
            forall|e: int|
                0 <= e < r@.len() ==> #[trigger] r@[e] == capped(
                    uses(self@.nodes, self@.nodes.len() as int, e),
                ),
    {
        let n: usize = self.nodes.len();
        let mut counts: Vec<u32> = Vec::new();
        let mut k: usize = 0;
        while k < n
            invariant
                k <= n,
                counts@.len() == k,
                forall|e: int| 0 <= e < k ==> #[trigger] counts@[e] == 0,
            decreases n - k,
        {
            counts.push(0);
            k = k + 1;
        }
        let mut i: usize = 0;
        while i < n
            invariant
                i <= n,
                n == self@.nodes.len(),
                n == self.nodes@.len(),
                self@.ordered(),
                counts@.len() == n,
                forall|e: int|
                    0 <= e < n ==> #[trigger] counts@[e] == capped(
                        uses(self@.nodes, i as int, e),
                    ),
            decreases n - i,
        {
            let list = self.nodes[i].child_list();
            let mut j: usize = 0;
            assert(self@.operands_before(i as int));
            while j < list.len()
                invariant
                    i < n,
                    n == self@.nodes.len(),
                    list@ == children(self@.nodes[i as int]),
                    self@.operands_before(i as int),
                    j <= list@.len(),
                    counts@.len() == n,
                    forall|e: int|
                        0 <= e < n ==> #[trigger] counts@[e] == capped(
                            uses(self@.nodes, i as int, e) + occurrences(list@, j as int, e),
                        ),
                decreases list@.len() - j,
            {
                let c: usize = list[j].0;
                assert(children(self@.nodes[i as int])[j as int].0 < i);
                if counts[c] < u32::MAX {
                    let more: u32 = counts[c] + 1;
                    counts.set(c, more);
                }
                j = j + 1;
            }
            i = i + 1;
        }
        counts
    }

    /// Whether every node's operands come before it.
    pub fn validate(&self) -> (r: bool)
        ensures
            r == self@.ordered(),
    {
        let mut i: usize = 0;
        while i < self.nodes.len()
            invariant
                i <= self.nodes@.len(),
                forall|q: int| 0 <= q < i ==> #[trigger] self@.operands_before(q),
            decreases self.nodes@.len() - i,
        {
            let list = self.nodes[i].child_list();
            let mut j: usize = 0;
            while j < list.len()
                invariant
                    i < self.nodes@.len(),
                    list@ == children(self.nodes@[i as int]),
                    j <= list@.len(),
                    forall|q: int| 0 <= q < j ==> (#[trigger] list@[q]).0 < i,
                decreases list@.len() - j,
            {
                if list[j].0 >= i {
                    assert(!self@.operands_before(i as int)) by {
                        assert(children(self@.nodes[i as int])[j as int].0 >= i);
                    }
                    return false;
                }
                j = j + 1;
            }
            assert(self@.operands_before(i as int));
            i = i + 1;
        }
        true
    }

    pub proof fn lemma_constant(&self, e: ExprId)
        requires
            self.wf(),
        ensures
            canonical_node(self@.node(e)),
    {
    }
}

/// The exact sum, where it can be formed.
pub fn sum_of(a: Coeff, b: Coeff) -> (r: Option<Coeff>)
    requires
        a.canonical(),
        b.canonical(),
    ensures
        r == coeff_sum(a, b),
        r matches Some(c) ==> c.canonical(),
{
    match a.add(&b) {
        Ok(c) => {
            proof {
                lemma_sum_is(a, b, c);
            }
            Some(c)
        },
        Err(_) => None,
    }
}

/// The exact product, where it can be formed.
pub fn product_of(a: Coeff, b: Coeff) -> (r: Option<Coeff>)
    requires
        a.canonical(),
        b.canonical(),
    ensures
        r == coeff_product(a, b),
        r matches Some(c) ==> c.canonical(),
{
    match a.mul(&b) {
        Ok(c) => {
            proof {
                lemma_product_is(a, b, c);
            }
            Some(c)
        },
        Err(_) => None,
    }
}

/// Whether `a < b`, where the difference can be formed.
fn less_than(a: Coeff, b: Coeff) -> (r: Option<bool>)
    requires
        a.canonical(),
        b.canonical(),
    ensures
        r == coeff_less(a, b),
{
    let d = sum_of(a, b.neg());
    match d {
        Some(c) => Some(c.num < 0),
        None => None,
    }
}

pub proof fn lemma_sum_is(a: Coeff, b: Coeff, c: Coeff)
    requires
        a.canonical(),
        b.canonical(),
        a.is_sum(b, Ok(c)),
    ensures
        coeff_sum(a, b) == Some(c),
{
    let d = choose|d: Coeff| a.is_sum(b, Ok(d));
    let e = a.common_exp(b);
    assert(a.den * b.den != 0) by (nonlinear_arith)
        requires
            a.den > 0,
            b.den > 0,
    ;
    lemma_same_denoted(c, d, a.num_at(e) * b.den + b.num_at(e) * a.den, a.den * b.den, e);
    canonical_form_is_unique(c, d);
}

pub proof fn lemma_product_is(a: Coeff, b: Coeff, c: Coeff)
    requires
        a.canonical(),
        b.canonical(),
        a.is_product(b, Ok(c)),
    ensures
        coeff_product(a, b) == Some(c),
{
    let d = choose|d: Coeff| a.is_product(b, Ok(d));
    assert(a.den * b.den != 0) by (nonlinear_arith)
        requires
            a.den > 0,
            b.den > 0,
    ;
    lemma_same_denoted(c, d, a.num * b.num, a.den * b.den, a.exp2 + b.exp2);
    canonical_form_is_unique(c, d);
}

proof fn lemma_float_node(f: FloatValue, c: Coeff)
    requires
        is_float_coeff(f, c),
        f matches FloatValue::Finite { exp2, .. } ==> reducible(
            float_numerator(f),
            1,
            exp2 as int,
        ),
    ensures
        float_node(f) == ExprNode::RealConst(c),
{
    let d = choose|d: Coeff| is_float_coeff(f, d);
    match f {
        FloatValue::Finite { exp2, .. } => {
            lemma_same_denoted(c, d, float_numerator(f), 1, exp2 as int);
            canonical_form_is_unique(c, d);
        },
        _ => {},
    }
}

// ---------------------------------------------------------------------------
// Laws
// ---------------------------------------------------------------------------

/// Interning the same node twice gives one handle and leaves the arena
/// unchanged the second time.
pub proof fn interning_is_idempotent(s: Exprs, n: ExprNode)
    requires
        s.wf(),
        s.nodes.len() < usize::MAX,
    ensures
        ({
            let (s1, e) = s.with(n);
            s1.with(n) == (s1, e) && s1.node(e) == n
        }),
{
    let (s1, e) = s.with(n);
    if s.nodes.contains(n) {
        assert(s.nodes.index_of(n) < s.nodes.len());
    } else {
        assert(s1.nodes[s.nodes.len() as int] == n);
        assert(s1.nodes.index_of(n) == s.nodes.len()) by {
            let i = s1.nodes.index_of(n);
            assert(s1.nodes[i] == n);
            if i < s.nodes.len() {
                assert(s.nodes[i] == n);
            }
        }
    }
}

/// Interning never changes what an existing handle stands for.
pub proof fn interning_keeps_nodes(s: Exprs, n: ExprNode, e: ExprId)
    requires
        s.wf(),
        e.0 < s.nodes.len(),
    ensures
        s.with(n).0.node(e) == s.node(e),
{
}

} // verus!
