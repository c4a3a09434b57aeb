//! Operations that move or combine the lanes of packed values, and bit-level
//! operations on concrete words.

use vstd::prelude::*;

use crate::eval::ThreadId;
use crate::eval::arith::{
    ByteFormat, Step, apply_clamp, binop_spec, byte_spec, clamp_spec, decode_fp8_byte, eval_binop,
    ok, unsupported,
};
use crate::eval::error::{Detail, EvalError};
use crate::eval::int_ops::{low, mask_to};
use crate::eval::machine::kind_mismatch;
use crate::eval::value::Value;
use crate::lowered::{BinOp, Clamp, InstrId};
use crate::symbolic::ExprId;
use crate::symbolic::arena::{ExprArena, ExprNode, Exprs};
use crate::types::ScalarType;

verus! {

// ---------------------------------------------------------------------------
// 64-bit words of two lanes
// ---------------------------------------------------------------------------

/// The two 32-bit lanes of a 64-bit value: those of a pair, or the halves of
/// a concrete integer.
pub open spec fn word_lanes_spec(s: Exprs, pc: InstrId, v: Value) -> Step<(ExprId, ExprId)> {
    match v {
        Value::Pair(lo, hi) => (s, Ok((lo, hi))),
        Value::Scalar(e) => match s.as_int(e) {
            Some(c) => {
                let (s1, lo) = s.int_const(low(c as int, 32) as i64);
                let (s2, hi) = s1.int_const(low((c >> 32u64) as int, 32) as i64);
                (s2, Ok((lo, hi)))
            },
            None => (
                s,
                Err(
                    unsupported(pc, "symbolic 64-bit scalar combined bitwise with a packed pair"),
                ),
            ),
        },
        Value::Quad(_, _, _, _) => (
            s,
            Err(unsupported(pc, "packed byte-quad combined bitwise with a packed pair")),
        ),
        Value::Mbarrier(_) => (
            s,
            Err(unsupported(pc, "mbarrier handle combined bitwise with a packed pair")),
        ),
    }
}

fn word_lanes(arena: &mut ExprArena, pc: InstrId, v: Value) -> (r: Result<
    (ExprId, ExprId),
    EvalError,
>)
    requires
        old(arena).wf(),
    ensures
        final(arena).wf(),
        (final(arena)@, r) == word_lanes_spec(old(arena)@, pc, v),
{
    match v {
        Value::Pair(lo, hi) => Ok((lo, hi)),
        Value::Scalar(e) => {
            match arena.as_int_const(e) {
                Some(c) => {
                    proof {
                        vstd::arithmetic::power2::lemma2_to64();
                    }
                    let x: u64 = mask_to(c, 32);
                    let y: u64 = mask_to(c >> 32u64, 32);
                    let lo = arena.int_const(x as i64);
                    let hi = arena.int_const(y as i64);
                    Ok((lo, hi))
                },
                None => Err(
                    unsupported(pc, "symbolic 64-bit scalar combined bitwise with a packed pair"),
                ),
            }
        },
        Value::Quad(_, _, _, _) => Err(
            unsupported(pc, "packed byte-quad combined bitwise with a packed pair"),
        ),
        Value::Mbarrier(_) => Err(
            unsupported(pc, "mbarrier handle combined bitwise with a packed pair"),
        ),
    }
}

/// `or` of two lanes: a zero lane gives way to the other one.
pub open spec fn merged_spec(s: Exprs, t: ThreadId, pc: InstrId, x: ExprId, y: ExprId) -> Step<
    ExprId,
> {
    if s.as_int(y) == Some(0i64) {
        (s, Ok(x))
    } else if s.as_int(x) == Some(0i64) {
        (s, Ok(y))
    } else if s.as_int(x) is Some && s.as_int(y) is Some {
        binop_spec(s, t, pc, BinOp::Or, ScalarType::U32, x, y)
    } else {
        (
            s,
            Err(unsupported(pc, "or.b64 of two packed pairs with overlapping symbolic lanes")),
        )
    }
}

fn merge(arena: &mut ExprArena, t: ThreadId, pc: InstrId, x: ExprId, y: ExprId) -> (r: Result<
    ExprId,
    EvalError,
>)
    requires
        old(arena).wf(),
    ensures
        final(arena).wf(),
        (final(arena)@, r) == merged_spec(old(arena)@, t, pc, x, y),
{
    match (arena.as_int_const(x), arena.as_int_const(y)) {
        (Some(a), Some(b)) => {
            if b == 0 {
                Ok(x)
            } else if a == 0 {
                Ok(y)
            } else {
                eval_binop(arena, t, pc, BinOp::Or, ScalarType::U32, x, y)
            }
        },
        (None, Some(b)) => {
            if b == 0 {
                Ok(x)
            } else {
                Err(unsupported(pc, "or.b64 of two packed pairs with overlapping symbolic lanes"))
            }
        },
        (Some(a), None) => {
            if a == 0 {
                Ok(y)
            } else {
                Err(unsupported(pc, "or.b64 of two packed pairs with overlapping symbolic lanes"))
            }
        },
        (None, None) => Err(
            unsupported(pc, "or.b64 of two packed pairs with overlapping symbolic lanes"),
        ),
    }
}

/// `and` of two lanes: an all-ones lane keeps the other one, a zero lane
/// clears it.
pub open spec fn kept_spec(s: Exprs, t: ThreadId, pc: InstrId, x: ExprId, y: ExprId) -> Step<
    ExprId,
> {
    if s.as_int(y) == Some(0xFFFF_FFFFi64) {
        (s, Ok(x))
    } else if s.as_int(x) == Some(0xFFFF_FFFFi64) {
        (s, Ok(y))
    } else if s.as_int(x) == Some(0i64) || s.as_int(y) == Some(0i64) {
        ok(s.int_const(0))
    } else if s.as_int(x) is Some && s.as_int(y) is Some {
        binop_spec(s, t, pc, BinOp::And, ScalarType::U32, x, y)
    } else {
        (s, Err(unsupported(pc, "and.b64 masking inside a packed pair's lane")))
    }
}

fn keep(arena: &mut ExprArena, t: ThreadId, pc: InstrId, x: ExprId, y: ExprId) -> (r: Result<
    ExprId,
    EvalError,
>)
    requires
        old(arena).wf(),
    ensures
        final(arena).wf(),
        (final(arena)@, r) == kept_spec(old(arena)@, t, pc, x, y),
{
    let a = arena.as_int_const(x);
    let b = arena.as_int_const(y);
    if let Some(c) = b {
        if c == 0xFFFF_FFFF {
            return Ok(x);
        }
    }
    if let Some(c) = a {
        if c == 0xFFFF_FFFF {
            return Ok(y);
        }
        if c == 0 {
            return Ok(arena.int_const(0));
        }
    }
    if let Some(c) = b {
        if c == 0 {
            return Ok(arena.int_const(0));
        }
    }
    match (a, b) {
        (Some(_), Some(_)) => eval_binop(arena, t, pc, BinOp::And, ScalarType::U32, x, y),
        _ => Err(unsupported(pc, "and.b64 masking inside a packed pair's lane")),
    }
}

/// Whether the operation may act on the lanes of 64-bit words.
pub open spec fn spec_lane_op(op: BinOp, ty: ScalarType) -> bool {
    ty.bits() == 64 && (op == BinOp::Shl || op == BinOp::Shr || op == BinOp::And || op
        == BinOp::Or)
}

/// Whether the operation may act on the lanes of 64-bit words.
#[verifier::when_used_as_spec(spec_lane_op)]
pub fn lane_op(op: BinOp, ty: ScalarType) -> (r: bool)
    ensures
        r == spec_lane_op(op, ty),
{
    ty.bits() == 64 && (op == BinOp::Shl || op == BinOp::Shr || op == BinOp::And || op
        == BinOp::Or)
}

/// Both lanes combined.
pub open spec fn both_lanes(
    s: Exprs,
    t: ThreadId,
    pc: InstrId,
    op: BinOp,
    a: (ExprId, ExprId),
    b: (ExprId, ExprId),
) -> Step<Value> {
    let first = if op == BinOp::Or {
        merged_spec(s, t, pc, a.0, b.0)
    } else {
        kept_spec(s, t, pc, a.0, b.0)
    };
    match first {
        (s1, Err(e)) => (s1, Err(e)),
        (s1, Ok(lo)) => {
            let second = if op == BinOp::Or {
                merged_spec(s1, t, pc, a.1, b.1)
            } else {
                kept_spec(s1, t, pc, a.1, b.1)
            };
            match second {
                (s2, Err(e)) => (s2, Err(e)),
                (s2, Ok(hi)) => (s2, Ok(Value::Pair(lo, hi))),
            }
        },
    }
}

/// A 64-bit bitwise operation of which an operand is a pair, lane by lane:
/// a shift by 32 moves a lane, `or` merges lanes against zero lanes, `and`
/// keeps or clears whole lanes.
pub open spec fn pair_bitwise_spec(
    s: Exprs,
    t: ThreadId,
    pc: InstrId,
    op: BinOp,
    ty: ScalarType,
    a: Value,
    b: Value,
) -> Step<Value> {
    if op == BinOp::Shl || op == BinOp::Shr {
        match (a, b) {
            (Value::Pair(lo, hi), Value::Scalar(amount)) => if s.as_int(amount) != Some(32i64)
                || ty.is_signed_int() {
                (s, Err(EvalError::Unsupported { pc, what: Detail::PairShift { op, ty } }))
            } else {
                let (s1, zero) = s.int_const(0);
                (
                    s1,
                    Ok(
                        if op == BinOp::Shl {
                            Value::Pair(zero, lo)
                        } else {
                            Value::Pair(hi, zero)
                        },
                    ),
                )
            },
            (Value::Pair(_, _), _) => (
                s,
                Err(unsupported(pc, "packed pair shifted by a packed pair")),
            ),
            _ => (s, Err(unsupported(pc, "shift amount given as a packed pair"))),
        }
    } else {
        match word_lanes_spec(s, pc, a) {
            (s1, Err(e)) => (s1, Err(e)),
            (s1, Ok(x)) => match word_lanes_spec(s1, pc, b) {
                (s2, Err(e)) => (s2, Err(e)),
                (s2, Ok(y)) => both_lanes(s2, t, pc, op, x, y),
            },
        }
    }
}

/// Evaluates a 64-bit bitwise operation of which an operand is a pair.
pub fn pair_bitwise_binop(
    arena: &mut ExprArena,
    t: ThreadId,
    pc: InstrId,
    op: BinOp,
    ty: ScalarType,
    a: Value,
    b: Value,
) -> (r: Result<Value, EvalError>)
    requires
        old(arena).wf(),
    ensures
        final(arena).wf(),
        (final(arena)@, r) == pair_bitwise_spec(old(arena)@, t, pc, op, ty, a, b),
{
    if op == BinOp::Shl || op == BinOp::Shr {
        return match (a, b) {
            (Value::Pair(lo, hi), Value::Scalar(amount)) => {
                let by_lane: bool = match arena.as_int_const(amount) {
                    Some(c) => c == 32,
                    None => false,
                };
                if !by_lane || ty.is_signed_int() {
                    return Err(EvalError::Unsupported { pc, what: Detail::PairShift { op, ty } });
                }
                let zero = arena.int_const(0);
                if op == BinOp::Shl {
                    Ok(Value::Pair(zero, lo))
                } else {
                    Ok(Value::Pair(hi, zero))
                }
            },
            (Value::Pair(_, _), _) => Err(unsupported(pc, "packed pair shifted by a packed pair")),
            _ => Err(unsupported(pc, "shift amount given as a packed pair")),
        };
    }
    let x = match word_lanes(arena, pc, a) {
        Err(e) => {
            return Err(e);
        },
        Ok(x) => x,
    };
    let y = match word_lanes(arena, pc, b) {
        Err(e) => {
            return Err(e);
        },
        Ok(y) => y,
    };
    let lo = if op == BinOp::Or {
        merge(arena, t, pc, x.0, y.0)
    } else {
        keep(arena, t, pc, x.0, y.0)
    };
    match lo {
        Err(e) => Err(e),
        Ok(lo) => {
            let hi = if op == BinOp::Or {
                merge(arena, t, pc, x.1, y.1)
            } else {
                keep(arena, t, pc, x.1, y.1)
            };
            match hi {
                Err(e) => Err(e),
                Ok(hi) => Ok(Value::Pair(lo, hi)),
            }
        },
    }
}

// ---------------------------------------------------------------------------
// Words of four byte lanes
// ---------------------------------------------------------------------------

/// One byte lane under a byte of an XOR mask: the sign bit negates.
pub open spec fn xor_lane_spec(s: Exprs, pc: InstrId, mask: u32, lane: ExprId, byte: u32) -> Step<
    ExprId,
> {
    if byte == 0 {
        (s, Ok(lane))
    } else if byte == 0x80 {
        ok(s.negated(lane))
    } else {
        (s, Err(EvalError::Unsupported { pc, what: Detail::QuadXorMask { mask } }))
    }
}

fn xor_lane(arena: &mut ExprArena, pc: InstrId, mask: u32, lane: ExprId, byte: u32) -> (r: Result<
    ExprId,
    EvalError,
>)
    requires
        old(arena).wf(),
    ensures
        final(arena).wf(),
        (final(arena)@, r) == xor_lane_spec(old(arena)@, pc, mask, lane, byte),
{
    if byte == 0 {
        Ok(lane)
    } else if byte == 0x80 {
        Ok(arena.neg(lane))
    } else {
        Err(EvalError::Unsupported { pc, what: Detail::QuadXorMask { mask } })
    }
}

/// Four byte lanes under an XOR mask.
pub open spec fn xor_lanes_spec(
    s: Exprs,
    pc: InstrId,
    mask: u32,
    l: (ExprId, ExprId, ExprId, ExprId),
) -> Step<Value> {
    match xor_lane_spec(s, pc, mask, l.0, mask % 256) {
        (s1, Err(e)) => (s1, Err(e)),
        (s1, Ok(b0)) => match xor_lane_spec(s1, pc, mask, l.1, mask / 256 % 256) {
            (s2, Err(e)) => (s2, Err(e)),
            (s2, Ok(b1)) => match xor_lane_spec(s2, pc, mask, l.2, mask / 65536 % 256) {
                (s3, Err(e)) => (s3, Err(e)),
                (s3, Ok(b2)) => match xor_lane_spec(s3, pc, mask, l.3, mask / 16777216 % 256) {
                    (s4, Err(e)) => (s4, Err(e)),
                    (s4, Ok(b3)) => (s4, Ok(Value::Quad(b0, b1, b2, b3))),
                },
            },
        },
    }
}

fn xor_lanes(
    arena: &mut ExprArena,
    pc: InstrId,
    mask: u32,
    l: (ExprId, ExprId, ExprId, ExprId),
) -> (r:
    Result<Value, EvalError>)
    requires
        old(arena).wf(),
    ensures
        final(arena).wf(),
        (final(arena)@, r) == xor_lanes_spec(old(arena)@, pc, mask, l),
{
    let b0 = match xor_lane(arena, pc, mask, l.0, mask % 256) {
        Err(e) => {
            return Err(e);
        },
        Ok(b) => b,
    };
    let b1 = match xor_lane(arena, pc, mask, l.1, mask / 256 % 256) {
        Err(e) => {
            return Err(e);
        },
        Ok(b) => b,
    };
    let b2 = match xor_lane(arena, pc, mask, l.2, mask / 65536 % 256) {
        Err(e) => {
            return Err(e);
        },
        Ok(b) => b,
    };
    match xor_lane(arena, pc, mask, l.3, mask / 16777216 % 256) {
        Err(e) => Err(e),
        Ok(b3) => Ok(Value::Quad(b0, b1, b2, b3)),
    }
}

/// XOR of a byte quad with a mask that only flips sign bits. `None` where
/// neither operand is a quad.
pub open spec fn quad_xor_spec(s: Exprs, t: ThreadId, pc: InstrId, a: Value, b: Value) -> Step<
    Option<Value>,
> {
    let masked = match (a, b) {
        (Value::Quad(b0, b1, b2, b3), Value::Scalar(mask)) => Some(((b0, b1, b2, b3), mask)),
        (Value::Scalar(mask), Value::Quad(b0, b1, b2, b3)) => Some(((b0, b1, b2, b3), mask)),
        _ => None,
    };
    if a is Quad && b is Quad {
        (s, Err(unsupported(pc, "xor.b32 of two packed byte quads")))
    } else {
        match masked {
            None => (s, Ok(None)),
            Some((lanes, mask)) => match s.as_int(mask) {
                None => (
                    s,
                    Err(
                        EvalError::NotConcrete {
                            thread: t,
                            pc,
                            what: "packed byte-quad xor mask",
                        },
                    ),
                ),
                Some(c) => match xor_lanes_spec(s, pc, c as u32, lanes) {
                    (s1, Err(e)) => (s1, Err(e)),
                    (s1, Ok(v)) => (s1, Ok(Some(v))),
                },
            },
        }
    }
}

/// Evaluates an XOR of which an operand may be a byte quad.
pub fn quad_bitwise_binop(
    arena: &mut ExprArena,
    t: ThreadId,
    pc: InstrId,
    a: Value,
    b: Value,
) -> (r:
    Result<Option<Value>, EvalError>)
    requires
        old(arena).wf(),
    ensures
        final(arena).wf(),
        (final(arena)@, r) == quad_xor_spec(old(arena)@, t, pc, a, b),
{
    let (lanes, mask) = match (a, b) {
        (Value::Quad(b0, b1, b2, b3), Value::Scalar(mask)) => ((b0, b1, b2, b3), mask),
        (Value::Scalar(mask), Value::Quad(b0, b1, b2, b3)) => ((b0, b1, b2, b3), mask),
        (Value::Quad(_, _, _, _), Value::Quad(_, _, _, _)) => {
            return Err(unsupported(pc, "xor.b32 of two packed byte quads"));
        },
        _ => {
            return Ok(None);
        },
    };
    match arena.as_int_const(mask) {
        None => Err(EvalError::NotConcrete { thread: t, pc, what: "packed byte-quad xor mask" }),
        Some(c) => match xor_lanes(arena, pc, c as u32, lanes) {
            Err(e) => Err(e),
            Ok(v) => Ok(Some(v)),
        },
    }
}

/// The byte lanes that a `prmt` source offers.
pub type Bytes = (ExprId, Option<(ExprId, ExprId, ExprId)>);

/// A scalar byte that had its sign bit flipped is the negated byte.
pub open spec fn sign_flip_spec(s: Exprs, e: ExprId) -> (Exprs, ExprId) {
    match s.node(e) {
        ExprNode::BitXor(l, r) => if s.as_int(l) == Some(128i64) {
            s.negated(r)
        } else if s.as_int(r) == Some(128i64) {
            s.negated(l)
        } else {
            (s, e)
        },
        _ => (s, e),
    }
}

fn sign_flip(arena: &mut ExprArena, e: ExprId) -> (r: ExprId)
    requires
        old(arena).wf(),
    ensures
        final(arena).wf(),
        (final(arena)@, r) == sign_flip_spec(old(arena)@, e),
{
    match arena.node(e) {
        ExprNode::BitXor(l, r) => {
            if let Some(c) = arena.as_int_const(l) {
                if c == 128 {
                    return arena.neg(r);
                }
            }
            if let Some(c) = arena.as_int_const(r) {
                if c == 128 {
                    return arena.neg(l);
                }
            }
            e
        },
        _ => e,
    }
}

/// The byte lanes of a value: a scalar is its lowest byte, a quad its four.
pub open spec fn byte_lanes_spec(s: Exprs, t: ThreadId, pc: InstrId, v: Value) -> Step<Bytes> {
    match v {
        Value::Scalar(e) => {
            let (s1, x) = sign_flip_spec(s, e);
            (s1, Ok((x, None)))
        },
        Value::Quad(b0, b1, b2, b3) => (s, Ok((b0, Some((b1, b2, b3))))),
        Value::Pair(_, _) => (s, Err(kind_mismatch(t, pc, "packed pair used as a prmt source"))),
        Value::Mbarrier(_) => (
            s,
            Err(kind_mismatch(t, pc, "mbarrier handle used as a prmt source")),
        ),
    }
}

fn byte_lanes(arena: &mut ExprArena, t: ThreadId, pc: InstrId, v: Value) -> (r: Result<
    Bytes,
    EvalError,
>)
    requires
        old(arena).wf(),
    ensures
        final(arena).wf(),
        (final(arena)@, r) == byte_lanes_spec(old(arena)@, t, pc, v),
{
    match v {
        Value::Scalar(e) => {
            let x = sign_flip(arena, e);
            Ok((x, None))
        },
        Value::Quad(b0, b1, b2, b3) => Ok((b0, Some((b1, b2, b3)))),
        Value::Pair(_, _) => Err(
            EvalError::ValueKindMismatch {
                thread: t,
                pc,
                what: "packed pair used as a prmt source",
            },
        ),
        Value::Mbarrier(_) => Err(
            EvalError::ValueKindMismatch {
                thread: t,
                pc,
                what: "mbarrier handle used as a prmt source",
            },
        ),
    }
}

/// Lane `k` of a source, if it has one.
pub open spec fn spec_byte_of(l: Bytes, k: u16) -> Option<ExprId> {
    if k == 0 {
        Some(l.0)
    } else {
        match l.1 {
            None => None,
            Some(rest) => Some(
                if k == 1 {
                    rest.0
                } else if k == 2 {
                    rest.1
                } else {
                    rest.2
                },
            ),
        }
    }
}

/// Lane `k` of a source, if it has one.
#[verifier::when_used_as_spec(spec_byte_of)]
pub fn byte_of(l: Bytes, k: u16) -> (r: Option<ExprId>)
    ensures
        r == spec_byte_of(l, k),
{
    if k == 0 {
        Some(l.0)
    } else {
        match l.1 {
            None => None,
            Some(rest) => Some(
                if k == 1 {
                    rest.0
                } else if k == 2 {
                    rest.1
                } else {
                    rest.2
                },
            ),
        }
    }
}

/// The byte that one selector nibble picks: its low three bits name a byte of
/// the two sources, its high bit negates it.
pub open spec fn select_byte_spec(
    s: Exprs,
    pc: InstrId,
    selector: u16,
    a: Bytes,
    b: Bytes,
    nibble: u16,
) -> Step<ExprId> {
    let source = if nibble % 8 < 4 {
        a
    } else {
        b
    };
    match byte_of(source, (nibble % 4) as u16) {
        None => (
            s,
            Err(
                EvalError::Unsupported {
                    pc,
                    what: Detail::PrmtByte { selector, byte: (nibble % 8) as u16 },
                },
            ),
        ),
        Some(e) => if nibble / 8 % 2 == 0 {
            (s, Ok(e))
        } else {
            ok(s.negated(e))
        },
    }
}

fn select_byte(
    arena: &mut ExprArena,
    pc: InstrId,
    selector: u16,
    a: Bytes,
    b: Bytes,
    nibble: u16,
) -> (r: Result<ExprId, EvalError>)
    requires
        old(arena).wf(),
    ensures
        final(arena).wf(),
        (final(arena)@, r) == select_byte_spec(old(arena)@, pc, selector, a, b, nibble),
{
    let source = if nibble % 8 < 4 {
        a
    } else {
        b
    };
    match byte_of(source, nibble % 4) {
        None => Err(
            EvalError::Unsupported { pc, what: Detail::PrmtByte { selector, byte: nibble % 8 } },
        ),
        Some(e) => if nibble / 8 % 2 == 0 {
            Ok(e)
        } else {
            Ok(arena.neg(e))
        },
    }
}

/// The four selected bytes.
pub open spec fn prmt_spec(
    s: Exprs,
    pc: InstrId,
    selector: u16,
    a: Bytes,
    b: Bytes,
) -> Step<Value> {
    match select_byte_spec(s, pc, selector, a, b, selector % 16) {
        (s1, Err(e)) => (s1, Err(e)),
        (s1, Ok(b0)) => match select_byte_spec(s1, pc, selector, a, b, selector / 16 % 16) {
            (s2, Err(e)) => (s2, Err(e)),
            (s2, Ok(b1)) => match select_byte_spec(s2, pc, selector, a, b, selector / 256 % 16) {
                (s3, Err(e)) => (s3, Err(e)),
                (s3, Ok(b2)) => match select_byte_spec(
                    s3,
                    pc,
                    selector,
                    a,
                    b,
                    selector / 4096 % 16,
                ) {
                    (s4, Err(e)) => (s4, Err(e)),
                    (s4, Ok(b3)) => (s4, Ok(Value::Quad(b0, b1, b2, b3))),
                },
            },
        },
    }
}

/// A byte permutation of two values.
pub open spec fn permute_spec(
    s: Exprs,
    t: ThreadId,
    pc: InstrId,
    selector: u16,
    a: Value,
    b: Value,
) -> Step<
    Value,
> {
    match byte_lanes_spec(s, t, pc, a) {
        (s1, Err(e)) => (s1, Err(e)),
        (s1, Ok(x)) => match byte_lanes_spec(s1, t, pc, b) {
            (s2, Err(e)) => (s2, Err(e)),
            (s2, Ok(y)) => prmt_spec(s2, pc, selector, x, y),
        },
    }
}

/// Evaluates a byte permutation.
pub fn permute(
    arena: &mut ExprArena,
    t: ThreadId,
    pc: InstrId,
    selector: u16,
    a: Value,
    b: Value,
) -> (r:
    Result<Value, EvalError>)
    requires
        old(arena).wf(),
    ensures
        final(arena).wf(),
        (final(arena)@, r) == permute_spec(old(arena)@, t, pc, selector, a, b),
{
    let x = match byte_lanes(arena, t, pc, a) {
        Err(e) => {
            return Err(e);
        },
        Ok(x) => x,
    };
    let y = match byte_lanes(arena, t, pc, b) {
        Err(e) => {
            return Err(e);
        },
        Ok(y) => y,
    };
    let b0 = match select_byte(arena, pc, selector, x, y, selector % 16) {
        Err(e) => {
            return Err(e);
        },
        Ok(v) => v,
    };
    let b1 = match select_byte(arena, pc, selector, x, y, selector / 16 % 16) {
        Err(e) => {
            return Err(e);
        },
        Ok(v) => v,
    };
    let b2 = match select_byte(arena, pc, selector, x, y, selector / 256 % 16) {
        Err(e) => {
            return Err(e);
        },
        Ok(v) => v,
    };
    match select_byte(arena, pc, selector, x, y, selector / 4096 % 16) {
        Err(e) => Err(e),
        Ok(b3) => Ok(Value::Quad(b0, b1, b2, b3)),
    }
}

// ---------------------------------------------------------------------------
// Funnel-shift lanes
// ---------------------------------------------------------------------------

/// Which 16-bit half of a funnel-shift operand to read.
#[derive(Debug, Clone, Copy, PartialEq, Eq, Structural)]
pub enum LaneHalf {
    Low,
    High,
}

/// One 16-bit lane of a 32-bit value: that of a pair, the bits of a concrete
/// integer, or a symbolic value as its own low lane.
pub open spec fn shf_lane_spec(
    s: Exprs,
    t: ThreadId,
    pc: InstrId,
    v: Value,
    half: LaneHalf,
) -> Step<
    ExprId,
> {
    match v {
        Value::Pair(lo, hi) => (
            s,
            Ok(
                if half == LaneHalf::Low {
                    lo
                } else {
                    hi
                },
            ),
        ),
        Value::Scalar(e) => match (s.as_int(e), half) {
            (Some(c), LaneHalf::Low) => ok(s.int_const(low(c as int, 16) as i64)),
            (Some(c), LaneHalf::High) => ok(s.int_const(low((c >> 16u64) as int, 16) as i64)),
            (None, LaneHalf::Low) => (s, Ok(e)),
            (None, LaneHalf::High) => (
                s,
                Err(
                    unsupported(
                        pc,
                        "shf reading the high 16-bit lane of a symbolic 32-bit operand",
                    ),
                ),
            ),
        },
        Value::Quad(_, _, _, _) => (
            s,
            Err(kind_mismatch(t, pc, "shf operand holds a packed byte quad")),
        ),
        Value::Mbarrier(_) => (
            s,
            Err(kind_mismatch(t, pc, "mbarrier handle used as a shf operand")),
        ),
    }
}

/// Reads one 16-bit lane of a funnel-shift operand.
pub fn shf_lane(arena: &mut ExprArena, t: ThreadId, pc: InstrId, v: Value, half: LaneHalf) -> (r:
    Result<ExprId, EvalError>)
    requires
        old(arena).wf(),
    ensures
        final(arena).wf(),
        (final(arena)@, r) == shf_lane_spec(old(arena)@, t, pc, v, half),
{
    match v {
        Value::Pair(lo, hi) => if half == LaneHalf::Low {
            Ok(lo)
        } else {
            Ok(hi)
        },
        Value::Scalar(e) => {
            proof {
                vstd::arithmetic::power2::lemma2_to64();
            }
            match (arena.as_int_const(e), half) {
                (Some(c), LaneHalf::Low) => {
                    let x: u64 = mask_to(c, 16);
                    Ok(arena.int_const(x as i64))
                },
                (Some(c), LaneHalf::High) => {
                    let x: u64 = mask_to(c >> 16u64, 16);
                    Ok(arena.int_const(x as i64))
                },
                (None, LaneHalf::Low) => Ok(e),
                (None, LaneHalf::High) => Err(
                    unsupported(
                        pc,
                        "shf reading the high 16-bit lane of a symbolic 32-bit operand",
                    ),
                ),
            }
        },
        Value::Quad(_, _, _, _) => Err(
            EvalError::ValueKindMismatch {
                thread: t,
                pc,
                what: "shf operand holds a packed byte quad",
            },
        ),
        Value::Mbarrier(_) => Err(
            EvalError::ValueKindMismatch {
                thread: t,
                pc,
                what: "mbarrier handle used as a shf operand",
            },
        ),
    }
}

// ---------------------------------------------------------------------------
// Bit fields
// ---------------------------------------------------------------------------

/// Bit `i` of a word.
pub open spec fn bit(x: u64, i: u64) -> u64 {
    (x >> i) & 1
}

/// The table lookup of the low `n` bits: bit `i` of the result is bit
/// `4 * a_i + 2 * b_i + c_i` of the table.
pub open spec fn lop3_bits(a: u64, b: u64, c: u64, lut: u64, n: nat) -> u64
    decreases n,
{
    if n == 0 {
        0
    } else {
        let i = (n - 1) as u64;
        let index = (4 * bit(a, i) + 2 * bit(b, i) + bit(c, i)) as u64;
        lop3_bits(a, b, c, lut, (n - 1) as nat) | (bit(lut, index) << i)
    }
}

/// Looks every bit of three words up in a truth table.
pub fn lop3_lut(a: u32, b: u32, c: u32, lut: u64) -> (r: u64)
    ensures
        r == lop3_bits(a as u64, b as u64, c as u64, lut, 32),
{
    let (x, y, z): (u64, u64, u64) = (a as u64, b as u64, c as u64);
    let mut result: u64 = 0;
    let mut i: u64 = 0;
    while i < 32
        invariant
            i <= 32,
            result == lop3_bits(x, y, z, lut, i as nat),
        decreases 32 - i,
    {
        let (p, q, s): (u64, u64, u64) = ((x >> i) & 1, (y >> i) & 1, (z >> i) & 1);
        assert(p <= 1 && q <= 1 && s <= 1) by (bit_vector)
            requires
                p == (x >> i) & 1,
                q == (y >> i) & 1,
                s == (z >> i) & 1,
        ;
        let index: u64 = 4 * p + 2 * q + s;
        result = result | (((lut >> index) & 1) << i);
        i = i + 1;
    }
    result
}

/// A three-input logical operation: exact on concrete words; on a symbolic
/// first source only an XOR that changes nothing or the sign bit.
pub open spec fn lop3_spec(s: Exprs, pc: InstrId, lut: i64, a: ExprId, b: u32, c: u32) -> Step<
    ExprId,
> {
    match s.as_int(a) {
        Some(x) => ok(
            s.int_const(
                lop3_bits(x as u32 as u64, b as u64, c as u64, lut as u32 as u64, 32) as i64,
            ),
        ),
        None => if lut != 0x96 {
            (s, Err(EvalError::Unsupported { pc, what: Detail::Lop3Lut { lut } }))
        } else if b ^ c == 0 {
            (s, Ok(a))
        } else if b ^ c == 0x8000_0000 {
            ok(s.negated(a))
        } else {
            (s, Err(EvalError::Unsupported { pc, what: Detail::Lop3Mask { mask: b ^ c } }))
        },
    }
}

/// Evaluates a three-input logical operation.
pub fn eval_lop3(arena: &mut ExprArena, pc: InstrId, lut: i64, a: ExprId, b: u32, c: u32) -> (r:
    Result<ExprId, EvalError>)
    requires
        old(arena).wf(),
    ensures
        final(arena).wf(),
        (final(arena)@, r) == lop3_spec(old(arena)@, pc, lut, a, b, c),
{
    match arena.as_i64(a) {
        Some(x) => {
            let v: u64 = lop3_lut(x as u32, b, c, lut as u32 as u64);
            Ok(arena.int_const(v as i64))
        },
        None => {
            let mask: u32 = b ^ c;
            if lut != 0x96 {
                Err(EvalError::Unsupported { pc, what: Detail::Lop3Lut { lut } })
            } else if mask == 0 {
                Ok(a)
            } else if mask == 0x8000_0000 {
                Ok(arena.neg(a))
            } else {
                Err(EvalError::Unsupported { pc, what: Detail::Lop3Mask { mask } })
            }
        },
    }
}

/// The low bits of `a` inserted into `b`.
pub open spec fn inserted(a: u64, b: u64, start: u64, len: u64) -> u64 {
    let at = if start > 63 {
        63
    } else {
        start
    };
    let mask: u64 = if len >= 64 {
        u64::MAX
    } else {
        (((1u64 << len) - 1) as u64) << at
    };
    (b & !mask) | ((a << at) & mask)
}

/// Inserts `len` low bits of `a` into `b` at `start`.
pub fn insert_bits(a: u64, b: u64, start: u64, len: u64) -> (r: u64)
    ensures
        r == inserted(a, b, start, len),
{
    let at: u64 = if start > 63 {
        63
    } else {
        start
    };
    let mask: u64 = if len >= 64 {
        u64::MAX
    } else {
        assert((1u64 << len) >= 1) by (bit_vector)
            requires
                len < 64,
        ;
        ((1u64 << len) - 1) << at
    };
    (b & !mask) | ((a << at) & mask)
}

/// The sign bit of an extracted field: its top bit, or that of the word if
/// the field runs past it.
pub open spec fn field_sign(a: u64, pos: u32, len: u32, msb: u32, signed: bool) -> u64 {
    if !signed || len == 0 {
        0
    } else {
        bit(
            a,
            if pos + len - 1 > msb {
                msb as u64
            } else {
                (pos + len - 1) as u64
            },
        )
    }
}

/// The low `n` bits of an extracted field: bits of `a` from `pos` on while
/// inside the field and the word, then the sign.
pub open spec fn extracted_bits(a: u64, pos: u32, len: u32, msb: u32, sign: u64, n: nat) -> u64
    decreases n,
{
    if n == 0 {
        0
    } else {
        let i = (n - 1) as u64;
        let b = if i < len && pos + i <= msb {
            bit(a, (pos + i) as u64)
        } else {
            sign
        };
        extracted_bits(a, pos, len, msb, sign, (n - 1) as nat) | (b << i)
    }
}

/// A bit field of `a`, extended by its sign if `signed`. A 32-bit type has
/// its word's top bit at 31.
pub open spec fn extracted(a: u64, pos: u32, len: u32, wide: bool, signed: bool) -> u64 {
    let msb: u32 = if wide {
        63
    } else {
        31
    };
    let word = if wide {
        a
    } else {
        (a % 0x1_0000_0000) as u64
    };
    extracted_bits(word, pos, len, msb, field_sign(word, pos, len, msb, signed), (msb + 1) as nat)
}

/// Extracts a bit field.
pub fn extract_bits(a: u64, pos: u32, len: u32, wide: bool, signed: bool) -> (r: u64)
    requires
        pos <= 255,
        len <= 255,
    ensures
        r == extracted(a, pos, len, wide, signed),
{
    let msb: u32 = if wide {
        63
    } else {
        31
    };
    let word: u64 = if wide {
        a
    } else {
        a % 0x1_0000_0000
    };
    let sign: u64 = if !signed || len == 0 {
        0
    } else {
        let top: u64 = if pos + len - 1 > msb {
            msb as u64
        } else {
            (pos + len - 1) as u64
        };
        (word >> top) & 1
    };
    let mut d: u64 = 0;
    let mut i: u64 = 0;
    while i <= msb as u64
        invariant
            i <= msb + 1,
            msb == 31 || msb == 63,
            pos <= 255,
            d == extracted_bits(word, pos, len, msb, sign, i as nat),
        decreases msb + 1 - i,
    {
        let b: u64 = if i < len as u64 && pos as u64 + i <= msb as u64 {
            (word >> (pos as u64 + i)) & 1
        } else {
            sign
        };
        d = d | (b << i);
        i = i + 1;
    }
    d
}

// ---------------------------------------------------------------------------
// Packed conversions
// ---------------------------------------------------------------------------

/// Two values clamped.
pub open spec fn clamp_both(
    s: Exprs,
    clamp: Option<Clamp>,
    lo: ExprId,
    hi: ExprId,
) -> (Exprs, Value) {
    let (s1, x) = clamp_spec(s, clamp, lo);
    let (s2, y) = clamp_spec(s1, clamp, hi);
    (s2, Value::Pair(x, y))
}

/// Clamps both lanes of a pair.
pub fn clamp_pair(arena: &mut ExprArena, clamp: Option<Clamp>, lo: ExprId, hi: ExprId) -> (r: Value)
    requires
        old(arena).wf(),
    ensures
        final(arena).wf(),
        (final(arena)@, r) == clamp_both(old(arena)@, clamp, lo, hi),
{
    let x = apply_clamp(arena, clamp, lo);
    let y = apply_clamp(arena, clamp, hi);
    Value::Pair(x, y)
}

/// Two packed bytes as a pair of halves. Lanes that already are values stay
/// as they are, a concrete pattern is decoded byte by byte, and the upper
/// lane of a single symbolic byte is undefined.
pub open spec fn unpack_bytes_spec(
    s: Exprs,
    t: ThreadId,
    pc: InstrId,
    v: Value,
    clamp: Option<Clamp>,
) -> Step<
    Value,
> {
    match v {
        Value::Pair(b0, b1) => ok(clamp_both(s, clamp, b0, b1)),
        Value::Scalar(e) => match s.as_int(e) {
            Some(c) => {
                let raw = c as u64;
                match byte_spec(s, pc, "cvt.e4m3x2", (raw % 256) as u8, ByteFormat::E4m3) {
                    (s1, Err(e1)) => (s1, Err(e1)),
                    (s1, Ok(lo)) => match byte_spec(
                        s1,
                        pc,
                        "cvt.e4m3x2",
                        (raw / 256 % 256) as u8,
                        ByteFormat::E4m3,
                    ) {
                        (s2, Err(e1)) => (s2, Err(e1)),
                        (s2, Ok(hi)) => ok(clamp_both(s2, clamp, lo, hi)),
                    },
                }
            },
            None => {
                let (s1, undef) = s.undefined();
                let (s2, x) = clamp_spec(s1, clamp, e);
                (s2, Ok(Value::Pair(x, undef)))
            },
        },
        Value::Quad(_, _, _, _) => (
            s,
            Err(
                kind_mismatch(
                    t,
                    pc,
                    "cvt.e4m3x2 source is a 4-byte packed value (expected a 2-byte .b16 register)",
                ),
            ),
        ),
        Value::Mbarrier(_) => (
            s,
            Err(kind_mismatch(t, pc, "mbarrier handle used as a cvt.e4m3x2 operand")),
        ),
    }
}

/// Unpacks two bytes into a pair of halves.
pub fn unpack_bytes(
    arena: &mut ExprArena,
    t: ThreadId,
    pc: InstrId,
    v: Value,
    clamp: Option<Clamp>,
) -> (r:
    Result<Value, EvalError>)
    requires
        old(arena).wf(),
    ensures
        final(arena).wf(),
        (final(arena)@, r) == unpack_bytes_spec(old(arena)@, t, pc, v, clamp),
{
    match v {
        Value::Pair(b0, b1) => Ok(clamp_pair(arena, clamp, b0, b1)),
        Value::Scalar(e) => {
            match arena.as_i64(e) {
                Some(c) => {
                    let raw: u64 = c as u64;
                    let lo = match decode_fp8_byte(
                        arena,
                        pc,
                        "cvt.e4m3x2",
                        (raw % 256) as u8,
                        ByteFormat::E4m3,
                    ) {
                        Err(e1) => {
                            return Err(e1);
                        },
                        Ok(x) => x,
                    };
                    let hi = match decode_fp8_byte(
                        arena,
                        pc,
                        "cvt.e4m3x2",
                        (raw / 256 % 256) as u8,
                        ByteFormat::E4m3,
                    ) {
                        Err(e1) => {
                            return Err(e1);
                        },
                        Ok(x) => x,
                    };
                    Ok(clamp_pair(arena, clamp, lo, hi))
                },
                None => {
                    let undef = arena.undefined();
                    let x = apply_clamp(arena, clamp, e);
                    Ok(Value::Pair(x, undef))
                },
            }
        },
        Value::Quad(_, _, _, _) => Err(
            EvalError::ValueKindMismatch {
                thread: t,
                pc,
                what: "cvt.e4m3x2 source is a 4-byte packed value (expected a 2-byte .b16 register)",
            },
        ),
        Value::Mbarrier(_) => Err(
            EvalError::ValueKindMismatch {
                thread: t,
                pc,
                what: "mbarrier handle used as a cvt.e4m3x2 operand",
            },
        ),
    }
}

} // verus!
