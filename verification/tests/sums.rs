//! Equality of sums.

use volta_analysis::canon::coeff::Coeff;
use volta_analysis::symbolic::arena::ExprArena;
use volta_analysis::symbolic::sums::{check_same_sum, match_factors};
use volta_analysis::symbolic::ExprId;

fn symbols(arena: &mut ExprArena, n: u64) -> Vec<ExprId> {
    let name = arena.intern_string(&"x".to_string());
    (0..n).map(|i| arena.input_element(name, i)).collect()
}

#[test]
fn sums_are_equal_in_any_order_and_grouping() {
    let mut arena = ExprArena::new();
    let x = symbols(&mut arena, 3);
    let ab = arena.add(x[0], x[1]);
    let left = arena.add(ab, x[2]);
    let bc = arena.add(x[1], x[2]);
    let right = arena.add(x[0], bc);
    let cb = arena.add(x[2], x[1]);
    let turned = arena.add(cb, x[0]);
    assert_ne!(left, right);
    assert!(check_same_sum(&arena, left, right));
    assert!(check_same_sum(&arena, left, turned));
    assert!(!check_same_sum(&arena, ab, bc));
    assert!(!check_same_sum(&arena, left, ab));
}

#[test]
fn differences_cancel_and_zeros_vanish() {
    let mut arena = ExprArena::new();
    let x = symbols(&mut arena, 2);
    let sum = arena.add(x[0], x[1]);
    let back = arena.sub(sum, x[1]);
    assert!(check_same_sum(&arena, back, x[0]));
    let minus = arena.neg(x[1]);
    let difference = arena.add(x[0], minus);
    let direct = arena.sub(x[0], x[1]);
    assert!(check_same_sum(&arena, difference, direct));
    let zero = arena.int_const(0);
    let padded = arena.add(zero, x[0]);
    assert!(check_same_sum(&arena, padded, x[0]));
}

#[test]
fn fused_products_are_products() {
    let mut arena = ExprArena::new();
    let x = symbols(&mut arena, 3);
    let fused = arena.fma(x[0], x[1], x[2]);
    let product = arena.mul(x[1], x[0]);
    let apart = arena.add(x[2], product);
    assert!(check_same_sum(&arena, fused, apart));
    let other = arena.mul(x[1], x[1]);
    let apart = arena.add(x[2], other);
    assert!(!check_same_sum(&arena, fused, apart));
}

#[test]
fn undefined_values_and_infinities_do_not_cancel() {
    let mut arena = ExprArena::new();
    let x = symbols(&mut arena, 1);
    let undefined = arena.undefined();
    let a = arena.add(x[0], undefined);
    let b = arena.sub(a, undefined);
    assert!(!check_same_sum(&arena, b, x[0]));
    assert!(check_same_sum(&arena, a, a));
}

#[test]
fn an_endlessly_doubled_sum_is_given_up() {
    let mut arena = ExprArena::new();
    let x = symbols(&mut arena, 2);
    let (mut a, mut b) = (x[0], x[1]);
    for _ in 0..40 {
        a = arena.add(a, a);
        b = arena.add(b, b);
    }
    assert!(!check_same_sum(&arena, a, b));
    assert!(check_same_sum(&arena, a, a));
}

#[test]
fn factors_are_compared_with_their_multiplicity() {
    let f = |ids: &[usize]| ids.iter().map(|&i| ExprId(i)).collect::<Vec<_>>();
    assert!(match_factors(&f(&[1, 2, 1]), &f(&[2, 1, 1])));
    assert!(!match_factors(&f(&[1, 2, 1]), &f(&[2, 1, 2])));
    assert!(!match_factors(&f(&[1]), &f(&[1, 1])));
    assert!(match_factors(&f(&[]), &f(&[])));
}

#[test]
fn products_are_equal_in_any_order_and_grouping() {
    let mut arena = ExprArena::new();
    let x = symbols(&mut arena, 3);
    let ab = arena.mul(x[0], x[1]);
    let left = arena.mul(ab, x[2]);
    let bc = arena.mul(x[1], x[2]);
    let right = arena.mul(x[0], bc);
    let ca = arena.mul(x[2], x[0]);
    let turned = arena.mul(x[1], ca);
    assert!(check_same_sum(&arena, left, right));
    assert!(check_same_sum(&arena, left, turned));
    assert!(!check_same_sum(&arena, left, ab));
}

#[test]
fn constant_factors_count() {
    let mut arena = ExprArena::new();
    let x = symbols(&mut arena, 2);
    let two = arena.int_const(2);
    let doubled = arena.mul(two, x[0]);
    let sum = arena.add(x[0], x[0]);
    assert!(check_same_sum(&arena, doubled, sum));
    let half = arena.real_const(Coeff::reduced(1, 2, 0).unwrap());
    let back = arena.mul(doubled, half);
    assert!(check_same_sum(&arena, back, x[0]));
    let third = arena.real_const(Coeff::reduced(1, 3, 0).unwrap());
    let scaled = arena.mul(sum, third);
    assert!(!check_same_sum(&arena, scaled, x[0]));
}

#[test]
fn products_distribute_over_sums() {
    let mut arena = ExprArena::new();
    let x = symbols(&mut arena, 3);
    let sum = arena.add(x[0], x[1]);
    let factored = arena.mul(sum, x[2]);
    let (ac, bc) = (arena.mul(x[0], x[2]), arena.mul(x[1], x[2]));
    let apart = arena.add(ac, bc);
    assert!(check_same_sum(&arena, factored, apart));
    // (a + b)(a - b) == a*a - b*b
    let difference = arena.sub(x[0], x[1]);
    let product = arena.mul(sum, difference);
    let (aa, bb) = (arena.mul(x[0], x[0]), arena.mul(x[1], x[1]));
    let squares = arena.sub(aa, bb);
    assert!(check_same_sum(&arena, product, squares));
}
