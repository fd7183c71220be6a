//! Lowering of graphs into terms.

use ouroboros_dfg::ssa::{Ssa, Value};
use ouroboros_dfg::ssa_bridge::{last_defined, to_rec_expr};

#[test]
fn associativity_shape_emits_nested_sexprs() {
    let mut g = Ssa::new();
    let (a, b, c) = (g.new_param(), g.new_param(), g.new_param());
    let t = g.add(a, b);
    let out = g.add(t, c);
    assert_eq!(to_rec_expr(&g, out).to_string(), "(add (add p0 p1) p2)");
}

#[test]
fn const_neg_mul_spellings() {
    let mut g = Ssa::new();
    let a = g.new_param();
    let zero = g.constant(0);
    let s = g.add(a, zero);
    let neg3 = g.constant(-3);
    let m = g.mul(s, neg3);
    let n = g.neg(m);
    assert_eq!(to_rec_expr(&g, n).to_string(), "(neg (mul (add p0 0) -3))");
}

#[test]
fn param_root_is_bare_atom() {
    let mut g = Ssa::new();
    let _a = g.new_param();
    let b = g.new_param();
    assert_eq!(to_rec_expr(&g, b).to_string(), "p1");
}

#[test]
fn repeated_subterms_render_identically() {
    let mut g = Ssa::new();
    let a = g.new_param();
    let seven = g.constant(7);
    let b = g.add(a, seven);
    let c = g.add(b, b);
    let out = g.add(c, b);
    assert_eq!(
        to_rec_expr(&g, out).to_string(),
        "(add (add (add p0 7) (add p0 7)) (add p0 7))"
    );
}

#[test]
fn different_param_counts_convert_without_collision() {
    let mut one = Ssa::new();
    let x = one.new_param();
    assert_eq!(to_rec_expr(&one, x).to_string(), "p0");

    let mut three = Ssa::new();
    let _p = three.new_param();
    let _q = three.new_param();
    let r = three.new_param();
    let s = three.add(r, r);
    assert_eq!(to_rec_expr(&three, s).to_string(), "(add p2 p2)");
}

#[test]
fn dangling_value_renders_inert_atom() {
    let mut g = Ssa::new();
    let a = g.new_param();
    let s = g.add(a, Value(99));
    assert_eq!(to_rec_expr(&g, s).to_string(), "(add p0 undef99)");
    assert_eq!(to_rec_expr(&Ssa::new(), Value(4)).to_string(), "undef4");
}

/// `%0 = add %1 %1` and `%1 = add %0 %0` make a cycle.
#[test]
fn cycle_terminates_with_cut_atom() {
    let mut g = Ssa::new();
    let forward = g.add(Value(1), Value(1));
    let back = g.add(forward, forward);
    let text = to_rec_expr(&g, forward).to_string();
    assert_eq!(text, "(add (add v0cycle v0cycle) (add v0cycle v0cycle))");
    assert_eq!(back.0, 1);
}

#[test]
fn last_defined_is_highest_def() {
    let mut g = Ssa::new();
    let a = g.new_param();
    let s = g.add(a, a);
    assert_eq!(last_defined(&g), Some(s));
    let mut empty = Ssa::new();
    empty.new_param();
    empty.new_param();
    assert_eq!(last_defined(&empty), None);
}

#[test]
fn last_defined_skips_trailing_parameters() {
    let mut g = Ssa::new();
    let c = g.constant(1);
    g.new_param();
    g.new_param();
    assert_eq!(last_defined(&g), Some(c));
    assert_eq!(last_defined(&Ssa::new()), None);
}

#[test]
fn parameters_are_named_by_position() {
    let mut g = Ssa::new();
    g.constant(5);
    let p = g.new_param();
    assert_eq!(to_rec_expr(&g, p).to_string(), "p1");
}

#[test]
fn a_value_that_reads_itself_is_cut() {
    let mut g = Ssa::new();
    let v = g.neg(Value(0));
    assert_eq!(to_rec_expr(&g, v).to_string(), "(neg v0cycle)");
}

#[test]
fn extreme_constants_keep_their_numerals() {
    let mut g = Ssa::new();
    let lo = g.constant(i64::MIN);
    let hi = g.constant(i64::MAX);
    let m = g.mul(lo, hi);
    assert_eq!(
        to_rec_expr(&g, m).to_string(),
        "(mul -9223372036854775808 9223372036854775807)"
    );
}

#[test]
fn atoms_never_collide() {
    let mut g = Ssa::new();
    g.new_param();
    let cut = g.neg(Value(1));
    let p = to_rec_expr(&g, Value(0)).to_string();
    let undefined = to_rec_expr(&Ssa::new(), Value(0)).to_string();
    let cycle = to_rec_expr(&g, cut).to_string();
    assert_eq!(p, "p0");
    assert_eq!(undefined, "undef0");
    assert_eq!(cycle, "(neg v1cycle)");
    assert!(p.parse::<i64>().is_err() && undefined.parse::<i64>().is_err());
}

/// A text that was made under an open value is kept as it is.
#[test]
fn kept_texts_are_reused_on_cycles() {
    let mut g = Ssa::new();
    let a = g.neg(Value(1));
    let b = g.neg(a);
    let out = g.add(a, b);
    assert_eq!(
        to_rec_expr(&g, out).to_string(),
        "(add (neg (neg v0cycle)) (neg v0cycle))"
    );
}
