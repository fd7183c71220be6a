//! Canonical form of graphs.

use ouroboros_dfg::canonical::{joint_names, params_first, ranks_of};
use ouroboros_dfg::ssa::{Op, Ssa, Value};
use ouroboros_dfg::ssa_bridge::to_rec_expr;

fn names(list: &[&str]) -> Vec<String> {
    list.iter().map(|n| n.to_string()).collect()
}

#[test]
fn names_have_one_order() {
    let order = joint_names(&names(&["b", "a"]), &names(&["c", "a", "d"]));
    assert_eq!(order, names(&["b", "a", "c", "d"]));
    assert_eq!(ranks_of(&names(&["c", "a", "d"]), &order), vec![2, 1, 3]);
    assert_eq!(ranks_of(&names(&["b", "q"]), &order), vec![0, 4]);
    assert_eq!(joint_names(&names(&[]), &names(&[])), names(&[]));
}

#[test]
fn parameters_move_to_the_front() {
    let mut g = Ssa::new();
    let a = g.new_param();
    let two = g.constant(2);
    let m = g.mul(two, a);
    let b = g.new_param();
    let n = g.neg(b);
    let out = g.add(m, n);
    let (c, at) = params_first(&g, out, &vec![0, 1], 2);
    assert_eq!(c.len(), 6);
    assert!(c.is_param(Value(0)) && c.is_param(Value(1)));
    assert_eq!(c.op_of(Value(2)), Some(&Op::Const(2)));
    assert_eq!(c.op_of(Value(3)), Some(&Op::Mul(Value(2), Value(0))));
    assert_eq!(c.op_of(Value(4)), Some(&Op::Neg(Value(1))));
    assert_eq!(c.op_of(Value(5)), Some(&Op::Add(Value(3), Value(4))));
    assert_eq!(at, Value(5));
    assert_eq!(to_rec_expr(&g, out).to_string(), "(add (mul 2 p0) (neg p3))");
    assert_eq!(to_rec_expr(&c, at).to_string(), "(add (mul 2 p0) (neg p1))");
    assert!(c.validate().is_ok());
    assert_eq!(g.evaluate(out, &[5, 3]), Ok(7));
    assert_eq!(c.evaluate(at, &[5, 3]), Ok(7));
    assert_eq!(params_first(&g, b, &vec![0, 1], 2).1, Value(1));
}

#[test]
fn parameters_take_the_given_places() {
    let mut g = Ssa::new();
    let a = g.new_param();
    let b = g.new_param();
    let n = g.neg(b);
    let out = g.add(a, n);
    let (c, at) = params_first(&g, out, &vec![2, 0], 3);
    assert_eq!(c.len(), 5);
    assert_eq!(to_rec_expr(&c, at).to_string(), "(add p2 (neg p0))");
    assert_eq!(g.evaluate(out, &[9, 4]), Ok(5));
    assert_eq!(c.evaluate(at, &[4, 100, 9]), Ok(5));
}

#[test]
fn graphs_in_order_stay_as_they_are() {
    let mut g = Ssa::new();
    let a = g.new_param();
    let b = g.new_param();
    let s = g.add(a, b);
    let (c, at) = params_first(&g, s, &vec![0, 1], 2);
    assert_eq!(c, g);
    assert_eq!(at, s);
}

#[test]
fn factors_of_a_product_are_put_in_order() {
    let mut one = Ssa::new();
    let mut other = Ssa::new();
    let (a, b) = (one.new_param(), one.new_param());
    let (x, y) = (other.new_param(), other.new_param());
    let p = one.mul(a, b);
    let q = other.mul(y, x);
    assert_ne!(one, other);
    assert_eq!(params_first(&one, p, &vec![0, 1], 2), params_first(&other, q, &vec![0, 1], 2));

    let mut g = Ssa::new();
    let unit = g.constant(1);
    let z = g.new_param();
    let m = g.mul(unit, z);
    let (c, at) = params_first(&g, m, &vec![0], 1);
    assert_eq!(to_rec_expr(&c, at).to_string(), "(mul p0 1)");
}

#[test]
fn unknown_operands_stay_unknown() {
    let mut g = Ssa::new();
    g.constant(1);
    g.new_param();
    let n = g.neg(Value(70));
    let (c, at) = params_first(&g, n, &vec![0], 1);
    assert_eq!(c.op_of(at), Some(&Op::Neg(Value(70))));
    assert_eq!(params_first(&g, Value(70), &vec![0], 1).1, Value(70));
}
