//! Building, checking and evaluating data flow graphs.

use ouroboros_dfg::ssa::{Op, Ssa, SsaError, Value};

/// `%2 = add %0 %1` over two parameters.
#[test]
fn add_params_evaluates() {
    let mut g = Ssa::new();
    let a = g.new_param();
    let b = g.new_param();
    let c = g.add(a, b);
    assert!(g.validate().is_ok());
    assert_eq!(g.evaluate(c, &[2, 3]).unwrap(), 5);
}

#[test]
fn nested_ops_evaluate() {
    let mut g = Ssa::new();
    let p = g.new_param();
    let three = g.constant(3);
    let m = g.mul(p, three);
    let n = g.neg(m);
    assert_eq!(g.evaluate(n, &[4]).unwrap(), -12);
}

#[test]
fn uses_reports_referencing_values() {
    let mut g = Ssa::new();
    let a = g.new_param();
    let c = g.constant(1);
    let s = g.add(a, c);
    let mut u = g.uses(a);
    u.sort_by_key(|v| v.0);
    assert_eq!(u, vec![s]);
    assert!(g.uses(c).contains(&s));
}

#[test]
fn validate_ok_on_well_formed() {
    let mut g = Ssa::new();
    let a = g.new_param();
    let b = g.constant(2);
    g.add(a, b);
    assert!(g.validate().is_ok());
}

#[test]
fn use_before_def_is_rejected() {
    let mut g = Ssa::new();
    let a = g.add(Value(2), Value(3));
    let _x = g.constant(1);
    let _y = g.constant(2);
    let _z = g.constant(3);
    let err = g.validate().unwrap_err();
    assert_eq!(err, SsaError::UseBeforeDef { use_idx: a.0, def_idx: 2 });
}

#[test]
fn unknown_value_is_rejected() {
    let mut g = Ssa::new();
    let a = g.new_param();
    g.add(a, Value(99));
    assert_eq!(g.validate(), Err(SsaError::UnknownValue(99)));
}

#[test]
fn dominance_is_def_before_use() {
    let mut g = Ssa::new();
    let a = g.new_param();
    let s = g.add(a, a);
    assert!(g.dominates(a, s));
    assert!(!g.dominates(s, a));
    assert!(!g.dominates(a, a));
}

#[test]
fn single_assignment_by_construction() {
    let mut g = Ssa::new();
    let a = g.new_param();
    let v1 = g.add(a, a);
    let v2 = g.add(a, a);
    assert_ne!(v1, v2, "every op mints a fresh Value");
    assert_eq!(g.uses(a).len(), 2);
}

#[test]
fn the_first_fault_is_reported() {
    let mut g = Ssa::new();
    g.neg(Value(0));
    g.add(Value(7), Value(8));
    assert_eq!(g.validate(), Err(SsaError::UseBeforeDef { use_idx: 0, def_idx: 0 }));

    let mut h = Ssa::new();
    h.mul(Value(5), Value(0));
    assert_eq!(h.validate(), Err(SsaError::UnknownValue(5)));
}

#[test]
fn error_messages_name_the_registers() {
    let unknown = SsaError::UnknownValue(12);
    let forward = SsaError::UseBeforeDef { use_idx: 3, def_idx: 10 };
    assert_eq!(unknown.to_string(), "unknown value %12");
    assert_eq!(forward.to_string(), "use-before-def: value %3 uses def %10");
}

#[test]
fn missing_arguments_and_unknown_values_are_errors() {
    let mut g = Ssa::new();
    let c = g.constant(1);
    let p = g.new_param();
    let s = g.add(c, p);
    assert_eq!(g.evaluate(s, &[]), Err(SsaError::UnknownValue(1)));
    assert_eq!(g.evaluate(Value(40), &[1, 2]), Err(SsaError::UnknownValue(40)));
}

#[test]
fn arguments_go_by_the_order_of_declaration() {
    let mut g = Ssa::new();
    let x = g.new_param();
    let k = g.constant(100);
    let y = g.new_param();
    let m = g.mul(x, k);
    let out = g.add(m, y);
    assert_eq!(g.evaluate(out, &[3, 7]), Ok(307));
}

#[test]
fn operations_and_parameters_are_told_apart() {
    let mut g = Ssa::default();
    assert!(g.is_empty());
    let p = g.new_param();
    let n = g.neg(p);
    assert_eq!(g.len(), 2);
    assert!(g.is_param(p));
    assert!(!g.is_param(n));
    assert!(!g.is_param(Value(2)));
    assert_eq!(g.op_of(p), None);
    assert_eq!(g.op_of(n), Some(&Op::Neg(p)));
    assert_eq!(g.op_of(Value(2)), None);
    assert_eq!(Op::Mul(p, n).operands(), vec![p, n]);
    assert_eq!(Op::Const(4).operands(), vec![]);
}

#[test]
fn appending_keeps_earlier_values() {
    let mut g = Ssa::new();
    let a = g.new_param();
    let s = g.add(a, a);
    let before = g.evaluate(s, &[21]);
    g.neg(s);
    g.constant(i64::MIN);
    assert_eq!(g.evaluate(s, &[21]), before);
    assert!(g.validate().is_ok());
}

#[test]
fn evaluation_reaches_the_ends_of_the_range() {
    let mut g = Ssa::new();
    let max = g.constant(i64::MAX);
    let neg = g.neg(max);
    let minus_one = g.constant(-1);
    let min = g.add(neg, minus_one);
    assert_eq!(g.evaluate(min, &[]), Ok(i64::MIN));
}

#[test]
fn dominance_is_use_on_valid_graphs() {
    let mut g = Ssa::new();
    let a = g.new_param();
    let b = g.constant(3);
    let s = g.add(a, b);
    let m = g.mul(s, a);
    assert!(g.validate().is_ok());
    for x in [a, b, s, m] {
        for y in [a, b, s, m] {
            assert_eq!(g.dominates(x, y), g.uses(x).contains(&y));
        }
    }
}

#[test]
fn evaluation_is_deterministic_and_reads_parameters_only() {
    let mut g = Ssa::new();
    let a = g.new_param();
    let _unused = g.new_param();
    let n = g.neg(a);
    assert_eq!(g.evaluate(n, &[6, 1]), g.evaluate(n, &[6, 1]));
    assert_eq!(g.evaluate(n, &[6, 1]), g.evaluate(n, &[6, 99, 7]));
}

#[test]
fn clones_are_equal() {
    let mut g = Ssa::new();
    let a = g.new_param();
    g.neg(a);
    let h = g.clone();
    assert_eq!(g, h);
    g.constant(1);
    assert_ne!(g, h);
    assert_eq!(Op::Add(a, a).clone(), Op::Add(a, a));
}
