//! The rewrite systems.

use egg::{RecExpr, SymbolLang};
use ouroboros_dfg::engine::{EggEngine, Verdict};
use ouroboros_dfg::rules::{all_rules, boolean_rules, math_rules, ssa_all_rules, ssa_math_rules};

/// The value of a term as integer arithmetic, truth values being zero and
/// one; an atom that is no numeral is looked up in `env`.
fn value(text: &str, env: &[(&str, i64)]) -> i64 {
    let expr: RecExpr<SymbolLang> = text.parse().unwrap();
    let mut values: Vec<i64> = Vec::new();
    for node in expr.as_ref() {
        let op = node.op.as_str();
        let args: Vec<i64> = node.children.iter().map(|id| values[usize::from(*id)]).collect();
        values.push(match (op, args.as_slice()) {
            ("+", [x, y]) | ("add", [x, y]) => x + y,
            ("*", [x, y]) | ("mul", [x, y]) => x * y,
            ("and", [x, y]) => *x.min(y),
            ("or", [x, y]) => *x.max(y),
            ("not", [x]) => 1 - x,
            (atom, []) => match atom.parse() {
                Ok(n) => n,
                Err(_) => env.iter().find(|e| e.0 == atom).unwrap().1,
            },
            other => panic!("unexpected node {other:?}"),
        });
    }
    values[values.len() - 1]
}

/// Each bidirectional pair is two rewrites, so two pairs and one directed
/// rule are five.
#[test]
fn boolean_rules_expand_de_morgan_pairs_both_ways() {
    let rules = boolean_rules();
    assert_eq!(rules.len(), 5);
    let names: Vec<&str> = rules.iter().map(|r| r.name.as_str()).collect();
    for expected in [
        "de-morgan-not-and",
        "de-morgan-not-and-rev",
        "de-morgan-not-or",
        "de-morgan-not-or-rev",
        "double-negation",
    ] {
        assert!(names.contains(&expected), "missing {expected}: {names:?}");
    }
}

#[test]
fn math_rules_carry_algebraic_identities() {
    let rules = math_rules();
    assert_eq!(rules.len(), 5);
    let names: Vec<&str> = rules.iter().map(|r| r.name.as_str()).collect();
    assert!(names.contains(&"add-zero"), "{names:?}");
    assert!(names.contains(&"mul-one"), "{names:?}");
}

#[test]
fn all_rules_is_exact_disjoint_union() {
    assert_eq!(all_rules().len(), math_rules().len() + boolean_rules().len());
}

/// The spelling of lowered graphs mirrors the arithmetic system rule for
/// rule.
#[test]
fn ssa_math_rules_mirror_math_rules() {
    let rules = ssa_math_rules();
    assert_eq!(rules.len(), 5);
    let names: Vec<&str> = rules.iter().map(|r| r.name.as_str()).collect();
    for expected in [
        "ssa-commute-add",
        "ssa-assoc-add",
        "ssa-assoc-add-flip",
        "ssa-add-zero",
        "ssa-mul-one",
    ] {
        assert!(names.contains(&expected), "missing {expected}: {names:?}");
    }
}

#[test]
fn ssa_all_rules_is_exact_disjoint_union() {
    assert_eq!(ssa_all_rules().len(), ssa_math_rules().len() + boolean_rules().len());
    let math_list = math_rules();
    let ssa_list = ssa_math_rules();
    let math: Vec<&str> = math_list.iter().map(|r| r.name.as_str()).collect();
    let ssa: Vec<&str> = ssa_list.iter().map(|r| r.name.as_str()).collect();
    assert!(math.iter().all(|n| !ssa.contains(n)));
}

/// The sides that the rewrites search for and apply.
#[test]
fn rules_have_the_stated_sides() {
    let sides: Vec<(String, String, String)> = all_rules()
        .iter()
        .map(|r| {
            let lhs = r.searcher.get_pattern_ast().unwrap().to_string();
            let rhs = r.applier.get_pattern_ast().unwrap().to_string();
            (r.name.to_string(), lhs, rhs)
        })
        .collect();
    let expected = [
        ("commute-add", "(+ ?a ?b)", "(+ ?b ?a)"),
        ("assoc-add", "(+ ?a (+ ?b ?c))", "(+ (+ ?a ?b) ?c)"),
        ("assoc-add-flip", "(+ (+ ?a ?b) ?c)", "(+ ?a (+ ?b ?c))"),
        ("add-zero", "(+ ?a 0)", "?a"),
        ("mul-one", "(* ?a 1)", "?a"),
        ("de-morgan-not-and", "(not (and ?a ?b))", "(or (not ?a) (not ?b))"),
        ("de-morgan-not-and-rev", "(or (not ?a) (not ?b))", "(not (and ?a ?b))"),
        ("de-morgan-not-or", "(not (or ?a ?b))", "(and (not ?a) (not ?b))"),
        ("de-morgan-not-or-rev", "(and (not ?a) (not ?b))", "(not (or ?a ?b))"),
        ("double-negation", "(not (not ?a))", "?a"),
    ];
    assert_eq!(sides.len(), expected.len());
    for (i, (name, lhs, rhs)) in expected.iter().enumerate() {
        assert_eq!(sides[i].0, *name);
        assert_eq!(sides[i].1, *lhs);
        assert_eq!(sides[i].2, *rhs);
    }
}

#[test]
fn families_never_lead_into_each_other() {
    for r in all_rules().iter().chain(ssa_all_rules().iter()) {
        let lhs = r.searcher.get_pattern_ast().unwrap().to_string();
        let rhs = r.applier.get_pattern_ast().unwrap().to_string();
        let arithmetic = |s: &str| {
            ["(+", "(*", "(add", "(mul"].iter().any(|op| s.starts_with(op))
        };
        let boolean = |s: &str| ["(and", "(or", "(not"].iter().any(|op| s.starts_with(op));
        assert!(arithmetic(&lhs) != boolean(&lhs));
        assert!(!(arithmetic(&lhs) && boolean(&rhs)));
        assert!(!(boolean(&lhs) && arithmetic(&rhs)));
    }
}

#[test]
fn rules_hold_of_numbers() {
    for r in all_rules().iter().chain(ssa_all_rules().iter()) {
        let lhs = r.searcher.get_pattern_ast().unwrap().to_string();
        let rhs = r.applier.get_pattern_ast().unwrap().to_string();
        for a in -2..3 {
            for b in -2..3 {
                for c in [-7, 0, 4] {
                    let env = [("?a", a), ("?b", b), ("?c", c)];
                    assert_eq!(value(&lhs, &env), value(&rhs, &env), "{}", r.name);
                }
            }
        }
    }
}

#[test]
fn equivalent_terms_have_equal_values() {
    let engine = EggEngine::new();
    let pairs = [
        ("(+ (+ a 0) (* b 1))", "(+ b a)"),
        ("(not (or (not p) (not q)))", "(and p q)"),
        ("(not (and p (not q)))", "(or (not p) q)"),
        ("(+ a (+ b (+ c 0)))", "(+ c (+ a b))"),
    ];
    for (before, after) in pairs {
        let verdict = engine.verify(before, after);
        assert!(matches!(verdict, Verdict::Equivalent { .. }), "{before}");
        for x in [0, 1] {
            for y in [0, 1] {
                let env = [("a", x * 5), ("b", y - 3), ("c", 8), ("p", x), ("q", y)];
                assert_eq!(value(before, &env), value(after, &env), "{before}");
            }
        }
    }
}
