//! Lowering of Python sources.

use ouroboros_dfg::frontend_python::{lower, lower_module, lower_tree};
use ouroboros_dfg::python_syntax::{parse_module, Module, Syntax};
use ouroboros_dfg::ssa::{Op, Value};

#[test]
fn assign_add_literal_lowers_and_evaluates() {
    let l = lower_module("x = 1 + 2").unwrap();
    let x = l.value_of("x").expect("x bound");
    l.ssa.validate().unwrap();
    assert_eq!(l.ssa.evaluate(x, &[]).unwrap(), 3);
    assert_eq!(l.last, None);
}

#[test]
fn assigned_names_are_not_params() {
    let l = lower_module("a = 2\nb = a * 3").unwrap();
    let b = l.value_of("b").unwrap();
    assert_eq!(l.ssa.evaluate(b, &[]).unwrap(), 6);
    assert!(!l.ssa.is_param(b));
    if let Some(Op::Mul(a, c)) = l.ssa.op_of(b) {
        assert_eq!(l.ssa.evaluate(*a, &[]).unwrap(), 2);
        assert_eq!(l.ssa.op_of(*c), Some(&Op::Const(3)));
    } else {
        panic!("b should be a mul");
    }
}

#[test]
fn rebind_mints_fresh_ssa_value() {
    let l = lower_module("x = 1\nx = x + 1").unwrap();
    l.ssa.validate().unwrap();
    let x2 = l.value_of("x").unwrap();
    assert_ne!(x2, Value(0));
    assert_eq!(l.ssa.op_of(Value(0)), Some(&Op::Const(1)));
    assert_eq!(l.ssa.op_of(x2), Some(&Op::Add(Value(0), Value(1))));
    assert_eq!(l.ssa.evaluate(x2, &[]).unwrap(), 2);
}

#[test]
fn function_def_is_unsupported() {
    let e = lower("def f():\n  pass").unwrap_err();
    assert!(e.message.contains("unsupported"), "got: {}", e.to_string());
    assert!(e.message.contains("function_definition"));
}

#[test]
fn unary_minus_over_param_addition() {
    let l = lower_module("y = -(x + 2)").unwrap();
    l.ssa.validate().unwrap();
    let y = l.value_of("y").unwrap();
    let (px, c2) = match l.ssa.op_of(y) {
        Some(Op::Neg(inner)) => match l.ssa.op_of(*inner) {
            Some(Op::Add(a, b)) => (*a, *b),
            other => panic!("inner should be add, got {other:?}"),
        },
        other => panic!("y should be neg, got {other:?}"),
    };
    assert!(l.ssa.is_param(px));
    assert_eq!(l.ssa.op_of(c2), Some(&Op::Const(2)));
    assert_eq!(l.ssa.evaluate(y, &[5]).unwrap(), -7);
}

#[test]
fn binary_minus_desugars_to_add_neg() {
    let l = lower_module("z = a - b").unwrap();
    let z = l.value_of("z").unwrap();
    l.ssa.validate().unwrap();
    assert_eq!(l.ssa.evaluate(z, &[10, 3]).unwrap(), 7);
}

#[test]
fn parenthesized_grouping_respected() {
    let l = lower_module("r = (1 + 2) * 3").unwrap();
    let r = l.value_of("r").unwrap();
    assert_eq!(l.ssa.evaluate(r, &[]).unwrap(), 9);
}

#[test]
fn last_tracks_final_expression_statement() {
    let l = lower_module("x = 5\nx + 1").unwrap();
    let last = l.last.expect("expression statement present");
    assert_eq!(l.ssa.evaluate(last, &[]).unwrap(), 6);
    assert_eq!(l.value_of("x").is_some(), true);

    let none = lower_module("x = 5").unwrap();
    assert_eq!(none.last, None);
}

#[test]
fn repeated_unknown_name_is_one_param() {
    let l = lower_module("y = q + q").unwrap();
    let y = l.value_of("y").unwrap();
    match l.ssa.op_of(y) {
        Some(Op::Add(a, b)) => {
            assert_eq!(a, b, "both occurrences reuse the same param");
            assert!(l.ssa.is_param(*a));
        }
        other => panic!("expected add, got {other:?}"),
    }
    assert_eq!(l.ssa.evaluate(y, &[4]).unwrap(), 8);
}

#[test]
fn underscored_integer_literal() {
    let l = lower_module("n = 1_000").unwrap();
    let n = l.value_of("n").unwrap();
    assert_eq!(l.ssa.op_of(n), Some(&Op::Const(1000)));
}

#[test]
fn unsupported_expressions_fail_loudly() {
    for src in [
        "s = \"hello\"",
        "f = 1.5",
        "x = 1\nx += 2",
        "a = b = 1",
        "if x:\n  pass",
        "import os",
        "x = 1 // 2",
        "x = ~y",
    ] {
        let e = lower(src).unwrap_err();
        assert!(
            e.message.contains("unsupported")
                || e.message.contains("syntax error"),
            "{src:?}: unexpected error: {}",
                e.to_string()
        );
    }
}

#[test]
fn syntax_error_is_reported() {
    let e = lower("x = ").unwrap_err();
    assert!(e.message.contains("syntax error"), "got: {}", e.to_string());
    assert!(e.to_string().starts_with("python frontend:"));
}

#[test]
fn lower_convenience_matches_lower_module_graph() {
    let g = lower("w = 2 * (3 + 4)").unwrap();
    let l = lower_module("w = 2 * (3 + 4)").unwrap();
    assert_eq!(g, l.ssa);
    assert_eq!(g.validate(), Ok(()));
    let w = l.value_of("w").unwrap();
    assert_eq!(g.evaluate(w, &[]).unwrap(), 14);
}

fn module(statements: Vec<Syntax>) -> Module {
    Module { has_error: false, kind: "module".to_string(), start_byte: 0, statements }
}

fn name(text: &str) -> Syntax {
    Syntax::Identifier { text: Ok(text.to_string()) }
}

fn number(text: &str) -> Syntax {
    Syntax::Integer { text: Ok(text.to_string()) }
}

fn binary(left: Syntax, operator: &str, right: Syntax) -> Syntax {
    Syntax::Binary {
        parts: 3,
        left: Some(Box::new(left)),
        operator: Some(operator.to_string()),
        right: Some(Box::new(right)),
    }
}

fn assignment(left: Syntax, right: Syntax) -> Syntax {
    Syntax::Assignment {
        parts: 3,
        annotated: false,
        left: Some(Box::new(left)),
        right: Some(Box::new(right)),
    }
}

fn statement(children: Vec<Syntax>) -> Syntax {
    Syntax::ExpressionStatement { start_byte: 4, parts: children.len(), children }
}

fn refusal(m: &Module) -> String {
    lower_tree(m).unwrap_err().message
}

#[test]
fn sources_are_parsed_into_plain_trees() {
    let m = parse_module("y = -(x + 2)").unwrap().unwrap();
    let sum = binary(name("x"), "+", number("2"));
    let grouped = Syntax::Parenthesized { start_byte: 5, parts: 3, children: vec![sum] };
    let negated = Syntax::Unary {
        parts: 2,
        argument: Some(Box::new(grouped)),
        operator: Some("-".to_string()),
    };
    let stmt = Syntax::ExpressionStatement {
        start_byte: 0,
        parts: 1,
        children: vec![assignment(name("y"), negated)],
    };
    assert_eq!(m, module(vec![stmt]));
    assert!(parse_module("x = ").unwrap().unwrap().has_error);
    let other = parse_module("import os").unwrap().unwrap();
    assert_eq!(other.statements, vec![Syntax::Other { kind: "import_statement".to_string() }]);
}

#[test]
fn names_may_hold_any_letters() {
    let l = lower_module("größe = 3\nπ = größe * größe").unwrap();
    let v = l.value_of("π").unwrap();
    assert_eq!(l.ssa.evaluate(v, &[]), Ok(9));
    assert_eq!(l.value_of("gr"), None);
}

#[test]
fn plain_trees_are_lowered_exactly() {
    let m = module(vec![
        statement(vec![assignment(name("a"), binary(name("x"), "-", number("1_0")))]),
        assignment(name("x"), number("3")),
        statement(vec![binary(name("a"), "*", name("x"))]),
    ]);
    let l = lower_tree(&m).unwrap();
    assert_eq!(l.ssa.len(), 6);
    assert!(l.ssa.is_param(Value(0)));
    assert_eq!(l.ssa.op_of(Value(1)), Some(&Op::Const(10)));
    assert_eq!(l.ssa.op_of(Value(2)), Some(&Op::Neg(Value(1))));
    assert_eq!(l.ssa.op_of(Value(3)), Some(&Op::Add(Value(0), Value(2))));
    assert_eq!(l.ssa.op_of(Value(4)), Some(&Op::Const(3)));
    assert_eq!(l.ssa.op_of(Value(5)), Some(&Op::Mul(Value(3), Value(4))));
    assert_eq!(l.value_of("a"), Some(Value(3)));
    assert_eq!(l.value_of("x"), Some(Value(4)));
    assert_eq!(l.value_of("q"), None);
    assert_eq!(l.last, Some(Value(5)));
    assert!(l.ssa.validate().is_ok());
}

#[test]
fn modules_with_errors_are_refused_first() {
    let mut m = module(vec![Syntax::Other { kind: "pass_statement".to_string() }]);
    m.start_byte = 12;
    m.has_error = true;
    assert_eq!(
        refusal(&m),
        "syntax error at byte 12 (input is outside the supported subset)"
    );
    m.has_error = false;
    m.kind = "ERROR".to_string();
    assert_eq!(refusal(&m), "unsupported construct: expected a module, found `ERROR`");
    m.kind = "module".to_string();
    assert_eq!(
        refusal(&m),
        "unsupported construct `pass_statement` (supported: assignments, integer arithmetic \
         with + - *, unary minus, parentheses)"
    );
}

#[test]
fn crowded_wrappers_are_refused() {
    let none = module(vec![statement(vec![])]);
    assert_eq!(
        refusal(&none),
        "unsupported construct `expression_statement` with 0 sub-expressions near byte 4 \
         (expected exactly one)"
    );
    let grouped = Syntax::Parenthesized {
        start_byte: 17,
        parts: 5,
        children: vec![name("a"), name("b")],
    };
    assert_eq!(
        refusal(&module(vec![statement(vec![grouped])])),
        "unsupported construct `parenthesized_expression` with 2 sub-expressions near byte 17 \
         (expected exactly one)"
    );
    assert_eq!(lower("1, 2").unwrap_err().message.contains("2 sub-expressions"), true);
}

#[test]
fn assignments_have_their_complaints() {
    let no_left = Syntax::Assignment {
        parts: 2,
        annotated: false,
        left: None,
        right: Some(Box::new(number("1"))),
    };
    assert_eq!(refusal(&module(vec![no_left])), "malformed assignment: missing `left`");
    let no_right = Syntax::Assignment {
        parts: 2,
        annotated: false,
        left: Some(Box::new(name("a"))),
        right: None,
    };
    assert_eq!(refusal(&module(vec![no_right])), "malformed assignment: missing `right`");
    let target = assignment(number("1"), number("2"));
    assert_eq!(
        refusal(&module(vec![target])),
        "unsupported assignment target `integer` (only plain names)"
    );
    let chained = assignment(name("a"), assignment(name("b"), number("1")));
    assert_eq!(
        refusal(&module(vec![chained])),
        "unsupported construct: chained/augmented assignment (`assignment`)"
    );
    let unreadable = Syntax::Identifier { text: Err("bad byte".to_string()) };
    assert_eq!(
        refusal(&module(vec![assignment(unreadable, number("1"))])),
        "invalid identifier encoding: bad byte"
    );
    let augmented = Syntax::Other { kind: "augmented_assignment".to_string() };
    assert_eq!(
        refusal(&module(vec![statement(vec![augmented])])),
        "unsupported construct: augmented assignment (`+=` etc.; supported: plain `=` only)"
    );
}

#[test]
fn annotations_are_refused() {
    let refused =
        "unsupported construct: annotated assignment (supported: plain `name = expr` only)";
    for src in ["x: int", "x: int = 1", "x: (y := 5) = 1", "y = 2\nx: int = y"] {
        assert_eq!(lower(src).unwrap_err().message, refused, "{src}");
    }
    let annotated = Syntax::Assignment {
        parts: 5,
        annotated: true,
        left: Some(Box::new(name("x"))),
        right: Some(Box::new(number("1"))),
    };
    assert_eq!(refusal(&module(vec![statement(vec![annotated])])), refused);
}

#[test]
fn nothing_is_dropped_in_silence() {
    for src in [
        "x = 1 # note",
        "# note",
        "x = (1 +  # note\n 2)",
        "x = (  # note\n 1)",
        "a,",
        "x = 1,",
        "x = -(  # note\n a)",
    ] {
        let e = lower(src).unwrap_err();
        assert!(e.message.contains("unsupported"), "{src}: {}", e.message);
    }
    let comma = module(vec![Syntax::ExpressionStatement {
        start_byte: 0,
        parts: 2,
        children: vec![name("a")],
    }]);
    assert_eq!(
        refusal(&comma),
        "unsupported construct `expression_statement` with 2 parts (expected 1: comments \
         and stray commas are not supported)"
    );
    assert_eq!(lower_module("x = 1; y = x").unwrap().value_of("y"), Some(Value(0)));
}

/// A backslash at the end of a line is layout inside an assignment or an
/// operation. Where it stands beside the one expression of a wrapper, or
/// beside the statements, it is refused.
#[test]
fn lines_may_be_continued() {
    let plain = lower("x = a + 1").unwrap();
    for src in [
        "x = a \\\n + 1",
        "x = a + \\\n 1",
        "x = \\\n a + 1",
        "x \\\n = a + 1",
        "x = a \\\r\n + \\\n 1",
    ] {
        assert_eq!(lower(src).unwrap(), plain, "{src}");
    }
    assert_eq!(lower("x = - \\\n a").unwrap(), lower("x = -a").unwrap());
    assert_eq!(lower("x = (a \\\n * b)").unwrap(), lower("x = (a * b)").unwrap());
    for src in ["x = (\\\n a)", "x = a + \\\n (1  # note\n + 2)", "x: \\\n int = 1"] {
        let e = lower(src).unwrap_err();
        assert!(e.message.contains("unsupported"), "{src}: {}", e.message);
    }
}

#[test]
fn inputs_are_kept_by_name() {
    let l = lower_module("x = b + a\nb = 2\ny = b + c").unwrap();
    assert_eq!(l.inputs, vec!["b".to_string(), "a".to_string(), "c".to_string()]);
    assert_eq!(l.assigned, l.value_of("y"));
    assert_eq!(l.last, None);
    assert_eq!(lower_module("a\nb = a").unwrap().assigned, Some(Value(0)));
    assert_eq!(lower_module("a").unwrap().assigned, None);
}

/// A name has a value exactly if it is assigned or read, and the last
/// assignment decides.
#[test]
fn the_last_assignment_decides() {
    let l = lower_module("x = 1\nx = 2\nz = y\nx + z").unwrap();
    assert_eq!(l.ssa.op_of(l.value_of("x").unwrap()), Some(&Op::Const(2)));
    assert!(l.ssa.is_param(l.value_of("y").unwrap()));
    assert_eq!(l.value_of("z"), l.value_of("y"));
    assert_eq!(l.value_of("w"), None);
}

#[test]
fn expressions_have_their_complaints() {
    let bare = |s: Syntax| refusal(&module(vec![statement(vec![s])]));
    assert_eq!(
        bare(Syntax::Integer { text: Err("bad byte".to_string()) }),
        "invalid integer literal encoding: bad byte"
    );
    assert_eq!(
        bare(Syntax::Identifier { text: Err("bad byte".to_string()) }),
        "invalid identifier encoding: bad byte"
    );
    let some = || Some(Box::new(name("a")));
    let op = || Some("+".to_string());
    assert_eq!(
        bare(Syntax::Binary { parts: 0, left: None, operator: None, right: None }),
        "malformed binary_operator: missing `left`"
    );
    assert_eq!(
        bare(Syntax::Binary { parts: 1, left: some(), operator: None, right: None }),
        "malformed binary_operator: missing `operator`"
    );
    assert_eq!(
        bare(Syntax::Binary { parts: 2, left: some(), operator: op(), right: None }),
        "malformed binary_operator: missing `right`"
    );
    assert_eq!(
        bare(Syntax::Unary { parts: 0, argument: None, operator: None }),
        "malformed unary_operator: missing `argument`"
    );
    assert_eq!(
        bare(Syntax::Unary { parts: 1, argument: some(), operator: None }),
        "malformed unary_operator: missing `operator`"
    );
    assert_eq!(
        bare(binary(name("a"), "//", name("b"))),
        "unsupported binary operator `//` (supported: + - *)"
    );
    assert_eq!(
        bare(Syntax::Unary { parts: 2, argument: some(), operator: Some("~".to_string()) }),
        "unsupported unary operator `~` (supported: -)"
    );
    assert_eq!(
        bare(Syntax::Other { kind: "string".to_string() }),
        "unsupported construct `string` in expression position (supported: integers, names, \
         parentheses, + - *, unary -)"
    );
}

#[test]
fn operands_complain_before_operators() {
    let float = Syntax::Other { kind: "float".to_string() };
    let m = module(vec![statement(vec![binary(name("a"), "//", float)])]);
    assert!(refusal(&m).contains("`float`"));
}

#[test]
fn literals_keep_to_the_range() {
    let top = lower_module("n = 9_223_372_036_854_775_807").unwrap();
    assert_eq!(top.ssa.op_of(Value(0)), Some(&Op::Const(i64::MAX)));
    for src in ["9223372036854775808", "0xFFFF_FFFF_FFFF_FFFF", "99999999999999999999999999"] {
        let e = lower(src).unwrap_err();
        assert_eq!(e.message, format!("integer literal `{src}` out of i64 range"));
    }
    let signed = module(vec![statement(vec![number("-9223372036854775808")])]);
    let l = lower_tree(&signed).unwrap();
    assert_eq!(l.ssa.op_of(Value(0)), Some(&Op::Const(i64::MIN)));
    for text in ["", "_", "+", "-", "1-", "--1"] {
        let m = module(vec![statement(vec![number(text)])]);
        assert_eq!(
            refusal(&m),
            format!(
                "unsupported construct: integer literal `{text}` (supported: decimal, \
                 hexadecimal, octal and binary digits)"
            )
        );
    }
    let plus = module(vec![statement(vec![number("+_7")])]);
    assert_eq!(lower_tree(&plus).unwrap().ssa.op_of(Value(0)), Some(&Op::Const(7)));
}

#[test]
fn literals_may_be_written_in_other_bases() {
    for (text, n) in [
        ("0x10", 16),
        ("0X_ff", 255),
        ("0xFFFF_FFFF", 4_294_967_295),
        ("0o17", 15),
        ("0O7_7", 63),
        ("0b101", 5),
        ("0B1111_0000", 240),
        ("0x7fff_ffff_ffff_ffff", i64::MAX),
        ("0", 0),
    ] {
        let l = lower_module(&format!("x = {text}")).unwrap();
        assert_eq!(l.ssa.op_of(l.value_of("x").unwrap()), Some(&Op::Const(n)), "{text}");
    }
    for text in ["1j", "10L", "0x", "0b2", "0o8", "-0x10", "1e5"] {
        let m = module(vec![statement(vec![number(text)])]);
        assert!(refusal(&m).contains("unsupported"), "{text}");
    }
    assert!(lower("x = 1j").unwrap_err().message.contains("unsupported"));
}

#[test]
fn unary_plus_is_the_identity() {
    let l = lower_module("+a").unwrap();
    assert_eq!(l.last, Some(Value(0)));
    assert_eq!(l.ssa.len(), 1);
}

#[test]
fn lowering_preserves_meaning() {
    let l = lower_module("s = a + 2 * b\na = s - b\ns = -(a * a)\na + s").unwrap();
    assert!(l.ssa.validate().is_ok());
    for (a, b) in [(1i64, 2i64), (-4, 9), (0, 0)] {
        let s1 = a + 2 * b;
        let a1 = s1 - b;
        let s2 = -(a1 * a1);
        let args = [a, b];
        assert_eq!(l.ssa.evaluate(l.value_of("a").unwrap(), &args), Ok(a1));
        assert_eq!(l.ssa.evaluate(l.value_of("s").unwrap(), &args), Ok(s2));
        assert_eq!(l.ssa.evaluate(l.last.unwrap(), &args), Ok(a1 + s2));
    }
}

#[test]
fn statements_only_add_to_the_graph() {
    let short = lower("x = a + 1").unwrap();
    let long = lower("x = a + 1\nx = x * x").unwrap();
    for i in 0..short.len() as u32 {
        assert_eq!(short.op_of(Value(i)), long.op_of(Value(i)));
        assert_eq!(short.is_param(Value(i)), long.is_param(Value(i)));
    }
}
