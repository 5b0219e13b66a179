use vibelang::ast::{Declaration, Expr, Stmt};
use vibelang::diagnostics::Severity;
use vibelang::parser::parse_source;

fn error_codes(src: &str) -> Vec<String> {
    parse_source(src)
        .diagnostics
        .sorted()
        .iter()
        .filter(|d| d.severity == Severity::Error)
        .map(|d| d.code.clone())
        .collect()
}

#[test]
fn parses_basic_function() {
    let src = r#"
topK(xs, k) {
  @intent "k largest"
  @ensure len(.) > 0
  xs.sort_desc().take(k)
}
"#;
    let out = parse_source(src);
    assert!(!out.ast.declarations.is_empty());
    assert!(!out.diagnostics.has_errors(), "{}", out.diagnostics.to_golden());
}

#[test]
fn parses_generic_function_decl() {
    let src = r#"identity<T>(x: T) -> T { x }"#;
    let out = parse_source(src);
    assert!(!out.diagnostics.has_errors(), "{}", out.diagnostics.to_golden());
    match &out.ast.declarations[0] {
        Declaration::Function(f) => {
            assert_eq!(f.type_params, vec!["T".to_string()]);
            assert_eq!(f.name, "identity");
        }
        _ => panic!("expected function decl"),
    }
}

#[test]
fn parses_break_and_continue_statements() {
    let src = r#"
main() -> Int {
  i := 0
  while i < 10 {
    i = i + 1
    if i == 3 {
      continue
    } else {
      if i == 8 {
        break
      }
    }
  }
  return i
}
"#;
    let out = parse_source(src);
    assert!(!out.diagnostics.has_errors(), "{}", out.diagnostics.to_golden());
}

#[test]
fn parses_i64_max_int_literal() {
    let src = "main() -> Int {\n  x := 9223372036854775807\n  x\n}\n";
    let out = parse_source(src);
    assert!(!out.diagnostics.has_errors(), "{}", out.diagnostics.to_golden());
    let func = match &out.ast.declarations[0] {
        Declaration::Function(f) => f,
        _ => panic!("expected function decl"),
    };
    let expr = match &func.body[0] {
        Stmt::Binding { expr, .. } => expr,
        _ => panic!("expected binding statement"),
    };
    match expr {
        Expr::Int { value, .. } => assert_eq!(*value, i64::MAX),
        _ => panic!("expected int literal"),
    }
}

#[test]
fn rejects_int_literal_above_i64_max() {
    let src = "main() -> Int {\n  x := 9223372036854775808\n  0\n}\n";
    let out = parse_source(src);
    let errors: Vec<_> = out.diagnostics.as_slice().iter().filter(|d| d.code == "E1414").collect();
    assert_eq!(errors.len(), 1, "{}", out.diagnostics.to_golden());
    let diag = errors[0];
    assert_eq!(diag.severity, Severity::Error);
    assert_eq!(diag.message, "integer literal out of range for Int");
    assert_eq!(
        (diag.span.line_start, diag.span.col_start, diag.span.line_end, diag.span.col_end),
        (2, 8, 2, 26),
        "diagnostic should span the literal token"
    );
}

#[test]
fn rejects_i64_min_written_as_negative_literal() {
    let src = "main() -> Int {\n  x := -9223372036854775808\n  0\n}\n";
    let out = parse_source(src);
    assert!(
        out.diagnostics.as_slice().iter().any(|d| d.code == "E1414"),
        "{}",
        out.diagnostics.to_golden()
    );
}

#[test]
fn rejects_thirty_digit_int_literal() {
    let src = "main() -> Int {\n  x := 999999999999999999999999999999\n  0\n}\n";
    let out = parse_source(src);
    let errors: Vec<_> = out.diagnostics.as_slice().iter().filter(|d| d.code == "E1414").collect();
    assert_eq!(errors.len(), 1, "{}", out.diagnostics.to_golden());
}

fn next_u32(seed: &mut u64) -> u32 {
    let mut x = *seed;
    x ^= x << 13;
    x ^= x >> 7;
    x ^= x << 17;
    *seed = x;
    (x >> 16) as u32
}

#[test]
fn lexer_parser_fuzz_smoke_does_not_panic() {
    let mut seed: u64 = 0xDEADBEEFCAFEBABE;
    for _ in 0..400 {
        let mut s = String::new();
        let len = (next_u32(&mut seed) % 220) as usize;
        for _ in 0..len {
            let c = match next_u32(&mut seed) % 16 {
                0 => '{',
                1 => '}',
                2 => '(',
                3 => ')',
                4 => '[',
                5 => ']',
                6 => '@',
                7 => ':',
                8 => '=',
                9 => '.',
                10 => ',',
                11 => '\n',
                12 => '"',
                13 => (b'a' + (next_u32(&mut seed) % 26) as u8) as char,
                14 => (b'0' + (next_u32(&mut seed) % 10) as u8) as char,
                _ => ' ',
            };
            s.push(c);
        }
        let _ = parse_source(&s);
    }
}

#[test]
fn reports_multiple_errors_in_single_pass() {
    let src = r#"
broken( {
  @examples {
    broken([1]) [1]
  }
  x :=
}
"#;
    let out = parse_source(src);
    let errors = out.diagnostics.as_slice().iter().filter(|d| d.severity == Severity::Error).count();
    assert!(errors >= 2, "expected multiple parse errors, got {errors}");
}

#[test]
fn mut_binding_parses_without_errors() {
    let out = parse_source("pub main() -> Int {\n  mut x := 1\n  x\n}\n");
    assert!(!out.diagnostics.has_errors(), "unexpected diagnostics:\n{}", out.diagnostics.to_golden());
    let Declaration::Function(func) = &out.ast.declarations[0] else {
        panic!("expected a function declaration");
    };
    assert!(matches!(
        &func.body[0],
        Stmt::Binding { name, is_mut: true, .. } if name == "x"
    ));
}

#[test]
fn mut_is_reserved_and_cannot_be_used_as_an_identifier() {
    assert_eq!(error_codes("pub main() -> Int {\n  mut := 1\n  0\n}\n"), vec!["E1213"]);
}

#[test]
fn mut_before_a_reassignment_is_rejected() {
    assert_eq!(error_codes("pub main() -> Int {\n  x := 1\n  mut x = 2\n  x\n}\n"), vec!["E1213"]);
}

#[test]
fn bare_mut_in_statement_position_is_rejected() {
    let codes = error_codes("pub main() -> Int {\n  c := 1\n  mut c\n  0\n}\n");
    assert_eq!(codes, vec!["E1213"]);
}

#[test]
fn mut_in_argument_position_is_rejected_without_a_cascade() {
    let codes = error_codes(
        "pub g(n: Int) -> Int {\n  n\n}\n\npub main() -> Int {\n  c := 1\n  g(mut c)\n}\n",
    );
    assert_eq!(codes, vec!["E1213"]);

    let out = parse_source(
        "pub g(n: Int) -> Int {\n  n\n}\n\npub main() -> Int {\n  c := 1\n  g(mut c)\n}\n",
    );
    let Declaration::Function(main) = &out.ast.declarations[1] else {
        panic!("expected a function declaration");
    };
    let tail = main.tail_expr.as_ref().expect("tail expression");
    let Expr::Call { args, .. } = tail else {
        panic!("expected the call to survive recovery, got {tail:?}");
    };
    assert!(
        matches!(&args[..], [Expr::Ident { name, .. }] if name == "c"),
        "argument recovered as the bare operand: {args:?}"
    );
}

#[test]
fn type_annotated_local_binding_says_so() {
    let out = parse_source("pub main() -> Int {\n  mut result: List<Int> := []\n  0\n}\n");
    let first = out
        .diagnostics
        .sorted()
        .into_iter()
        .find(|d| d.code == "E1213")
        .expect("E1213 reported");
    assert_eq!(
        first.message,
        "type-annotated local bindings are not supported yet: write `mut name := expr` and annotate the value instead"
    );
    let other = parse_source("pub main() -> Int {\n  x := 1\n  mut x = 2\n  x\n}\n");
    let generic = other
        .diagnostics
        .sorted()
        .into_iter()
        .find(|d| d.code == "E1213")
        .expect("E1213 reported");
    assert_eq!(generic.message, "`mut` must introduce a binding: write `mut name := expr`");
}

#[test]
fn mut_parameter_parses_and_is_flagged() {
    let out = parse_source("pub f(mut a: Int, b: Int) -> Int {\n  a\n}\n");
    assert!(!out.diagnostics.has_errors(), "unexpected diagnostics:\n{}", out.diagnostics.to_golden());
    let Declaration::Function(func) = &out.ast.declarations[0] else {
        panic!("expected a function declaration");
    };
    assert_eq!(
        func.params.iter().map(|p| (p.name.as_str(), p.is_mut)).collect::<Vec<_>>(),
        vec![("a", true), ("b", false)]
    );
    assert_eq!(func.params[0].span.line_start, 1);
    assert_eq!(func.params[0].span.col_start, 11, "param span points at the name, not at `mut`");
}

#[test]
fn mut_function_literal_parameter_parses() {
    let out = parse_source(
        "pub main() -> Int {\n  f := fn (mut a: Int) -> Int {\n    a = a + 1\n    a\n  }\n  f(1)\n}\n",
    );
    assert!(!out.diagnostics.has_errors(), "unexpected diagnostics:\n{}", out.diagnostics.to_golden());
}

#[test]
fn declarations_contracts_and_statements_are_read() {
    let src = "module app.core\nimport std.io\n\npub type Point { x: Int, y: Int }\nenum Shape { Circle { r: Int }, Empty }\n\nsum(xs: List<Int>) -> Int {\n  @intent \"add\"\n  @effect alloc\n  @examples {\n    sum([1, 2]) => 3\n  }\n  total := 0\n  for x in xs {\n    total = total + x\n  }\n  select {\n    case v := ch.recv() => v\n    case after 10 => 0\n  }\n  match total {\n    case 0 => 1\n    default => 2\n  }\n  total\n}\n";
    let out = parse_source(src);
    assert_eq!(out.ast.module.as_deref(), Some("app.core"));
    assert_eq!(out.ast.imports, vec!["std.io".to_string()]);
    assert_eq!(out.ast.declarations.len(), 3);
    match &out.ast.declarations[0] {
        Declaration::Type(t) => {
            assert!(t.is_public);
            assert_eq!(t.fields.iter().map(|f| f.ty.raw.clone()).collect::<Vec<_>>(), vec!["Int", "Int"]);
        }
        _ => panic!("expected a type"),
    }
    match &out.ast.declarations[1] {
        Declaration::Enum(e) => assert_eq!(e.variants.len(), 2),
        _ => panic!("expected an enum"),
    }
    let Declaration::Function(f) = &out.ast.declarations[2] else {
        panic!("expected a function");
    };
    assert_eq!(f.contracts.len(), 3);
    assert_eq!(f.return_type.as_ref().map(|t| t.raw.clone()), Some("Int".to_string()));
    assert_eq!(f.params[0].ty.as_ref().map(|t| t.raw.clone()), Some("List < Int >".to_string()));
    assert_eq!(f.body.len(), 4);
    assert!(matches!(f.tail_expr, Some(Expr::Ident { .. })));
    let codes: Vec<String> = out.diagnostics.as_slice().iter().map(|d| d.code.clone()).collect();
    assert!(codes.is_empty(), "{:?}", codes);
}

#[test]
fn binary_operators_bind_by_precedence() {
    let out = parse_source("f() -> Int {\n  a + b * c || d\n}\n");
    assert!(!out.diagnostics.has_errors(), "{}", out.diagnostics.to_golden());
    let Declaration::Function(f) = &out.ast.declarations[0] else {
        panic!("expected a function");
    };
    let Some(Expr::Binary { op, left, .. }) = &f.tail_expr else {
        panic!("expected a binary tail");
    };
    assert_eq!(*op, vibelang::hir::BinaryOp::Or);
    let Expr::Binary { op, right, .. } = left.as_ref() else {
        panic!("expected `a + b * c` on the left");
    };
    assert_eq!(*op, vibelang::hir::BinaryOp::Add);
    assert!(matches!(right.as_ref(), Expr::Binary { op: vibelang::hir::BinaryOp::Mul, .. }));
}

fn nested_expr_src(open: &str, close: &str, atom: &str, n: usize) -> String {
    format!("main() {{\n  v := {}{}{}\n  v\n}}\n", open.repeat(n), atom, close.repeat(n))
}

fn nesting_shapes() -> [(&'static str, &'static str, &'static str); 3] {
    [("(", ")", "1"), ("[", "]", "1"), ("{1: ", "}", "0")]
}

const MAX_EXPR_NESTING_DEPTH: usize = 256;

#[test]
fn accepts_expression_nesting_below_limit() {
    for (open, close, atom) in nesting_shapes() {
        let src = nested_expr_src(open, close, atom, MAX_EXPR_NESTING_DEPTH - 1);
        let out = parse_source(&src);
        assert!(
            !out.diagnostics.has_errors(),
            "shape {open}...{close} at limit-1 should parse cleanly:\n{}",
            out.diagnostics.to_golden()
        );
    }
}

#[test]
fn rejects_expression_nesting_at_limit_with_single_error() {
    for (open, close, atom) in nesting_shapes() {
        let src = nested_expr_src(open, close, atom, MAX_EXPR_NESTING_DEPTH);
        let out = parse_source(&src);
        let diags = out.diagnostics.as_slice();
        assert_eq!(
            diags.len(),
            1,
            "shape {open}...{close} at limit should report exactly one diagnostic:\n{}",
            out.diagnostics.to_golden()
        );
        assert_eq!(diags[0].code, "E1415");
        assert_eq!(diags[0].severity, Severity::Error);
        assert!(diags[0].message.contains("expression nesting too deep"));
        assert_eq!(diags[0].span.line_start, 2, "span should be inside the expression");
    }
}

#[test]
fn five_thousand_deep_nesting_reports_single_error() {
    for (open, close, atom) in nesting_shapes() {
        let src = nested_expr_src(open, close, atom, 5000);
        let out = parse_source(&src);
        let diags = out.diagnostics.as_slice();
        assert_eq!(
            diags.len(),
            1,
            "shape {open}...{close} at 5000 deep should report exactly one diagnostic:\n{}",
            out.diagnostics.to_golden()
        );
        assert_eq!(diags[0].code, "E1415");
        assert_eq!(out.ast.declarations.len(), 1, "main() should still be parsed");
    }
}

#[test]
fn deep_unary_chain_reports_single_error() {
    let src = format!("main() {{\n  v := {}1\n  v\n}}\n", "-".repeat(5000));
    let out = parse_source(&src);
    let diags = out.diagnostics.as_slice();
    assert_eq!(diags.len(), 1, "{}", out.diagnostics.to_golden());
    assert_eq!(diags[0].code, "E1415");
}

#[test]
fn unbalanced_deep_nesting_reports_depth_error_without_crash() {
    let src = format!("main() {{\n  v := {}1\n  v\n}}\n", "(".repeat(5000));
    let out = parse_source(&src);
    let diags = out.diagnostics.as_slice();
    assert_eq!(diags[0].code, "E1415", "{}", out.diagnostics.to_golden());
    assert!(diags.len() <= 2, "unwind must not cascade:\n{}", out.diagnostics.to_golden());
}

#[test]
fn parsing_recovers_after_nesting_overflow() {
    let deep = nested_expr_src("(", ")", "1", MAX_EXPR_NESTING_DEPTH);
    let src = format!("{deep}b() {{\n  w := 1 +\n  w\n}}\n");
    let out = parse_source(&src);
    let codes: Vec<&str> = out.diagnostics.as_slice().iter().map(|d| d.code.as_str()).collect();
    assert_eq!(codes, vec!["E1415", "E1402"], "{}", out.diagnostics.to_golden());
    assert_eq!(out.ast.declarations.len(), 2, "both functions should parse");
}
