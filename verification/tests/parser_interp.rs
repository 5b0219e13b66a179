use vibelang::ast::Expr;
use vibelang::diagnostics::Span;
use vibelang::hir::BinaryOp;
use vibelang::lexer::lex;
use vibelang::parser::interp::remove_nul;
use vibelang::parser::literal::parse_i64_literal;
use vibelang::parser::Parser;

fn parser() -> Parser {
    let (tokens, _) = lex("x");
    Parser::new(tokens)
}

fn at() -> Span {
    Span::new(3, 5, 3, 20)
}

fn text_of(e: &Expr) -> String {
    match e {
        Expr::String { value, .. } => format!("{:?}", value),
        Expr::Call { callee, args, .. } => {
            let target = match callee.as_ref() {
                Expr::Member { object, field, .. } => match object.as_ref() {
                    Expr::Ident { name, .. } => format!("{}.{}", name, field),
                    _ => "?".to_string(),
                },
                _ => "?".to_string(),
            };
            let arg = match &args[0] {
                Expr::Ident { name, .. } => name.clone(),
                _ => "?".to_string(),
            };
            format!("{}({})", target, arg)
        }
        Expr::Binary { left, op, right, .. } => {
            assert_eq!(*op, BinaryOp::Add);
            format!("({} + {})", text_of(left), text_of(right))
        }
        _ => "?".to_string(),
    }
}

#[test]
fn plain_string_is_not_interpolated() {
    let mut p = parser();
    assert!(p.try_desugar_string_interp("hello {1} {}", at()).is_none());
    assert!(p.try_desugar_string_interp("\u{0}{name}", at()).is_none());
    assert_eq!(p.into_diagnostics().len(), 0);
}

#[test]
fn interpolated_names_become_to_str_calls_joined_left_to_right() {
    let mut p = parser();
    let e = p.try_desugar_string_interp("Hi {name }, you are {age}!", at()).unwrap();
    assert_eq!(
        text_of(&e),
        "((((\"Hi \" + convert.to_str(name)) + \", you are \") + convert.to_str(age)) + \"!\")"
    );
    match &e {
        Expr::Binary { span, .. } => assert_eq!(*span, at()),
        _ => panic!("expected a concatenation"),
    }
    assert_eq!(p.into_diagnostics().len(), 0);
}

#[test]
fn escaped_characters_stay_text_and_a_lone_name_is_one_call() {
    let mut p = parser();
    let e = p.try_desugar_string_interp("{x}", at()).unwrap();
    assert_eq!(text_of(&e), "convert.to_str(x)");
    let e = p.try_desugar_string_interp("\u{0}{a{b}", at()).unwrap();
    assert_eq!(text_of(&e), "(\"{a\" + convert.to_str(b))");
}

#[test]
fn braces_without_a_name_stay_text_and_an_unclosed_name_runs_to_the_end() {
    let mut p = parser();
    let e = p.try_desugar_string_interp("{x}{ }", at()).unwrap();
    assert_eq!(text_of(&e), "(convert.to_str(x) + \"{ }\")");
    let e = p.try_desugar_string_interp("v={ab c", at()).unwrap();
    assert_eq!(text_of(&e), "(\"v=\" + convert.to_str(ab c))");
    assert_eq!(p.into_diagnostics().len(), 0);
}

fn int_literal(source: &str) -> (i64, Vec<String>) {
    let (tokens, _) = lex(source);
    let mut p = Parser::new(tokens);
    let value = match p.parse_int_literal() {
        Expr::Int { value, .. } => value,
        _ => panic!("expected an integer literal"),
    };
    let codes = p.into_diagnostics().as_slice().iter().map(|d| d.code.clone()).collect();
    (value, codes)
}

#[test]
fn int_literal_at_i64_max_is_accepted() {
    assert_eq!(int_literal("9223372036854775807"), (i64::MAX, vec![]));
}

#[test]
fn int_literal_above_i64_max_is_out_of_range() {
    assert_eq!(int_literal("9223372036854775808"), (0, vec!["E1414".to_string()]));
}

#[test]
fn thirty_digit_int_literal_is_out_of_range() {
    assert_eq!(int_literal("123456789012345678901234567890"), (0, vec!["E1414".to_string()]));
}

#[test]
fn int_literal_text_reads_as_str_parse_does() {
    assert_eq!(parse_i64_literal("42"), Some(42));
    assert_eq!(parse_i64_literal("-9223372036854775808"), Some(i64::MIN));
    assert_eq!(parse_i64_literal("+7"), Some(7));
    assert_eq!(parse_i64_literal("-"), None);
    assert_eq!(parse_i64_literal("1_000"), None);
    assert_eq!(parse_i64_literal(""), None);
    assert_eq!(parse_i64_literal("007"), Some(7));
}

#[test]
fn string_literal_token_reads_as_text_or_interpolation() {
    let (tokens, _) = lex("\"plain {1}\" \"hi {who}\"");
    let mut p = Parser::new(tokens);
    match p.parse_string_literal() {
        Expr::String { value, .. } => assert_eq!(value, "plain {1}"),
        _ => panic!("expected a string literal"),
    }
    let e = p.parse_string_literal();
    assert_eq!(text_of(&e), "(\"hi \" + convert.to_str(who))");
    assert_eq!(p.into_diagnostics().len(), 0);
}

#[test]
fn nul_characters_are_removed_from_plain_text() {
    assert_eq!(remove_nul("a\u{0}b\u{0}"), "ab");
    assert_eq!(remove_nul(""), "");
}
