use vibelang::fmt::{format_source, needs_formatting};

#[test]
fn formatter_is_idempotent() {
    let src = "pub main() -> Int {\n\tprintln(\"hi\")    \n\n\n  0\n}\n";
    let once = format_source(src);
    let twice = format_source(&once);
    assert_eq!(once, twice);
}

#[test]
fn formatter_normalizes_blank_lines_and_trailing_whitespace() {
    let src = "\n\nfoo() {\n  1    \n\n\n\n  2\t\n}\n\n";
    let out = format_source(src);
    assert_eq!(out, "foo() {\n  1\n\n  2\n}\n");
}

#[test]
fn needs_formatting_matches_formatter_result() {
    let src = "a() {\n  1\n}\n";
    assert!(!needs_formatting(src));
    assert!(needs_formatting("a() {\n\t1\n}\n"));
}

#[test]
fn formatter_normalizes_line_endings_and_tabs() {
    assert_eq!(format_source("a\r\nb\rc\t\td"), "a\nb\nc    d\n");
    assert_eq!(format_source("x\t\u{3000}"), "x\n");
}

#[test]
fn formatter_of_blank_text_is_empty() {
    assert_eq!(format_source(""), "");
    assert_eq!(format_source(" \n\t\r\n  "), "");
    assert!(!needs_formatting(""));
    assert!(needs_formatting("\n"));
}
