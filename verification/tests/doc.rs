use vibelang::doc::{clean_quoted, extract_docs, render_markdown, DocItem};

#[test]
fn extracts_annotations_and_functions() {
    let src = r#"
@intent "sum numbers"
@effect alloc
sum(xs: List<Int>) -> Int {
  @examples {
    sum([1,2]) => 3
  }
  0
}
"#;
    let docs = extract_docs(src);
    assert_eq!(docs.len(), 1);
    assert_eq!(docs[0].name, "sum");
    assert_eq!(docs[0].intent.as_deref(), Some("sum numbers"));
    assert_eq!(docs[0].effects, vec!["alloc"]);
}

#[test]
fn markdown_render_is_stable() {
    let src = r#"
@intent "hello"
pub main() -> Int {
  0
}
"#;
    let docs = extract_docs(src);
    let rendered = render_markdown("sample", &docs);
    assert!(rendered.contains("# API: sample"));
    assert!(rendered.contains("## `pub main() -> Int`"));
    assert!(rendered.contains("- Intent: hello"));
}

#[test]
fn renders_every_section_of_an_item() {
    let item = DocItem {
        name: "f".to_string(),
        signature: "f(x: Int) -> Int".to_string(),
        source_line: 12,
        intent: Some("double".to_string()),
        effects: vec!["io".to_string(), "alloc".to_string()],
        requires: vec!["x > 0".to_string(), "x < 9".to_string()],
        ensures: vec![".".to_string()],
        examples: vec!["f(1) => 2".to_string()],
    };
    assert_eq!(
        render_markdown("m", &[item]),
        "# API: m\n\n## `f(x: Int) -> Int`\n\n- Source: line 12\n- Intent: double\n- Effects: io, alloc\n- Requires: x > 0 | x < 9\n- Ensures: .\n- Examples:\n  - `f(1) => 2`\n\n"
    );
    assert_eq!(render_markdown("e", &[]), "# API: e\n\n_No documentable functions found._\n");
}

#[test]
fn examples_and_contracts_attach_to_the_next_function() {
    let src = "@require x > 0\n@ensure . >= 0\n@examples {\n  f(1) => 1\n}\npub f(x: Int) -> Int {\n  x\n}\ng() {\n";
    let docs = extract_docs(src);
    assert_eq!(docs.len(), 2);
    assert_eq!(docs[0].signature, "pub f(x: Int) -> Int");
    assert_eq!(docs[0].source_line, 6);
    assert_eq!(docs[0].requires, vec!["x > 0"]);
    assert_eq!(docs[0].ensures, vec![". >= 0"]);
    assert_eq!(docs[0].examples, vec!["f(1) => 1"]);
    assert_eq!(docs[1].name, "g");
    assert!(docs[1].requires.is_empty());
}

#[test]
fn clean_quoted_strips_one_pair_of_quotes() {
    assert_eq!(clean_quoted("  \"hi there\" "), "hi there");
    assert_eq!(clean_quoted("plain "), "plain");
    assert_eq!(clean_quoted("\""), "\"");
}
