use vibelang::codegen::{json_codec_schema, parse_duration_literal, CodegenOptions};

#[test]
fn default_options_target_linux_dev() {
    let o = CodegenOptions::default();
    assert_eq!(o.target, "x86_64-unknown-linux-gnu");
    assert_eq!(o.profile, "dev");
    assert_eq!(o.debuginfo, "line");
}

#[test]
fn duration_literals_read_their_digits() {
    assert_eq!(parse_duration_literal("250ms"), 250);
    assert_eq!(parse_duration_literal("1_000ms"), 1000);
    assert_eq!(parse_duration_literal("ms"), 0);
    assert_eq!(parse_duration_literal("99999999999999999999ms"), 0);
    assert_eq!(parse_duration_literal("9223372036854775807"), i64::MAX);
}

#[test]
fn json_codec_schema_nests_defined_types() {
    let defs = vec![
        ("Inner".to_string(), vec![("x".to_string(), "Int".to_string())]),
        (
            "Outer".to_string(),
            vec![("a".to_string(), "Str".to_string()), ("b".to_string(), "Inner".to_string())],
        ),
        ("Loop".to_string(), vec![("me".to_string(), "Loop".to_string())]),
    ];
    assert_eq!(json_codec_schema("Outer", &defs), Some("a:Str;b:{x:Int}".to_string()));
    assert_eq!(json_codec_schema("Inner", &defs), Some("x:Int".to_string()));
    assert_eq!(json_codec_schema("Missing", &defs), None);
    let looped = json_codec_schema("Loop", &defs).unwrap();
    let expected = format!("{}me:Str{}", "me:{".repeat(16), "}".repeat(16));
    assert_eq!(looped, expected);
}
