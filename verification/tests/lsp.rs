use vibelang::diagnostics::Severity;
use vibelang::indexer::model::{
    FileIndex, IndexSpan, IndexedSeverity, Symbol, SymbolId, SymbolKind,
};
use vibelang::indexer::store::IndexStore;
use vibelang::lexer::{lex, Keyword, TokenKind};
use vibelang::lsp::position::{identifier_prefix_at_position, position_on_boundary};
use vibelang::lsp::protocol::{
    completion_kind_number, diagnostic_severity_number, full_document_range, header_line,
    hover_markdown, index_span_to_lsp_range, notification_method, request_method,
    symbol_kind_number, FileSource, HeaderLine, LspRange, NotificationMethod, NumberError,
    RequestMethod, ServerState,
};
use vibelang::lsp::session::{ContractMetadata, LspSession};
use vibelang::parser::{Parser, StopToken};
use vibelang::lsp::uri::{path_to_uri, percent_decode, percent_encode, uri_to_path};

#[test]
fn uris_round_trip_paths() {
    for p in ["/tmp/a b/c.yb", "/home/ü/x%y.yb", "rel/path", ""] {
        assert_eq!(uri_to_path(&path_to_uri(p)), p);
    }
    assert_eq!(path_to_uri("/a b"), "file:///a%20b");
    assert_eq!(path_to_uri("file:///x"), "file:///x");
    assert_eq!(uri_to_path("/plain"), "/plain");
}

#[test]
fn percent_coding_escapes_reserved_bytes() {
    assert_eq!(percent_encode("a/b_c-d.e~f:g h%"), "a/b_c-d.e~f:g%20h%25");
    assert_eq!(percent_encode("é"), "%C3%A9");
    assert_eq!(percent_decode("%41%zz%4"), "A%zz%4");
    assert_eq!(percent_decode("%c3%a9"), "é");
}


fn ispan(a: usize, b: usize, c: usize, d: usize) -> IndexSpan {
    IndexSpan { line_start: a, col_start: b, line_end: c, col_end: d }
}

fn empty_index(file: &str) -> FileIndex {
    FileIndex {
        file: file.to_string(),
        file_hash: "h".to_string(),
        symbols: vec![],
        references: vec![],
        function_meta: vec![],
        effect_mismatches: vec![],
        diagnostics: vec![],
        dependencies: vec![],
    }
}

fn symbol(id: u64, name: &str, kind: SymbolKind, file: &str, s: IndexSpan) -> Symbol {
    Symbol { id: SymbolId(id), name: name.to_string(), kind, module: None, file: file.to_string(), span: s }
}

#[test]
fn completion_includes_keywords_and_symbols() {
    let src = "foo() -> Int { 1 }\nbar() -> Int { fo }\n";
    let mut index = empty_index("complete.yb");
    index.symbols = vec![
        symbol(1, "foo", SymbolKind::Function, "complete.yb", ispan(1, 1, 1, 18)),
        symbol(2, "bar", SymbolKind::Function, "complete.yb", ispan(2, 1, 2, 19)),
    ];
    let mut session = LspSession::open_or_create(IndexStore::new("idx".to_string()));
    session.open_document("complete.yb".to_string(), src, Some(1), index);
    assert!(session.completion_position_ok("complete.yb", 2, 17));
    let completion = session.completion("complete.yb", 2, 17);
    assert!(completion.iter().any(|item| item.label == "foo"));
    assert!(completion.iter().any(|item| item.label == "for"));
    let labels: Vec<&str> = completion.iter().map(|e| e.label.as_str()).collect();
    assert_eq!(labels, vec!["false", "foo", "for"]);
    let foo = completion.iter().find(|e| e.label == "foo").unwrap();
    assert_eq!(foo.kind, "function");
    assert_eq!(foo.detail.as_deref(), Some("indexed symbol"));
}

#[test]
fn completion_without_prefix_offers_every_label_once_in_order() {
    let mut index = empty_index("a.yb");
    index.symbols = vec![
        symbol(1, "if", SymbolKind::Local, "a.yb", ispan(1, 1, 1, 2)),
        symbol(2, "zeta", SymbolKind::Param, "a.yb", ispan(1, 1, 1, 2)),
        symbol(3, "zeta", SymbolKind::Effect, "a.yb", ispan(2, 1, 2, 2)),
    ];
    let mut session = LspSession::open_or_create(IndexStore::new("idx".to_string()));
    session.open_document("a.yb".to_string(), "\n", None, index);
    let completion = session.completion("a.yb", 1, 1);
    assert_eq!(completion.len(), 28 + 10 + 1);
    for w in completion.windows(2) {
        assert!(w[0].label < w[1].label);
    }
    let kw = completion.iter().find(|e| e.label == "if").unwrap();
    assert_eq!(kw.kind, "keyword");
    assert_eq!(kw.detail.as_deref(), Some("language keyword"));
    let z = completion.iter().find(|e| e.label == "zeta").unwrap();
    assert_eq!(z.kind, "variable");
    let ty = completion.iter().find(|e| e.label == "Chan").unwrap();
    assert_eq!(ty.detail.as_deref(), Some("builtin type"));
    let closed = session.completion("other.yb", 3, 3);
    assert_eq!(closed.len(), 39);
}

#[test]
fn format_document_matches_vibe_fmt_behavior() {
    let src = "main() -> Int {\n\t1    \n\n\n  0\n}\n";
    let mut session = LspSession::open_or_create(IndexStore::new("idx".to_string()));
    session.open_document("format.yb".to_string(), src, Some(1), empty_index("format.yb"));
    let formatted = session.format_document("format.yb").expect("formatted output");
    assert_eq!(formatted, "main() -> Int {\n  1\n\n  0\n}\n");
    assert_eq!(session.format_document("missing.yb"), None);
}

#[test]
fn identifier_prefix_reads_back_from_the_cursor() {
    let src = "let abc_1 = x\nfoo.ba";
    assert_eq!(identifier_prefix_at_position(src, 1, 10), Some("abc_1".to_string()));
    assert_eq!(identifier_prefix_at_position(src, 1, 5), Some("".to_string()));
    assert_eq!(identifier_prefix_at_position(src, 1, 99), Some("x".to_string()));
    assert_eq!(identifier_prefix_at_position(src, 2, 7), Some("ba".to_string()));
    assert_eq!(identifier_prefix_at_position(src, 3, 1), Some("ba".to_string()));
    assert_eq!(identifier_prefix_at_position(src, 4, 1), None);
    assert_eq!(identifier_prefix_at_position(src, 0, 1), None);
    assert_eq!(identifier_prefix_at_position(src, 1, 0), None);
    assert_eq!(identifier_prefix_at_position("", 1, 5), Some("".to_string()));
    assert_eq!(identifier_prefix_at_position("a\n", 2, 1), Some("".to_string()));
    assert_eq!(identifier_prefix_at_position("a\n", 3, 1), None);
}

#[test]
fn positions_inside_a_character_are_refused() {
    // "é" takes two bytes: column 2 of "éa" points at byte 1, inside it.
    assert!(!position_on_boundary("éa", 1, 2));
    assert!(position_on_boundary("éa", 1, 1));
    assert!(position_on_boundary("éé", 1, 3));
    assert_eq!(identifier_prefix_at_position("aé", 1, 2), Some("a".to_string()));
    assert!(position_on_boundary("x", 7, 7));
}

#[test]
fn requests_and_notifications_are_classified() {
    assert_eq!(request_method("initialize"), Some(RequestMethod::Initialize));
    assert_eq!(request_method("textDocument/rename"), Some(RequestMethod::Rename));
    assert_eq!(request_method("textDocument/rangeFormatting"), Some(RequestMethod::RangeFormatting));
    assert_eq!(request_method("textDocument/unknown"), None);
    assert_eq!(RequestMethod::Hover.diagnostics_file_source(), FileSource::WithPosition);
    assert_eq!(RequestMethod::WorkspaceSymbol.diagnostics_file_source(), FileSource::NoFile);
    assert_eq!(RequestMethod::CodeAction.diagnostics_file_source(), FileSource::TextDocument);
    assert_eq!(notification_method("exit"), NotificationMethod::Exit);
    assert_eq!(notification_method("$/cancel"), NotificationMethod::Ignored);
    let mut state = ServerState::default();
    state.after_request(RequestMethod::Initialize);
    assert!(state.initialized && !state.shutdown_requested);
    state.after_request(RequestMethod::Shutdown);
    assert!(state.shutdown_requested && !state.should_exit);
    state.after_notification(NotificationMethod::Exit);
    assert!(state.should_exit);
}

#[test]
fn spans_and_kinds_map_to_editor_numbers() {
    assert_eq!(
        index_span_to_lsp_range(ispan(3, 5, 4, 9)),
        LspRange { start_line: 2, start_character: 4, end_line: 3, end_character: 9 }
    );
    assert_eq!(
        index_span_to_lsp_range(ispan(0, 0, 0, 0)),
        LspRange { start_line: 0, start_character: 0, end_line: 0, end_character: 0 }
    );
    assert_eq!(symbol_kind_number("function"), 12);
    assert_eq!(symbol_kind_number("type"), 5);
    assert_eq!(symbol_kind_number("contract"), 14);
    assert_eq!(symbol_kind_number("param"), 13);
    assert_eq!(completion_kind_number("keyword"), 14);
    assert_eq!(completion_kind_number("effect"), 21);
    assert_eq!(completion_kind_number("contract"), 1);
    assert_eq!(diagnostic_severity_number(IndexedSeverity::Warning), 2);
}

#[test]
fn full_document_range_ends_after_the_last_character() {
    let r = |s: &str| {
        let x = full_document_range(s);
        (x.end_line, x.end_character)
    };
    assert_eq!(r(""), (0, 0));
    assert_eq!(r("ab"), (0, 2));
    assert_eq!(r("ab\n"), (1, 0));
    assert_eq!(r("ab\ncdé"), (1, 3));
}

#[test]
fn hover_text_lists_intent_effects_and_examples() {
    let meta = ContractMetadata {
        function_name: "topK".to_string(),
        file: "a.yb".to_string(),
        intent_text: Some("k largest".to_string()),
        effects_declared: vec!["io".to_string(), "alloc".to_string()],
        effects_observed: vec![],
        has_examples: true,
        is_public: true,
    };
    assert_eq!(
        hover_markdown(&meta),
        "### `topK`\n\n**Intent:** k largest\n\n**Effects declared:** io, alloc\n\n**Effects observed:** none\n\n**Examples:** yes\n"
    );
}

#[test]
fn header_lines_frame_messages() {
    assert_eq!(header_line("\r\n"), Ok(HeaderLine::End));
    assert_eq!(header_line("\n"), Ok(HeaderLine::End));
    assert_eq!(header_line("Content-Length: 42\r\n"), Ok(HeaderLine::ContentLength(42)));
    assert_eq!(header_line("content-LENGTH:+7\n"), Ok(HeaderLine::ContentLength(7)));
    assert_eq!(header_line("Content-Type: x\r\n"), Ok(HeaderLine::Other));
    let e = header_line("Content-Length: 4x\r\n").unwrap_err();
    assert_eq!(e.value, " 4x\r\n");
    assert_eq!(e.reason, NumberError::InvalidDigit);
    assert_eq!(header_line("Content-Length:   \r\n").unwrap_err().reason, NumberError::Empty);
    assert_eq!(
        header_line("Content-Length: 99999999999999999999999\r\n").unwrap_err().reason,
        NumberError::TooLarge
    );
    assert_eq!(header_line("Content-Length: +\r\n").unwrap_err().reason, NumberError::InvalidDigit);
}

#[test]
fn parser_cursor_steps_expects_and_recovers() {
    let (tokens, _) = lex("module a.b.c\n\n  pub x");
    let mut p = Parser::new(tokens);
    assert!(p.at_keyword(Keyword::Module));
    p.bump();
    assert_eq!(p.parse_qualified_ident(), "a.b.c");
    assert!(p.is_stop(&[StopToken::Comma, StopToken::Newline]));
    p.consume_line_end();
    assert!(p.at_keyword(Keyword::Pub));
    assert_eq!(p.peek_n_kind(1), Some(TokenKind::Ident));
    assert_eq!(p.peek_n_kind(5), None);
    assert!(p.match_kind(TokenKind::Keyword(Keyword::Pub)));
    assert_eq!(p.expect_ident("E1", "missing"), "x");
    assert!(p.is_eof());
    assert_eq!(p.expect_ident("E2", "expected name"), "__error");
    let ds = p.into_diagnostics().into_sorted();
    assert_eq!(ds.len(), 1);
    assert_eq!(ds[0].code, "E2");
    assert_eq!(ds[0].severity, Severity::Error);
}

#[test]
fn type_params_and_sync_points() {
    let (tokens, _) = lex("<T, U> ( ) }\n\nfoo");
    let mut p = Parser::new(tokens);
    let names = p.parse_optional_type_params();
    assert_eq!(names, vec!["T".to_string(), "U".to_string()]);
    assert!(p.at(TokenKind::LParen));
    p.sync_to_stmt_boundary();
    assert!(p.at(TokenKind::RBrace));
    p.bump();
    p.sync_to_stmt_boundary();
    assert!(p.at_ident());
    let (tokens, _) = lex("<T\nx");
    let mut q = Parser::new(tokens);
    assert_eq!(q.parse_optional_type_params(), vec!["T".to_string()]);
    let ds = q.into_diagnostics().into_sorted();
    assert_eq!(ds.len(), 1);
    assert_eq!(ds[0].code, "E1102b");
    let (tokens, _) = lex("( ) pub");
    let mut s = Parser::new(tokens);
    s.sync_to_decl();
    assert!(s.at_keyword(Keyword::Pub));
    let (tokens, _) = lex("\n\n. x");
    let t = Parser::new(tokens);
    assert!(!t.is_stop(&[StopToken::Newline]));
    assert_eq!(t.peek_non_newline_kind(), Some(TokenKind::Dot));
}

#[test]
fn formatting_follows_the_document_history() {
    let mut session = LspSession::open_or_create(IndexStore::new("idx".to_string()));
    session.open_document("h.yb".to_string(), "a()  \n", Some(1), empty_index("h.yb"));
    session.open_document("other.yb".to_string(), "x\n", Some(1), empty_index("other.yb"));
    session.change_document("h.yb".to_string(), "b()    \n", Some(2), empty_index("h.yb"));
    session.close_document("other.yb");
    assert_eq!(session.format_document("h.yb"), Some("b()\n".to_string()));
    session.close_document("h.yb");
    assert_eq!(session.format_document("h.yb"), None);
}
