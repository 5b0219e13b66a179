use vibelang::diagnostics::Span;
use vibelang::lexer::{lex, Keyword, TokenKind};

#[test]
fn lexes_basic_tokens() {
    let src = r#"module app
fn1(a, b) { x := 1 }
"#;
    let (tokens, diags) = lex(src);
    assert!(!tokens.is_empty());
    assert!(!diags.has_errors());
}

#[test]
fn lexes_kinds_lexemes_and_spans() {
    let (tokens, diags) = lex("if x>=1.5 // note\n\"a\\n\"");
    assert!(!diags.has_errors());
    let kinds: Vec<TokenKind> = tokens.iter().map(|t| t.kind).collect();
    assert_eq!(
        kinds,
        vec![
            TokenKind::Keyword(Keyword::If),
            TokenKind::Ident,
            TokenKind::Ge,
            TokenKind::FloatLit,
            TokenKind::Newline,
            TokenKind::StringLit,
            TokenKind::Eof,
        ]
    );
    assert_eq!(tokens[3].lexeme, "1.5");
    assert_eq!(tokens[3].span, Span::new(1, 7, 1, 9));
    assert_eq!(tokens[5].lexeme, "a\n");
    assert_eq!(tokens[5].span, Span::new(2, 1, 2, 5));
    assert_eq!(tokens[6].span, Span::new(2, 6, 2, 6));
}

#[test]
fn reports_unterminated_string_and_unexpected_character() {
    let (tokens, diags) = lex("#\n\"abc");
    let items = diags.as_slice();
    assert_eq!(items.len(), 2);
    assert_eq!(items[0].code, "E1001");
    assert_eq!(items[0].message, "unexpected character `#`");
    assert_eq!(items[0].span, Span::new(1, 1, 1, 1));
    assert_eq!(items[1].code, "E1002");
    assert_eq!(items[1].message, "unterminated string literal");
    assert_eq!(items[1].span, Span::new(2, 1, 2, 4));
    assert_eq!(tokens[1].kind, TokenKind::StringLit);
    assert_eq!(tokens[1].lexeme, "abc");
}

#[test]
fn every_token_list_ends_with_eof() {
    for src in ["", "x", "\"open", "a := 1\n", "@@@"] {
        let (tokens, _) = lex(src);
        assert!(!tokens.is_empty());
        assert_eq!(tokens.last().unwrap().kind, TokenKind::Eof);
    }
}

#[test]
fn operators_and_reserved_words_of_the_grammar_lex_as_tokens() {
    let (tokens, diags) = lex("a % b << c >> d & e && f | g || h ^ i\nenum mut break continue thread async await fn");
    assert_eq!(diags.len(), 0);
    let kinds: Vec<TokenKind> = tokens.iter().map(|t| t.kind).collect();
    assert_eq!(
        kinds,
        vec![
            TokenKind::Ident,
            TokenKind::Percent,
            TokenKind::Ident,
            TokenKind::LtLt,
            TokenKind::Ident,
            TokenKind::GtGt,
            TokenKind::Ident,
            TokenKind::Amp,
            TokenKind::Ident,
            TokenKind::AmpAmp,
            TokenKind::Ident,
            TokenKind::Pipe,
            TokenKind::Ident,
            TokenKind::PipePipe,
            TokenKind::Ident,
            TokenKind::Caret,
            TokenKind::Ident,
            TokenKind::Newline,
            TokenKind::Keyword(Keyword::Enum),
            TokenKind::Keyword(Keyword::Mut),
            TokenKind::Keyword(Keyword::Break),
            TokenKind::Keyword(Keyword::Continue),
            TokenKind::Keyword(Keyword::Thread),
            TokenKind::Keyword(Keyword::Async),
            TokenKind::Keyword(Keyword::Await),
            TokenKind::Keyword(Keyword::Fn),
            TokenKind::Eof,
        ]
    );
}
