use vstd::prelude::*;

use crate::diagnostics::{Diagnostic, DiagnosticView, Diagnostics, Severity, Span};
use crate::order::views;
use crate::text::{chars_equal, chars_of, push_char, push_str, string_of_range};

verus! {

#[derive(Debug, Clone, Copy, PartialEq, Eq, Structural)]
pub enum Keyword {
    Module,
    Import,
    Pub,
    Type,
    If,
    Else,
    For,
    While,
    Repeat,
    Match,
    Return,
    Go,
    Select,
    Case,
    After,
    Closed,
    Default,
    In,
    True,
    False,
    Enum,
    Mut,
    Break,
    Continue,
    Thread,
    Async,
    Await,
    Fn,
}

#[derive(Debug, Clone, Copy, PartialEq, Eq, Structural)]
pub enum TokenKind {
    Ident,
    IntLit,
    FloatLit,
    StringLit,
    At,
    LBrace,
    RBrace,
    LParen,
    RParen,
    LBracket,
    RBracket,
    Comma,
    Dot,
    Colon,
    Question,
    Arrow,
    FatArrow,
    Assign,
    Bind,
    Plus,
    Minus,
    Star,
    Slash,
    Bang,
    EqEq,
    NotEq,
    Lt,
    Le,
    Gt,
    Ge,
    Percent,
    LtLt,
    GtGt,
    Amp,
    AmpAmp,
    Caret,
    Pipe,
    PipePipe,
    Keyword(Keyword),
    Newline,
    Eof,
}

#[derive(Debug, Clone, PartialEq, Eq)]
pub struct Token {
    pub kind: TokenKind,
    pub lexeme: String,
    pub span: Span,
}

/// A token as a mathematical value.
pub struct TokenView {
    pub kind: TokenKind,
    pub lexeme: Seq<char>,
    pub span: Span,
}

impl View for Token {
    type V = TokenView;

    open spec fn view(&self) -> TokenView {
        TokenView { kind: self.kind, lexeme: self.lexeme@, span: self.span }
    }
}

/// Where the lexer stands: the next character, the line and column of that
/// character (1-based), and what it has produced so far.
pub struct LexState {
    pub idx: int,
    pub line: int,
    pub col: int,
    pub tokens: Seq<TokenView>,
    pub diags: Seq<DiagnosticView>,
}

pub open spec fn span_at(l1: int, c1: int, l2: int, c2: int) -> Span {
    Span {
        line_start: l1 as usize,
        col_start: c1 as usize,
        line_end: l2 as usize,
        col_end: c2 as usize,
    }
}

pub open spec fn is_digit_spec(c: char) -> bool {
    '0' <= c <= '9'
}

pub open spec fn is_ident_start_spec(c: char) -> bool {
    ('a' <= c <= 'z') || ('A' <= c <= 'Z') || c == '_'
}

pub open spec fn is_ident_continue_spec(c: char) -> bool {
    is_ident_start_spec(c) || is_digit_spec(c)
}

/// The end of the run of digits that starts at `i`.
pub open spec fn digits_end(cs: Seq<char>, i: int) -> int
    decreases cs.len() - i,
{
    if 0 <= i < cs.len() && is_digit_spec(cs[i]) {
        digits_end(cs, i + 1)
    } else {
        i
    }
}

/// The end of the run of identifier characters that starts at `i`.
pub open spec fn ident_end(cs: Seq<char>, i: int) -> int
    decreases cs.len() - i,
{
    if 0 <= i < cs.len() && is_ident_continue_spec(cs[i]) {
        ident_end(cs, i + 1)
    } else {
        i
    }
}

/// The index of the first `\n` at or after `i`, or the end of the input.
pub open spec fn comment_end(cs: Seq<char>, i: int) -> int
    decreases cs.len() - i,
{
    if 0 <= i < cs.len() && cs[i] != '\n' {
        comment_end(cs, i + 1)
    } else {
        i
    }
}

/// The character that an escape `\c` in a string literal stands for.
pub open spec fn escape_spec(c: char) -> char {
    if c == 'n' {
        '\n'
    } else if c == 't' {
        '\t'
    } else if c == 'r' {
        '\r'
    } else {
        c
    }
}

/// Where a string literal's scan ends, and what it read.
pub struct StringScan {
    pub end: int,
    pub line: int,
    pub col: int,
    pub value: Seq<char>,
    pub terminated: bool,
}

/// Scans the body of a string literal from `i` (after the opening quote).
pub open spec fn scan_string(cs: Seq<char>, i: int, line: int, col: int, value: Seq<char>) -> StringScan
    decreases cs.len() - i,
{
    if i < 0 || i >= cs.len() {
        StringScan { end: i, line, col, value, terminated: false }
    } else if cs[i] == '"' {
        StringScan { end: i + 1, line, col: col + 1, value, terminated: true }
    } else if cs[i] == '\n' {
        scan_string(cs, i + 1, line + 1, 1, value.push('\n'))
    } else if cs[i] == '\\' {
        if i + 1 < cs.len() {
            scan_string(cs, i + 2, line, col + 2, value.push(escape_spec(cs[i + 1])))
        } else {
            StringScan { end: i + 1, line, col: col + 1, value, terminated: false }
        }
    } else {
        scan_string(cs, i + 1, line, col + 1, value.push(cs[i]))
    }
}

/// The token kind and width of a symbol starting with `c`, `next` following it.
pub open spec fn symbol_spec(c: char, next: Option<char>) -> Option<(TokenKind, int)> {
    if c == '@' {
        Some((TokenKind::At, 1))
    } else if c == '{' {
        Some((TokenKind::LBrace, 1))
    } else if c == '}' {
        Some((TokenKind::RBrace, 1))
    } else if c == '(' {
        Some((TokenKind::LParen, 1))
    } else if c == ')' {
        Some((TokenKind::RParen, 1))
    } else if c == '[' {
        Some((TokenKind::LBracket, 1))
    } else if c == ']' {
        Some((TokenKind::RBracket, 1))
    } else if c == ',' {
        Some((TokenKind::Comma, 1))
    } else if c == '.' {
        Some((TokenKind::Dot, 1))
    } else if c == '?' {
        Some((TokenKind::Question, 1))
    } else if c == '+' {
        Some((TokenKind::Plus, 1))
    } else if c == '*' {
        Some((TokenKind::Star, 1))
    } else if c == '/' {
        Some((TokenKind::Slash, 1))
    } else if c == ':' {
        if next == Some('=') {
            Some((TokenKind::Bind, 2))
        } else {
            Some((TokenKind::Colon, 1))
        }
    } else if c == '-' {
        if next == Some('>') {
            Some((TokenKind::Arrow, 2))
        } else {
            Some((TokenKind::Minus, 1))
        }
    } else if c == '=' {
        if next == Some('>') {
            Some((TokenKind::FatArrow, 2))
        } else if next == Some('=') {
            Some((TokenKind::EqEq, 2))
        } else {
            Some((TokenKind::Assign, 1))
        }
    } else if c == '!' {
        if next == Some('=') {
            Some((TokenKind::NotEq, 2))
        } else {
            Some((TokenKind::Bang, 1))
        }
    } else if c == '<' {
        if next == Some('=') {
            Some((TokenKind::Le, 2))
        } else if next == Some('<') {
            Some((TokenKind::LtLt, 2))
        } else {
            Some((TokenKind::Lt, 1))
        }
    } else if c == '>' {
        if next == Some('=') {
            Some((TokenKind::Ge, 2))
        } else if next == Some('>') {
            Some((TokenKind::GtGt, 2))
        } else {
            Some((TokenKind::Gt, 1))
        }
    } else if c == '%' {
        Some((TokenKind::Percent, 1))
    } else if c == '^' {
        Some((TokenKind::Caret, 1))
    } else if c == '&' {
        if next == Some('&') {
            Some((TokenKind::AmpAmp, 2))
        } else {
            Some((TokenKind::Amp, 1))
        }
    } else if c == '|' {
        if next == Some('|') {
            Some((TokenKind::PipePipe, 2))
        } else {
            Some((TokenKind::Pipe, 1))
        }
    } else {
        None
    }
}

pub open spec fn char_at(cs: Seq<char>, i: int) -> Option<char> {
    if 0 <= i < cs.len() {
        Some(cs[i])
    } else {
        None
    }
}

pub open spec fn unexpected_char_message(c: char) -> Seq<char> {
    "unexpected character `"@ + seq![c] + "`"@
}

pub open spec fn lex_error(code: Seq<char>, message: Seq<char>, span: Span) -> DiagnosticView {
    DiagnosticView { code, severity: Severity::Error, message, span, related: Seq::empty() }
}

pub open spec fn string_step(cs: Seq<char>, s: LexState) -> LexState {
    let sc = scan_string(cs, s.idx + 1, s.line, s.col + 1, Seq::empty());
    let span = span_at(s.line, s.col, sc.line, sc.col - 1);
    LexState {
        idx: sc.end,
        line: sc.line,
        col: sc.col,
        tokens: s.tokens.push(TokenView { kind: TokenKind::StringLit, lexeme: sc.value, span }),
        diags: if sc.terminated {
            s.diags
        } else {
            s.diags.push(lex_error("E1002"@, "unterminated string literal"@, span))
        },
    }
}

pub open spec fn number_step(cs: Seq<char>, s: LexState) -> LexState {
    let j = digits_end(cs, s.idx);
    let is_float = j + 1 < cs.len() && cs[j] == '.' && is_digit_spec(cs[j + 1]);
    let end = if is_float {
        digits_end(cs, j + 1)
    } else {
        j
    };
    let kind = if is_float {
        TokenKind::FloatLit
    } else {
        TokenKind::IntLit
    };
    let col2 = s.col + (end - s.idx);
    LexState {
        idx: end,
        col: col2,
        tokens: s.tokens.push(
            TokenView {
                kind,
                lexeme: cs.subrange(s.idx, end),
                span: span_at(s.line, s.col, s.line, col2 - 1),
            },
        ),
        ..s
    }
}

pub open spec fn ident_step(cs: Seq<char>, s: LexState) -> LexState {
    let end = ident_end(cs, s.idx);
    let text = cs.subrange(s.idx, end);
    let kind = match keyword_spec(text) {
        Some(k) => TokenKind::Keyword(k),
        None => TokenKind::Ident,
    };
    let col2 = s.col + (end - s.idx);
    LexState {
        idx: end,
        col: col2,
        tokens: s.tokens.push(
            TokenView { kind, lexeme: text, span: span_at(s.line, s.col, s.line, col2 - 1) },
        ),
        ..s
    }
}

pub open spec fn symbol_step(cs: Seq<char>, s: LexState) -> LexState {
    let c = cs[s.idx];
    match symbol_spec(c, char_at(cs, s.idx + 1)) {
        Some((kind, w)) => LexState {
            idx: s.idx + w,
            col: s.col + w,
            tokens: s.tokens.push(
                TokenView {
                    kind,
                    lexeme: cs.subrange(s.idx, s.idx + w),
                    span: span_at(s.line, s.col, s.line, s.col + w - 1),
                },
            ),
            ..s
        },
        None => LexState {
            idx: s.idx + 1,
            col: s.col + 1,
            diags: s.diags.push(
                lex_error(
                    "E1001"@,
                    unexpected_char_message(c),
                    span_at(s.line, s.col, s.line, s.col),
                ),
            ),
            ..s
        },
    }
}

/// One step of the lexer at a character that is not past the end.
pub open spec fn lex_step(cs: Seq<char>, s: LexState) -> LexState {
    let i = s.idx;
    let c = cs[i];
    if c == ' ' || c == '\t' || c == '\r' {
        LexState { idx: i + 1, col: s.col + 1, ..s }
    } else if c == '\n' {
        LexState {
            idx: i + 1,
            line: s.line + 1,
            col: 1,
            tokens: s.tokens.push(
                TokenView {
                    kind: TokenKind::Newline,
                    lexeme: seq!['\n'],
                    span: span_at(s.line, s.col, s.line, s.col),
                },
            ),
            ..s
        }
    } else if c == '/' && i + 1 < cs.len() && cs[i + 1] == '/' {
        let j = comment_end(cs, i);
        LexState { idx: j, col: s.col + (j - i), ..s }
    } else if c == '"' {
        string_step(cs, s)
    } else if is_digit_spec(c) {
        number_step(cs, s)
    } else if is_ident_start_spec(c) {
        ident_step(cs, s)
    } else {
        symbol_step(cs, s)
    }
}

/// The lexer's bounds: its position is in the input, and line and column
/// are at least 1 and at most one past the position.
pub open spec fn state_ok(cs: Seq<char>, s: LexState) -> bool {
    &&& cs.len() < usize::MAX
    &&& 0 <= s.idx <= cs.len()
    &&& 1 <= s.line <= s.idx + 1
    &&& 1 <= s.col <= s.idx + 1
}

pub proof fn lemma_runs_advance(cs: Seq<char>, i: int)
    requires
        0 <= i <= cs.len(),
    ensures
        i <= digits_end(cs, i) <= cs.len(),
        i <= ident_end(cs, i) <= cs.len(),
        i <= comment_end(cs, i) <= cs.len(),
    decreases cs.len() - i,
{
    if i < cs.len() {
        lemma_runs_advance(cs, i + 1);
    }
}

pub proof fn lemma_scan_string_bounds(cs: Seq<char>, i: int, line: int, col: int, value: Seq<char>)
    requires
        0 <= i <= cs.len(),
        1 <= line <= i + 1,
        1 <= col <= i + 1,
    ensures
        i <= scan_string(cs, i, line, col, value).end <= cs.len(),
        1 <= scan_string(cs, i, line, col, value).line <= scan_string(cs, i, line, col, value).end
            + 1,
        1 <= scan_string(cs, i, line, col, value).col <= scan_string(cs, i, line, col, value).end
            + 1,
    decreases cs.len() - i,
{
    if i < cs.len() {
        if cs[i] == '"' {
        } else if cs[i] == '\n' {
            lemma_scan_string_bounds(cs, i + 1, line + 1, 1, value.push('\n'));
        } else if cs[i] == '\\' {
            if i + 1 < cs.len() {
                lemma_scan_string_bounds(cs, i + 2, line, col + 2, value.push(escape_spec(cs[i + 1])));
            }
        } else {
            lemma_scan_string_bounds(cs, i + 1, line, col + 1, value.push(cs[i]));
        }
    }
}

/// Each step moves forward and keeps the bounds.
pub proof fn lemma_step_ok(cs: Seq<char>, s: LexState)
    requires
        state_ok(cs, s),
        s.idx < cs.len(),
    ensures
        state_ok(cs, lex_step(cs, s)),
        lex_step(cs, s).idx > s.idx,
{
    let i = s.idx;
    lemma_runs_advance(cs, i);
    lemma_runs_advance(cs, i + 1);
    if cs[i] == '"' {
        lemma_scan_string_bounds(cs, i + 1, s.line, s.col + 1, Seq::empty());
    } else if is_digit_spec(cs[i]) {
        assert(cs[i] != '\n');
        assert(digits_end(cs, i) == digits_end(cs, i + 1));
        let j = digits_end(cs, i);
        if j + 1 < cs.len() {
            lemma_runs_advance(cs, j + 1);
        }
    } else if is_ident_start_spec(cs[i]) {
        assert(ident_end(cs, i) == ident_end(cs, i + 1));
    }
}

/// Runs the lexer to the end of the input and appends the end-of-file token.
pub open spec fn lex_from(cs: Seq<char>, s: LexState) -> LexState
    decreases cs.len() - s.idx,
{
    if state_ok(cs, s) && s.idx < cs.len() {
        proof {
            lemma_step_ok(cs, s);
        }
        lex_from(cs, lex_step(cs, s))
    } else {
        LexState {
            tokens: s.tokens.push(
                TokenView {
                    kind: TokenKind::Eof,
                    lexeme: Seq::empty(),
                    span: span_at(s.line, s.col, s.line, s.col),
                },
            ),
            ..s
        }
    }
}

proof fn lemma_lex_from_ends_with_eof(cs: Seq<char>, s: LexState)
    ensures
        lex_from(cs, s).tokens.len() > 0,
        lex_from(cs, s).tokens.last().kind == TokenKind::Eof,
    decreases cs.len() - s.idx,
{
    if state_ok(cs, s) && s.idx < cs.len() {
        lemma_step_ok(cs, s);
        lemma_lex_from_ends_with_eof(cs, lex_step(cs, s));
    }
}

/// The tokens of any source end with the end-of-input token, as the parser
/// expects of them.
pub proof fn lemma_lex_ends_with_eof(src: Seq<char>)
    ensures
        crate::parser::tokens_wf(lex_spec(src).0),
{
    lemma_lex_from_ends_with_eof(src, initial_state());
}

/// No character of `s` ends or escapes inside a string literal.
pub open spec fn plain_string_text(s: Seq<char>) -> bool {
    forall|k: int| 0 <= k < s.len() ==> s[k] != '"' && s[k] != '\\' && s[k] != '\n'
}

/// A run of plain characters is read into a string literal as it stands.
proof fn lemma_scan_plain_run(cs: Seq<char>, i: int, n: int, line: int, col: int, value: Seq<char>)
    requires
        0 <= i,
        0 <= n,
        i + n <= cs.len(),
        plain_string_text(cs.subrange(i, i + n)),
    ensures
        scan_string(cs, i, line, col, value) == scan_string(
            cs,
            i + n,
            line,
            col + n,
            value + cs.subrange(i, i + n),
        ),
    decreases n,
{
    if n == 0 {
        assert(value + cs.subrange(i, i) =~= value);
    } else {
        assert(cs.subrange(i, i + n)[0] == cs[i]);
        assert(cs.subrange(i + 1, i + n) =~= cs.subrange(i, i + n).subrange(1, n));
        lemma_scan_plain_run(cs, i + 1, n - 1, line, col + 1, value.push(cs[i]));
        assert(value.push(cs[i]) + cs.subrange(i + 1, i + n) =~= value + cs.subrange(i, i + n));
    }
}

/// A string literal with one escape: `\t` stands for a tab, `\n` for a
/// newline, `\r` for a carriage return, and a backslash before any other
/// character for that character. The source `"a\cb"` lexes to one string
/// token whose text is `a`, the escaped character, then `b`, followed by the
/// end of input, with no diagnostic.
pub proof fn lemma_string_escape(a: Seq<char>, c: char, b: Seq<char>)
    requires
        plain_string_text(a),
        plain_string_text(b),
        a.len() + b.len() + 4 < usize::MAX,
    ensures
        ({
            let src = seq!['"'] + a + seq!['\\', c] + b + seq!['"'];
            let esc = if c == 't' {
                '\t'
            } else if c == 'n' {
                '\n'
            } else if c == 'r' {
                '\r'
            } else {
                c
            };
            &&& lex_spec(src).0.len() == 2
            &&& lex_spec(src).0[0].kind == TokenKind::StringLit
            &&& lex_spec(src).0[0].lexeme == a + seq![esc] + b
            &&& lex_spec(src).0[1].kind == TokenKind::Eof
            &&& lex_spec(src).1.len() == 0
        }),
{
    let src = seq!['"'] + a + seq!['\\', c] + b + seq!['"'];
    let n = src.len() as int;
    let la = a.len() as int;
    let lb = b.len() as int;
    assert(n == la + lb + 4);
    assert(src[0] == '"');
    assert(src.subrange(1, 1 + la) =~= a);
    assert(src[1 + la] == '\\');
    assert(src[2 + la] == c);
    assert(src.subrange(3 + la, 3 + la + lb) =~= b);
    assert(src[3 + la + lb] == '"');
    let s0 = initial_state();
    assert(state_ok(src, s0));
    lemma_scan_plain_run(src, 1, la, 1, 2, Seq::empty());
    assert(Seq::<char>::empty() + a =~= a);
    let v = a.push(escape_spec(c));
    lemma_scan_plain_run(src, 3 + la, lb, 1, 4 + la, v);
    let sc = scan_string(src, 1, 1, 2, Seq::empty());
    assert(sc == scan_string(src, 3 + la + lb, 1, 4 + la + lb, v + b));
    assert(sc.end == n && sc.terminated && sc.value == v + b);
    let s1 = lex_step(src, s0);
    assert(s1 == string_step(src, s0));
    assert(s1.idx == n);
    assert(s1.tokens.len() == 1 && s1.diags.len() == 0);
    assert(lex_from(src, s0) == lex_from(src, s1));
    assert(v + b =~= a + seq![escape_spec(c)] + b);
}

pub open spec fn initial_state() -> LexState {
    LexState { idx: 0, line: 1, col: 1, tokens: Seq::empty(), diags: Seq::empty() }
}

/// The tokens and diagnostics of `src`.
pub open spec fn lex_spec(src: Seq<char>) -> (Seq<TokenView>, Seq<DiagnosticView>) {
    let s = lex_from(src, initial_state());
    (s.tokens, s.diags)
}

pub open spec fn keyword_spec(t: Seq<char>) -> Option<Keyword> {
    if t == "module"@ {
        Some(Keyword::Module)
    } else if t == "import"@ {
        Some(Keyword::Import)
    } else if t == "pub"@ {
        Some(Keyword::Pub)
    } else if t == "type"@ {
        Some(Keyword::Type)
    } else if t == "if"@ {
        Some(Keyword::If)
    } else if t == "else"@ {
        Some(Keyword::Else)
    } else if t == "for"@ {
        Some(Keyword::For)
    } else if t == "while"@ {
        Some(Keyword::While)
    } else if t == "repeat"@ {
        Some(Keyword::Repeat)
    } else if t == "match"@ {
        Some(Keyword::Match)
    } else if t == "return"@ {
        Some(Keyword::Return)
    } else if t == "go"@ {
        Some(Keyword::Go)
    } else if t == "select"@ {
        Some(Keyword::Select)
    } else if t == "case"@ {
        Some(Keyword::Case)
    } else if t == "after"@ {
        Some(Keyword::After)
    } else if t == "closed"@ {
        Some(Keyword::Closed)
    } else if t == "default"@ {
        Some(Keyword::Default)
    } else if t == "in"@ {
        Some(Keyword::In)
    } else if t == "true"@ {
        Some(Keyword::True)
    } else if t == "false"@ {
        Some(Keyword::False)
    } else if t == "enum"@ {
        Some(Keyword::Enum)
    } else if t == "mut"@ {
        Some(Keyword::Mut)
    } else if t == "break"@ {
        Some(Keyword::Break)
    } else if t == "continue"@ {
        Some(Keyword::Continue)
    } else if t == "thread"@ {
        Some(Keyword::Thread)
    } else if t == "async"@ {
        Some(Keyword::Async)
    } else if t == "await"@ {
        Some(Keyword::Await)
    } else if t == "fn"@ {
        Some(Keyword::Fn)
    } else {
        None
    }
}

fn keyword_of(text: &[char]) -> (r: Option<Keyword>)
    ensures
        r == keyword_spec(text@),
{
    if chars_equal(text, "module") {
        Some(Keyword::Module)
    } else if chars_equal(text, "import") {
        Some(Keyword::Import)
    } else if chars_equal(text, "pub") {
        Some(Keyword::Pub)
    } else if chars_equal(text, "type") {
        Some(Keyword::Type)
    } else if chars_equal(text, "if") {
        Some(Keyword::If)
    } else if chars_equal(text, "else") {
        Some(Keyword::Else)
    } else if chars_equal(text, "for") {
        Some(Keyword::For)
    } else if chars_equal(text, "while") {
        Some(Keyword::While)
    } else if chars_equal(text, "repeat") {
        Some(Keyword::Repeat)
    } else if chars_equal(text, "match") {
        Some(Keyword::Match)
    } else if chars_equal(text, "return") {
        Some(Keyword::Return)
    } else if chars_equal(text, "go") {
        Some(Keyword::Go)
    } else if chars_equal(text, "select") {
        Some(Keyword::Select)
    } else if chars_equal(text, "case") {
        Some(Keyword::Case)
    } else if chars_equal(text, "after") {
        Some(Keyword::After)
    } else if chars_equal(text, "closed") {
        Some(Keyword::Closed)
    } else if chars_equal(text, "default") {
        Some(Keyword::Default)
    } else if chars_equal(text, "in") {
        Some(Keyword::In)
    } else if chars_equal(text, "true") {
        Some(Keyword::True)
    } else if chars_equal(text, "false") {
        Some(Keyword::False)
    } else if chars_equal(text, "enum") {
        Some(Keyword::Enum)
    } else if chars_equal(text, "mut") {
        Some(Keyword::Mut)
    } else if chars_equal(text, "break") {
        Some(Keyword::Break)
    } else if chars_equal(text, "continue") {
        Some(Keyword::Continue)
    } else if chars_equal(text, "thread") {
        Some(Keyword::Thread)
    } else if chars_equal(text, "async") {
        Some(Keyword::Async)
    } else if chars_equal(text, "await") {
        Some(Keyword::Await)
    } else if chars_equal(text, "fn") {
        Some(Keyword::Fn)
    } else {
        None
    }
}
fn is_digit(c: char) -> (r: bool)
    ensures
        r == is_digit_spec(c),
{
    '0' <= c && c <= '9'
}

fn is_ident_start(c: char) -> (r: bool)
    ensures
        r == is_ident_start_spec(c),
{
    ('a' <= c && c <= 'z') || ('A' <= c && c <= 'Z') || c == '_'
}

fn is_ident_continue(c: char) -> (r: bool)
    ensures
        r == is_ident_continue_spec(c),
{
    is_ident_start(c) || is_digit(c)
}

fn escape(c: char) -> (r: char)
    ensures
        r == escape_spec(c),
{
    if c == 'n' {
        '\n'
    } else if c == 't' {
        '\t'
    } else if c == 'r' {
        '\r'
    } else {
        c
    }
}

struct Lexer {
    chars: Vec<char>,
    idx: usize,
    line: usize,
    col: usize,
    tokens: Vec<Token>,
    diags: Diagnostics,
}

impl Lexer {
    spec fn state(&self) -> LexState {
        LexState {
            idx: self.idx as int,
            line: self.line as int,
            col: self.col as int,
            tokens: views(self.tokens@),
            diags: self.diags@,
        }
    }

    spec fn ok(&self) -> bool {
        state_ok(self.chars@, self.state())
    }

    fn new(src: &str) -> (r: Self)
        requires
            src@.len() < usize::MAX,
        ensures
            r.chars@ == src@,
            r.state() == initial_state(),
            r.ok(),
    {
        let r = Lexer {
            chars: chars_of(src),
            idx: 0,
            line: 1,
            col: 1,
            tokens: Vec::new(),
            diags: Diagnostics::new(),
        };
        assert(views(r.tokens@) =~= Seq::<TokenView>::empty());
        r
    }

    fn peek(&self) -> (r: Option<char>)
        ensures
            r == char_at(self.chars@, self.idx as int),
    {
        if self.idx < self.chars.len() {
            Some(self.chars[self.idx])
        } else {
            None
        }
    }

    fn peek_next(&self) -> (r: Option<char>)
        requires
            self.idx < usize::MAX,
        ensures
            r == char_at(self.chars@, self.idx + 1),
    {
        if self.idx + 1 < self.chars.len() {
            Some(self.chars[self.idx + 1])
        } else {
            None
        }
    }

    /// Moves past the next character on the same line.
    fn bump(&mut self) -> (r: Option<char>)
        requires
            old(self).ok(),
        ensures
            r == char_at(old(self).chars@, old(self).idx as int),
            final(self).chars@ == old(self).chars@,
            final(self).tokens == old(self).tokens,
            final(self).diags == old(self).diags,
            final(self).line == old(self).line,
            r.is_some() ==> final(self).idx == old(self).idx + 1 && final(self).col == old(self).col
                + 1,
            r.is_none() ==> final(self).idx == old(self).idx && final(self).col == old(self).col,
    {
        let ch = self.peek();
        if ch.is_some() {
            self.idx = self.idx + 1;
            self.col = self.col + 1;
        }
        ch
    }

    /// Moves past a line break.
    fn bump_newline(&mut self)
        requires
            old(self).ok(),
            old(self).idx < old(self).chars@.len(),
        ensures
            final(self).chars@ == old(self).chars@,
            final(self).tokens == old(self).tokens,
            final(self).diags == old(self).diags,
            final(self).idx == old(self).idx + 1,
            final(self).line == old(self).line + 1,
            final(self).col == 1,
    {
        self.idx = self.idx + 1;
        self.line = self.line + 1;
        self.col = 1;
    }

    fn push_token(&mut self, kind: TokenKind, lexeme: String, span: Span)
        ensures
            final(self).chars@ == old(self).chars@,
            final(self).idx == old(self).idx,
            final(self).line == old(self).line,
            final(self).col == old(self).col,
            final(self).diags == old(self).diags,
            views(final(self).tokens@) == views(old(self).tokens@).push(
                TokenView { kind, lexeme: lexeme@, span },
            ),
    {
        let ghost lv = lexeme@;
        self.tokens.push(Token { kind, lexeme, span });
        assert(views(self.tokens@) =~= views(old(self).tokens@).push(
            TokenView { kind, lexeme: lv, span },
        ));
    }

    fn consume_comment(&mut self)
        requires
            old(self).ok(),
        ensures
            final(self).state() == (LexState {
                idx: comment_end(old(self).chars@, old(self).idx as int),
                col: old(self).col + (comment_end(old(self).chars@, old(self).idx as int)
                    - old(self).idx),
                ..old(self).state()
            }),
            final(self).chars@ == old(self).chars@,
            final(self).ok(),
    {
        let ghost start = self.idx as int;
        let ghost col0 = self.col as int;
        while self.idx < self.chars.len() && self.chars[self.idx] != '\n'
            invariant
                self.chars@ == old(self).chars@,
                self.tokens == old(self).tokens,
                self.diags == old(self).diags,
                self.line == old(self).line,
                self.ok(),
                start <= self.idx,
                self.col == col0 + (self.idx - start),
                comment_end(self.chars@, start) == comment_end(self.chars@, self.idx as int),
            decreases self.chars.len() - self.idx,
        {
            self.bump();
        }
    }

    fn lex_string(&mut self)
        requires
            old(self).ok(),
            old(self).idx < old(self).chars@.len(),
            old(self).chars@[old(self).idx as int] == '"',
        ensures
            final(self).chars@ == old(self).chars@,
            final(self).state() == string_step(old(self).chars@, old(self).state()),
    {
        let ghost cs = self.chars@;
        let ghost target = scan_string(cs, self.idx + 1, self.line as int, self.col + 1, Seq::empty());
        proof {
            lemma_scan_string_bounds(cs, self.idx + 1, self.line as int, self.col + 1, Seq::empty());
        }
        let line0 = self.line;
        let col0 = self.col;
        self.bump();
        let mut value: Vec<char> = Vec::new();
        let mut terminated = false;
        while self.idx < self.chars.len()
            invariant_except_break
                scan_string(cs, self.idx as int, self.line as int, self.col as int, value@)
                    == target,
                !terminated,
            invariant
                cs == self.chars@,
                self.tokens == old(self).tokens,
                self.diags == old(self).diags,
                self.ok(),
            ensures
                target == (StringScan {
                    end: self.idx as int,
                    line: self.line as int,
                    col: self.col as int,
                    value: value@,
                    terminated,
                }),
            decreases self.chars.len() - self.idx,
        {
            let ch = self.chars[self.idx];
            if ch == '"' {
                self.bump();
                terminated = true;
                break;
            } else if ch == '\n' {
                self.bump_newline();
                value.push('\n');
            } else if ch == '\\' {
                self.bump();
                if self.idx < self.chars.len() {
                    let e = escape(self.chars[self.idx]);
                    self.bump();
                    value.push(e);
                }
            } else {
                self.bump();
                value.push(ch);
            }
        }
        let end_col = self.col - 1;
        let span = Span::new(line0, col0, self.line, end_col);
        if !terminated {
            self.diags.push(Diagnostic::new("E1002", Severity::Error, "unterminated string literal", span));
            assert(views(Seq::<crate::diagnostics::RelatedSpan>::empty()) =~= Seq::<
                crate::diagnostics::RelatedSpanView,
            >::empty());
        }
        let lexeme = crate::text::string_of(value.as_slice());
        self.push_token(TokenKind::StringLit, lexeme, span);
    }

    fn lex_number(&mut self)
        requires
            old(self).ok(),
            old(self).idx < old(self).chars@.len(),
            is_digit_spec(old(self).chars@[old(self).idx as int]),
        ensures
            final(self).chars@ == old(self).chars@,
            final(self).state() == number_step(old(self).chars@, old(self).state()),
    {
        let ghost cs = self.chars@;
        let start = self.idx;
        let col0 = self.col;
        proof {
            lemma_runs_advance(cs, start as int);
        }
        while self.idx < self.chars.len() && is_digit(self.chars[self.idx])
            invariant
                cs == self.chars@,
                self.tokens == old(self).tokens,
                self.diags == old(self).diags,
                self.line == old(self).line,
                self.ok(),
                start <= self.idx,
                self.col == col0 + (self.idx - start),
                digits_end(cs, start as int) == digits_end(cs, self.idx as int),
            decreases self.chars.len() - self.idx,
        {
            self.bump();
        }
        let mut kind = TokenKind::IntLit;
        if self.idx + 1 < self.chars.len() && self.chars[self.idx] == '.' && is_digit(
            self.chars[self.idx + 1],
        ) {
            kind = TokenKind::FloatLit;
            self.bump();
            let ghost j = self.idx as int;
            proof {
                lemma_runs_advance(cs, j);
            }
            while self.idx < self.chars.len() && is_digit(self.chars[self.idx])
                invariant
                    cs == self.chars@,
                    self.tokens == old(self).tokens,
                    self.diags == old(self).diags,
                    self.line == old(self).line,
                    self.ok(),
                    start <= self.idx,
                    self.col == col0 + (self.idx - start),
                    digits_end(cs, j) == digits_end(cs, self.idx as int),
                decreases self.chars.len() - self.idx,
            {
                self.bump();
            }
        }
        let lexeme = string_of_range(self.chars.as_slice(), start, self.idx);
        let span = Span::new(self.line, col0, self.line, self.col - 1);
        self.push_token(kind, lexeme, span);
    }

    fn lex_ident_or_keyword(&mut self)
        requires
            old(self).ok(),
            old(self).idx < old(self).chars@.len(),
            is_ident_start_spec(old(self).chars@[old(self).idx as int]),
        ensures
            final(self).chars@ == old(self).chars@,
            final(self).state() == ident_step(old(self).chars@, old(self).state()),
    {
        let ghost cs = self.chars@;
        let start = self.idx;
        let col0 = self.col;
        proof {
            lemma_runs_advance(cs, start as int);
        }
        while self.idx < self.chars.len() && is_ident_continue(self.chars[self.idx])
            invariant
                cs == self.chars@,
                self.tokens == old(self).tokens,
                self.diags == old(self).diags,
                self.line == old(self).line,
                self.ok(),
                start <= self.idx,
                self.col == col0 + (self.idx - start),
                ident_end(cs, start as int) == ident_end(cs, self.idx as int),
            decreases self.chars.len() - self.idx,
        {
            self.bump();
        }
        let text = crate::text::slice_range(self.chars.as_slice(), start, self.idx);
        let kind = match keyword_of(text.as_slice()) {
            Some(k) => TokenKind::Keyword(k),
            None => TokenKind::Ident,
        };
        let lexeme = crate::text::string_of(text.as_slice());
        let span = Span::new(self.line, col0, self.line, self.col - 1);
        self.push_token(kind, lexeme, span);
    }

    fn lex_symbol(&mut self)
        requires
            old(self).ok(),
            old(self).idx < old(self).chars@.len(),
        ensures
            final(self).chars@ == old(self).chars@,
            final(self).state() == symbol_step(old(self).chars@, old(self).state()),
    {
        let ghost cs = self.chars@;
        let start = self.idx;
        let line = self.line;
        let col = self.col;
        let c = self.chars[self.idx];
        let next = self.peek_next();
        let sym = symbol_of(c, next);
        let ghost goal = symbol_step(cs, self.state());
        match sym {
            Some((kind, w)) => {
                assert(symbol_spec(c, char_at(cs, start + 1)) == Some((kind, w as int)));
                assert(w == 1 || w == 2);
                assert(w == 2 ==> start + 1 < cs.len());
                self.idx = self.idx + w;
                self.col = self.col + w;
                let lexeme = string_of_range(self.chars.as_slice(), start, self.idx);
                let span = Span::new(line, col, line, self.col - 1);
                self.push_token(kind, lexeme, span);
                assert(self.state().idx == old(self).state().idx + w);
                assert(self.state().tokens == old(self).state().tokens.push(
                    TokenView {
                        kind,
                        lexeme: cs.subrange(start as int, start + w),
                        span: span_at(line as int, col as int, line as int, col + w - 1),
                    },
                ));
                let ghost st = goal;
                assert(st.idx == start + w);
                assert(st.col == col + w);
                assert(st.line == line);
                assert(st.diags == old(self).state().diags);
                assert(st.tokens == self.state().tokens);
                assert(self.state() == st);
            },
            None => {
                let mut message = String::new();
                push_str(&mut message, "unexpected character `");
                push_char(&mut message, c);
                push_str(&mut message, "`");
                let span = Span::new(line, col, line, col);
                self.diags.push(Diagnostic::new("E1001", Severity::Error, message.as_str(), span));
                assert(views(Seq::<crate::diagnostics::RelatedSpan>::empty()) =~= Seq::<
                    crate::diagnostics::RelatedSpanView,
                >::empty());
                self.idx = self.idx + 1;
                self.col = self.col + 1;
                assert(symbol_spec(c, char_at(cs, start + 1)).is_none());
                assert(message@ == unexpected_char_message(c));
                assert(self.state() == goal);
            },
        }
        assert(goal == symbol_step(old(self).chars@, old(self).state()));
    }

    fn run(&mut self)
        requires
            old(self).ok(),
        ensures
            final(self).chars@ == old(self).chars@,
            final(self).state() == lex_from(old(self).chars@, old(self).state()),
    {
        let ghost cs = self.chars@;
        let ghost goal = lex_from(cs, self.state());
        while self.idx < self.chars.len()
            invariant
                cs == self.chars@,
                self.ok(),
                lex_from(cs, self.state()) == goal,
            decreases self.chars.len() - self.idx,
        {
            let ghost before = self.state();
            proof {
                lemma_step_ok(cs, before);
            }
            let ch = self.chars[self.idx];
            if ch == ' ' || ch == '\t' || ch == '\r' {
                self.bump();
            } else if ch == '\n' {
                let span = Span::new(self.line, self.col, self.line, self.col);
                let lexeme = string_of_range(self.chars.as_slice(), self.idx, self.idx + 1);
                assert(cs.subrange(before.idx, before.idx + 1) =~= seq!['\n']);
                self.bump_newline();
                self.push_token(TokenKind::Newline, lexeme, span);
            } else if ch == '/' && self.idx + 1 < self.chars.len() && self.chars[self.idx + 1] == '/' {
                self.consume_comment();
            } else if ch == '"' {
                self.lex_string();
            } else if is_digit(ch) {
                self.lex_number();
            } else if is_ident_start(ch) {
                self.lex_ident_or_keyword();
            } else {
                self.lex_symbol();
            }
            assert(self.state() == lex_step(cs, before));
        }
        let span = Span::new(self.line, self.col, self.line, self.col);
        self.push_token(TokenKind::Eof, String::new(), span);
    }
}

fn symbol_of(c: char, next: Option<char>) -> (r: Option<(TokenKind, usize)>)
    ensures
        match r {
            Some((k, w)) => symbol_spec(c, next) == Some((k, w as int)),
            None => symbol_spec(c, next).is_none(),
        },
{
    if c == '@' {
        Some((TokenKind::At, 1))
    } else if c == '{' {
        Some((TokenKind::LBrace, 1))
    } else if c == '}' {
        Some((TokenKind::RBrace, 1))
    } else if c == '(' {
        Some((TokenKind::LParen, 1))
    } else if c == ')' {
        Some((TokenKind::RParen, 1))
    } else if c == '[' {
        Some((TokenKind::LBracket, 1))
    } else if c == ']' {
        Some((TokenKind::RBracket, 1))
    } else if c == ',' {
        Some((TokenKind::Comma, 1))
    } else if c == '.' {
        Some((TokenKind::Dot, 1))
    } else if c == '?' {
        Some((TokenKind::Question, 1))
    } else if c == '+' {
        Some((TokenKind::Plus, 1))
    } else if c == '*' {
        Some((TokenKind::Star, 1))
    } else if c == '/' {
        Some((TokenKind::Slash, 1))
    } else if c == ':' {
        if next == Some('=') {
            Some((TokenKind::Bind, 2))
        } else {
            Some((TokenKind::Colon, 1))
        }
    } else if c == '-' {
        if next == Some('>') {
            Some((TokenKind::Arrow, 2))
        } else {
            Some((TokenKind::Minus, 1))
        }
    } else if c == '=' {
        if next == Some('>') {
            Some((TokenKind::FatArrow, 2))
        } else if next == Some('=') {
            Some((TokenKind::EqEq, 2))
        } else {
            Some((TokenKind::Assign, 1))
        }
    } else if c == '!' {
        if next == Some('=') {
            Some((TokenKind::NotEq, 2))
        } else {
            Some((TokenKind::Bang, 1))
        }
    } else if c == '<' {
        if next == Some('=') {
            Some((TokenKind::Le, 2))
        } else if next == Some('<') {
            Some((TokenKind::LtLt, 2))
        } else {
            Some((TokenKind::Lt, 1))
        }
    } else if c == '>' {
        if next == Some('=') {
            Some((TokenKind::Ge, 2))
        } else if next == Some('>') {
            Some((TokenKind::GtGt, 2))
        } else {
            Some((TokenKind::Gt, 1))
        }
    } else if c == '%' {
        Some((TokenKind::Percent, 1))
    } else if c == '^' {
        Some((TokenKind::Caret, 1))
    } else if c == '&' {
        if next == Some('&') {
            Some((TokenKind::AmpAmp, 2))
        } else {
            Some((TokenKind::Amp, 1))
        }
    } else if c == '|' {
        if next == Some('|') {
            Some((TokenKind::PipePipe, 2))
        } else {
            Some((TokenKind::Pipe, 1))
        }
    } else {
        None
    }
}

/// Splits source text into tokens, ending with an end-of-file token, and
/// reports unterminated strings (`E1002`) and unexpected characters (`E1001`).
pub fn lex(source: &str) -> (r: (Vec<Token>, Diagnostics))
    requires
        source@.len() < usize::MAX,
    ensures
        (views(r.0@), r.1@) == lex_spec(source@),
{
    let mut lx = Lexer::new(source);
    lx.run();
    (lx.tokens, lx.diags)
}

} // verus!
