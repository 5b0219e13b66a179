//! The parser's cursor over the tokens of one source file: looking at the
//! current token, stepping past it, expecting a kind of token (with the
//! diagnostic that a missing one gives), and the recovery steps that skip
//! to the next declaration or statement.

use vstd::prelude::*;

pub mod interp;
pub mod literal;

use crate::ast::{
    Contract, Declaration, EnumDecl, EnumVariantDecl, ExampleCase, Expr, FileAst, FunctionDecl,
    MatchArm, Param, SelectCase, SelectPattern, Stmt, TypeDecl, TypeField, TypeRef,
};
use crate::hir::{BinaryOp, UnaryOp};
use crate::diagnostics::{Diagnostic, DiagnosticView, Diagnostics, Severity, Span};
use crate::parser::literal::{i64_literal, parse_i64_literal};
use crate::parser::interp::{
    concat_parts, has_interp, has_interpolation, interp_parts, is_concat_of, part_views,
    remove_nul, scan_interp_parts, trim_chars, trim_space, without_nul,
};
use crate::lexer::{lemma_lex_ends_with_eof, lex, lex_spec, Keyword, Token, TokenKind, TokenView};
use crate::order::views;
use crate::text::{chars_of, push_char, push_str, str_eq, to_owned_string};

verus! {

/// Where a construct being parsed may end.
#[derive(Debug, Clone, Copy, PartialEq, Eq, Structural)]
pub enum StopToken {
    Newline,
    Comma,
    Colon,
    RParen,
    RBrace,
    RBracket,
    FatArrow,
    LBrace,
}

/// A cursor over a token list that ends with `Eof`, and the diagnostics
/// reported while parsing.
pub struct Parser {
    tokens: Vec<Token>,
    idx: usize,
    diagnostics: Diagnostics,
    expr_depth: usize,
    expr_depth_exceeded: bool,
}

/// A token list the cursor can walk: not empty, and ending with `Eof`.
pub open spec fn tokens_wf(toks: Seq<TokenView>) -> bool {
    toks.len() > 0 && toks.last().kind == TokenKind::Eof
}

/// The position after stepping past the token at `i`: the last token is
/// never stepped past.
pub open spec fn advance(toks: Seq<TokenView>, i: int) -> int {
    if i < toks.len() - 1 {
        i + 1
    } else {
        i
    }
}

/// The error diagnostic a missing token gives.
pub open spec fn error_at(code: Seq<char>, message: Seq<char>, span: Span) -> DiagnosticView {
    DiagnosticView { code, severity: Severity::Error, message, span, related: Seq::empty() }
}

/// The first position from `i` on whose token is not a newline.
pub open spec fn skip_newlines(toks: Seq<TokenView>, i: int) -> int
    decreases toks.len() - i,
{
    if 0 <= i < toks.len() && toks[i].kind == TokenKind::Newline {
        skip_newlines(toks, i + 1)
    } else {
        i
    }
}

/// The kind of the first token from `i` on that is not a newline.
pub open spec fn first_non_newline(toks: Seq<TokenView>, i: int) -> Option<TokenKind> {
    let j = skip_newlines(toks, i);
    if 0 <= j < toks.len() {
        Some(toks[j].kind)
    } else {
        None
    }
}

/// Where recovery to the next declaration stops: at the end, at `pub`, or
/// at an identifier.
pub open spec fn decl_sync_point(toks: Seq<TokenView>, i: int) -> int
    decreases toks.len() - i,
{
    if i < 0 || i >= toks.len() - 1 {
        i
    } else if toks[i].kind == TokenKind::Eof || toks[i].kind == TokenKind::Keyword(Keyword::Pub)
        || toks[i].kind == TokenKind::Ident {
        i
    } else {
        decl_sync_point(toks, i + 1)
    }
}

/// Where recovery to the next statement stops: past the newlines that end
/// the current line, at a `}`, or at the end.
pub open spec fn stmt_sync_point(toks: Seq<TokenView>, i: int) -> int
    decreases toks.len() - i,
{
    if i < 0 || i >= toks.len() - 1 || toks[i].kind == TokenKind::Eof {
        i
    } else if toks[i].kind == TokenKind::Newline {
        skip_newlines(toks, i)
    } else if toks[i].kind == TokenKind::RBrace {
        i
    } else {
        stmt_sync_point(toks, i + 1)
    }
}

/// Whether the token at `i` ends a construct at `stop`. A newline does not
/// when the next token that is not a newline is `.` (a method chain that
/// continues on the next line).
pub open spec fn stop_matches(toks: Seq<TokenView>, i: int, stop: StopToken) -> bool {
    let k = toks[i].kind;
    match stop {
        StopToken::Newline => k == TokenKind::Newline && first_non_newline(toks, i) != Some(
            TokenKind::Dot,
        ),
        StopToken::Comma => k == TokenKind::Comma,
        StopToken::Colon => k == TokenKind::Colon,
        StopToken::RParen => k == TokenKind::RParen,
        StopToken::RBrace => k == TokenKind::RBrace,
        StopToken::RBracket => k == TokenKind::RBracket,
        StopToken::FatArrow => k == TokenKind::FatArrow,
        StopToken::LBrace => k == TokenKind::LBrace,
    }
}

/// Expecting an identifier at `i`: its text and the position after it, or
/// the placeholder `__error` and the diagnostic, the position unchanged.
pub open spec fn expect_ident_step(
    toks: Seq<TokenView>,
    i: int,
    diags: Seq<DiagnosticView>,
    code: Seq<char>,
    message: Seq<char>,
) -> (Seq<char>, int, Seq<DiagnosticView>) {
    if toks[i].kind == TokenKind::Ident {
        (toks[i].lexeme, advance(toks, i), diags)
    } else {
        ("__error"@, i, diags.push(error_at(code, message, toks[i].span)))
    }
}

/// The rest of a dotted name from `i`: while a `.` follows, the next
/// identifier is appended after a `.`.
pub open spec fn qualified_rest(
    toks: Seq<TokenView>,
    i: int,
    name: Seq<char>,
    diags: Seq<DiagnosticView>,
) -> (Seq<char>, int, Seq<DiagnosticView>)
    decreases toks.len() - i,
{
    if 0 <= i < toks.len() - 1 && toks[i].kind == TokenKind::Dot {
        let (part, k, d) = expect_ident_step(
            toks,
            i + 1,
            diags,
            "E1151"@,
            "expected identifier after `.`"@,
        );
        qualified_rest(toks, k, name + "."@ + part, d)
    } else {
        (name, i, diags)
    }
}

/// A dotted name from `i`: the name, the position after it, and the
/// diagnostics after reading it.
pub open spec fn qualified_ident(toks: Seq<TokenView>, i: int, diags: Seq<DiagnosticView>) -> (
    Seq<char>,
    int,
    Seq<DiagnosticView>,
) {
    let (first, j, d) = expect_ident_step(toks, i, diags, "E1150"@, "expected identifier"@);
    qualified_rest(toks, j, first, d)
}

/// The names of a type parameter list after its `<`, up to (not
/// including) the `>` that should close it.
pub open spec fn type_param_names(
    toks: Seq<TokenView>,
    i: int,
    names: Seq<Seq<char>>,
    diags: Seq<DiagnosticView>,
) -> (Seq<Seq<char>>, int, Seq<DiagnosticView>)
    decreases toks.len() - i,
{
    if i < 0 || i >= toks.len() || toks[i].kind == TokenKind::Gt {
        (names, i, diags)
    } else {
        let (p, j, d) = expect_ident_step(
            toks,
            i,
            diags,
            "E1102a"@,
            "expected type parameter name after `<`"@,
        );
        if 0 <= j < toks.len() - 1 && toks[j].kind == TokenKind::Comma {
            type_param_names(toks, j + 1, names.push(p), d)
        } else {
            (names.push(p), j, d)
        }
    }
}

impl Parser {
    pub closed spec fn toks(&self) -> Seq<TokenView> {
        views(self.tokens@)
    }

    pub closed spec fn pos(&self) -> int {
        self.idx as int
    }

    pub closed spec fn diags(&self) -> Seq<DiagnosticView> {
        self.diagnostics@
    }

    pub closed spec fn quiet(&self) -> bool {
        self.expr_depth_exceeded
    }

    /// How many expression levels are open.
    pub closed spec fn depth(&self) -> int {
        self.expr_depth as int
    }

    /// The cursor's invariant: a well-formed token list and a position in it.
    pub open spec fn wf(&self) -> bool {
        tokens_wf(self.toks()) && 0 <= self.pos() < self.toks().len()
    }

    /// The current token.
    pub open spec fn cur(&self) -> TokenView {
        self.toks()[self.pos()]
    }

    /// A cursor at the first of `tokens`, with no diagnostics.
    pub fn new(tokens: Vec<Token>) -> (r: Self)
        requires
            tokens_wf(views(tokens@)),
        ensures
            r.wf(),
            r.toks() == views(tokens@),
            r.pos() == 0,
            r.diags() == Seq::<DiagnosticView>::empty(),
            !r.quiet(),
    {
        Parser {
            tokens,
            idx: 0,
            diagnostics: Diagnostics::new(),
            expr_depth: 0,
            expr_depth_exceeded: false,
        }
    }

    /// The diagnostics reported so far.
    pub fn into_diagnostics(self) -> (r: Diagnostics)
        ensures
            r@ == self.diags(),
    {
        self.diagnostics
    }

    /// The current token.
    pub fn peek(&self) -> (r: &Token)
        requires
            self.wf(),
        ensures
            r@ == self.cur(),
    {
        &self.tokens[self.idx]
    }

    /// Steps past the current token (never past the last) and returns it.
    pub fn bump(&mut self) -> (r: Token)
        requires
            old(self).wf(),
        ensures
            final(self).pos() >= old(self).pos(),
            final(self).wf(),
            r@ == old(self).cur(),
            final(self).pos() == advance(old(self).toks(), old(self).pos()),
            final(self).toks() == old(self).toks(),
            final(self).diags() == old(self).diags(),
            final(self).quiet() == old(self).quiet(),
            final(self).depth() == old(self).depth(),
    {
        let t = &self.tokens[self.idx];
        let tok = Token { kind: t.kind, lexeme: t.lexeme.clone(), span: t.span };
        if self.idx < self.tokens.len() - 1 {
            self.idx = self.idx + 1;
        }
        tok
    }

    /// Whether the current token is the end of input.
    pub fn is_eof(&self) -> (r: bool)
        requires
            self.wf(),
        ensures
            r == (self.cur().kind == TokenKind::Eof),
    {
        self.tokens[self.idx].kind == TokenKind::Eof
    }

    /// Whether the current token is of `kind`.
    pub fn at(&self, kind: TokenKind) -> (r: bool)
        requires
            self.wf(),
        ensures
            r == (self.cur().kind == kind),
    {
        self.tokens[self.idx].kind == kind
    }

    /// Whether the current token is an identifier.
    pub fn at_ident(&self) -> (r: bool)
        requires
            self.wf(),
        ensures
            r == (self.cur().kind == TokenKind::Ident),
    {
        self.at(TokenKind::Ident)
    }

    /// Whether the current token is the keyword `kw`.
    pub fn at_keyword(&self, kw: Keyword) -> (r: bool)
        requires
            self.wf(),
        ensures
            r == (self.cur().kind == TokenKind::Keyword(kw)),
    {
        self.at(TokenKind::Keyword(kw))
    }

    /// Steps past the current token if it is of `kind`, and says whether it was.
    pub fn match_kind(&mut self, kind: TokenKind) -> (r: bool)
        requires
            old(self).wf(),
        ensures
            final(self).pos() >= old(self).pos(),
            final(self).wf(),
            r == (old(self).cur().kind == kind),
            final(self).pos() == if r {
                advance(old(self).toks(), old(self).pos())
            } else {
                old(self).pos()
            },
            final(self).toks() == old(self).toks(),
            final(self).diags() == old(self).diags(),
            final(self).quiet() == old(self).quiet(),
            final(self).depth() == old(self).depth(),
    {
        if self.at(kind) {
            self.bump();
            true
        } else {
            false
        }
    }

    /// The kind of the token `n` places ahead, if there is one.
    pub fn peek_n_kind(&self, n: usize) -> (r: Option<TokenKind>)
        requires
            self.wf(),
            self.pos() + n <= usize::MAX,
        ensures
            r == if self.pos() + n < self.toks().len() {
                Some(self.toks()[self.pos() + n].kind)
            } else {
                None::<TokenKind>
            },
    {
        let i = self.idx + n;
        if i < self.tokens.len() {
            Some(self.tokens[i].kind)
        } else {
            None
        }
    }

    /// The kind of the first token from here on that is not a newline.
    pub fn peek_non_newline_kind(&self) -> (r: Option<TokenKind>)
        requires
            self.wf(),
        ensures
            r == first_non_newline(self.toks(), self.pos()),
    {
        let ghost toks = self.toks();
        let mut i = self.idx;
        while i < self.tokens.len()
            invariant
                toks == self.toks(),
                self.pos() <= i <= toks.len(),
                skip_newlines(toks, self.pos()) == skip_newlines(toks, i as int),
            decreases self.tokens.len() - i,
        {
            assert(toks[i as int].kind == self.tokens@[i as int].kind);
            if self.tokens[i].kind != TokenKind::Newline {
                return Some(self.tokens[i].kind);
            }
            i = i + 1;
        }
        None
    }

    /// Steps past newlines.
    pub fn consume_newlines(&mut self)
        requires
            old(self).wf(),
        ensures
            final(self).pos() >= old(self).pos(),
            final(self).wf(),
            final(self).pos() == skip_newlines(old(self).toks(), old(self).pos()),
            final(self).toks() == old(self).toks(),
            final(self).diags() == old(self).diags(),
            final(self).quiet() == old(self).quiet(),
    {
        let ghost start = self.pos();
        while self.at(TokenKind::Newline)
            invariant
                self.wf(),
                self.toks() == old(self).toks(),
                self.diags() == old(self).diags(),
                self.quiet() == old(self).quiet(),
                old(self).pos() <= self.pos(),
                skip_newlines(self.toks(), old(self).pos()) == skip_newlines(
                    self.toks(),
                    self.pos(),
                ),
            decreases self.toks().len() - self.pos(),
        {
            self.bump();
        }
    }

    /// Steps past the newlines that end a line, if it is at one.
    pub fn consume_line_end(&mut self)
        requires
            old(self).wf(),
        ensures
            final(self).pos() >= old(self).pos(),
            final(self).wf(),
            final(self).pos() == skip_newlines(old(self).toks(), old(self).pos()),
            final(self).toks() == old(self).toks(),
            final(self).diags() == old(self).diags(),
            final(self).quiet() == old(self).quiet(),
    {
        if self.at(TokenKind::Newline) {
            self.consume_newlines();
        }
    }

    /// Skips to where the next declaration can start.
    pub fn sync_to_decl(&mut self)
        requires
            old(self).wf(),
        ensures
            final(self).pos() >= old(self).pos(),
            final(self).wf(),
            final(self).pos() == decl_sync_point(old(self).toks(), old(self).pos()),
            final(self).toks() == old(self).toks(),
            final(self).diags() == old(self).diags(),
            final(self).quiet() == old(self).quiet(),
    {
        while !self.is_eof()
            invariant
                old(self).pos() <= self.pos(),
                self.wf(),
                self.toks() == old(self).toks(),
                self.diags() == old(self).diags(),
                self.quiet() == old(self).quiet(),
                decl_sync_point(self.toks(), old(self).pos()) == decl_sync_point(
                    self.toks(),
                    self.pos(),
                ),
            decreases self.toks().len() - self.pos(),
        {
            if self.at_keyword(Keyword::Pub) || self.at_ident() {
                return;
            }
            self.bump();
        }
    }

    /// Skips to the end of the current statement: past the newlines that
    /// end its line, or to a `}`.
    pub fn sync_to_stmt_boundary(&mut self)
        requires
            old(self).wf(),
        ensures
            final(self).pos() >= old(self).pos(),
            final(self).wf(),
            final(self).pos() == stmt_sync_point(old(self).toks(), old(self).pos()),
            final(self).toks() == old(self).toks(),
            final(self).diags() == old(self).diags(),
            final(self).quiet() == old(self).quiet(),
    {
        while !self.is_eof()
            invariant
                old(self).pos() <= self.pos(),
                self.wf(),
                self.toks() == old(self).toks(),
                self.diags() == old(self).diags(),
                self.quiet() == old(self).quiet(),
                stmt_sync_point(self.toks(), old(self).pos()) == stmt_sync_point(
                    self.toks(),
                    self.pos(),
                ),
            decreases self.toks().len() - self.pos(),
        {
            if self.at(TokenKind::Newline) {
                self.consume_newlines();
                return;
            }
            if self.at(TokenKind::RBrace) {
                return;
            }
            self.bump();
        }
    }

    /// Whether the current token ends a construct at any of `stop`.
    pub fn is_stop(&self, stop: &[StopToken]) -> (r: bool)
        requires
            self.wf(),
        ensures
            r == exists|k: int| 0 <= k < stop@.len() && stop_matches(self.toks(), self.pos(), #[trigger] stop@[k]),
    {
        let mut k: usize = 0;
        while k < stop.len()
            invariant
                self.wf(),
                k <= stop@.len(),
                forall|q: int| 0 <= q < k ==> !stop_matches(self.toks(), self.pos(), #[trigger] stop@[q]),
            decreases stop.len() - k,
        {
            let hit = match stop[k] {
                StopToken::Newline => self.at(TokenKind::Newline) && self.peek_non_newline_kind()
                    != Some(TokenKind::Dot),
                StopToken::Comma => self.at(TokenKind::Comma),
                StopToken::Colon => self.at(TokenKind::Colon),
                StopToken::RParen => self.at(TokenKind::RParen),
                StopToken::RBrace => self.at(TokenKind::RBrace),
                StopToken::RBracket => self.at(TokenKind::RBracket),
                StopToken::FatArrow => self.at(TokenKind::FatArrow),
                StopToken::LBrace => self.at(TokenKind::LBrace),
            };
            if hit {
                assert(stop_matches(self.toks(), self.pos(), stop@[k as int]));
                return true;
            }
            k = k + 1;
        }
        false
    }

    /// Reads an identifier; where there is none, reports `code` with
    /// `message` at the current token and gives `__error`.
    pub fn expect_ident(&mut self, code: &str, message: &str) -> (r: String)
        requires
            old(self).wf(),
        ensures
            final(self).pos() >= old(self).pos(),
            final(self).wf(),
            (r@, final(self).pos(), final(self).diags()) == expect_ident_step(
                old(self).toks(),
                old(self).pos(),
                old(self).diags(),
                code@,
                message@,
            ),
            final(self).toks() == old(self).toks(),
            final(self).quiet() == old(self).quiet(),
    {
        if self.at_ident() {
            self.bump().lexeme
        } else {
            let span = self.tokens[self.idx].span;
            self.diagnostics.push(Diagnostic::new(code, Severity::Error, message, span));
            to_owned_string("__error")
        }
    }

    /// Steps past a token of `kind` and gives its span; where there is none,
    /// reports `code` with `message` (unless diagnostics are held back while
    /// an over-deep expression is abandoned) and gives the current span.
    pub fn expect(&mut self, kind: TokenKind, code: &str, message: &str) -> (r: Span)
        requires
            old(self).wf(),
        ensures
            final(self).pos() >= old(self).pos(),
            final(self).wf(),
            final(self).toks() == old(self).toks(),
            final(self).quiet() == old(self).quiet(),
            r == old(self).cur().span,
            old(self).cur().kind == kind ==> final(self).pos() == advance(
                old(self).toks(),
                old(self).pos(),
            ) && final(self).diags() == old(self).diags(),
            old(self).cur().kind != kind ==> final(self).pos() == old(self).pos()
                && final(self).diags() == if old(self).quiet() {
                old(self).diags()
            } else {
                old(self).diags().push(error_at(code@, message@, old(self).cur().span))
            },
    {
        if self.at(kind) {
            self.bump().span
        } else {
            let span = self.tokens[self.idx].span;
            if !self.expr_depth_exceeded {
                self.diagnostics.push(Diagnostic::new(code, Severity::Error, message, span));
            }
            span
        }
    }

    /// Reads a dotted name such as `a.b.c`.
    pub fn parse_qualified_ident(&mut self) -> (r: String)
        requires
            old(self).wf(),
        ensures
            final(self).pos() >= old(self).pos(),
            final(self).wf(),
            (r@, final(self).pos(), final(self).diags()) == qualified_ident(
                old(self).toks(),
                old(self).pos(),
                old(self).diags(),
            ),
            final(self).toks() == old(self).toks(),
            final(self).quiet() == old(self).quiet(),
    {
        let mut name = self.expect_ident("E1150", "expected identifier");
        while self.at(TokenKind::Dot)
            invariant
                old(self).pos() <= self.pos(),
                self.wf(),
                self.toks() == old(self).toks(),
                self.quiet() == old(self).quiet(),
                qualified_ident(old(self).toks(), old(self).pos(), old(self).diags())
                    == qualified_rest(self.toks(), self.pos(), name@, self.diags()),
            decreases self.toks().len() - self.pos(),
        {
            assert(self.pos() < self.toks().len() - 1);
            self.bump();
            let part = self.expect_ident("E1151", "expected identifier after `.`");
            let ghost before = name@;
            push_char(&mut name, '.');
            push_str(&mut name, part.as_str());
            proof {
                reveal_strlit(".");
            }
            assert(name@ =~= before + "."@ + part@);
        }
        name
    }

    /// Reads an optional type parameter list `<A, B>` and gives its names.
    pub fn parse_optional_type_params(&mut self) -> (r: Vec<String>)
        requires
            old(self).wf(),
        ensures
            final(self).pos() >= old(self).pos(),
            final(self).wf(),
            final(self).toks() == old(self).toks(),
            final(self).quiet() == old(self).quiet(),
            old(self).cur().kind != TokenKind::Lt ==> r@.len() == 0 && final(self).pos() == old(
                self,
            ).pos() && final(self).diags() == old(self).diags(),
            old(self).cur().kind == TokenKind::Lt ==> {
                let (names, j, d) = type_param_names(
                    old(self).toks(),
                    advance(old(self).toks(), old(self).pos()),
                    Seq::empty(),
                    old(self).diags(),
                );
                &&& r@.map_values(|s: String| s@) == names
                &&& (old(self).toks()[j].kind == TokenKind::Gt ==> final(self).pos() == advance(
                    old(self).toks(),
                    j,
                ) && final(self).diags() == d)
                &&& (old(self).toks()[j].kind != TokenKind::Gt ==> final(self).pos() == j
                    && final(self).diags() == if old(self).quiet() {
                    d
                } else {
                    d.push(
                        error_at(
                            "E1102b"@,
                            "expected `>` to close type parameter list"@,
                            old(self).toks()[j].span,
                        ),
                    )
                })
            },
    {
        if !self.match_kind(TokenKind::Lt) {
            return Vec::new();
        }
        let ghost toks = self.toks();
        let ghost after_lt = self.pos();
        let ghost d0 = self.diags();
        let mut params: Vec<String> = Vec::new();
        assert(params@.map_values(|s: String| s@) =~= Seq::<Seq<char>>::empty());
        loop
            invariant_except_break
                type_param_names(toks, after_lt, Seq::empty(), d0) == type_param_names(
                    toks,
                    self.pos(),
                    params@.map_values(|s: String| s@),
                    self.diags(),
                ),
            invariant
                old(self).pos() <= self.pos(),
                self.wf(),
                self.toks() == toks,
                self.quiet() == old(self).quiet(),
            ensures
                old(self).pos() <= self.pos(),
                self.wf(),
                self.toks() == toks,
                self.quiet() == old(self).quiet(),
                type_param_names(toks, after_lt, Seq::empty(), d0) == (
                    params@.map_values(|s: String| s@),
                    self.pos(),
                    self.diags(),
                ),
            decreases self.toks().len() - self.pos(),
        {
            if self.at(TokenKind::Gt) {
                break;
            }
            let ghost before = params@.map_values(|s: String| s@);
            let p = self.expect_ident("E1102a", "expected type parameter name after `<`");
            params.push(p);
            assert(params@.map_values(|s: String| s@) =~= before.push(p@));
            if self.match_kind(TokenKind::Comma) {
                continue;
            }
            break;
        }
        self.expect(TokenKind::Gt, "E1102b", "expected `>` to close type parameter list");
        params
    }
}

/// The diagnostics for `n` empty interpolations in a string at `span`.
pub open spec fn empty_interp_errors(span: Span, n: nat) -> Seq<DiagnosticView>
    decreases n,
{
    if n == 0 {
        Seq::empty()
    } else {
        empty_interp_errors(span, (n - 1) as nat).push(
            error_at("E1413"@, "empty interpolation expression `{}`"@, span),
        )
    }
}

impl Parser {
    /// Reads a string literal's text as an interpolation when a `{name}`
    /// opens in it: the text pieces and `convert.to_str(name)` for each
    /// name, joined from the left with `+`, every node at `span` (a text
    /// with nothing but empty interpolations gives the empty string). Each
    /// empty `{}` is reported (E1413). `None`, with nothing reported, when
    /// no interpolation opens.
    pub fn try_desugar_string_interp(&mut self, raw: &str, span: Span) -> (r: Option<Expr>)
        ensures
            final(self).toks() == old(self).toks(),
            final(self).pos() == old(self).pos(),
            final(self).quiet() == old(self).quiet(),
            !has_interp(raw@, 0) ==> r is None && final(self).diags() == old(self).diags(),
            has_interp(raw@, 0) ==> final(self).diags() == old(self).diags() + empty_interp_errors(
                span,
                interp_parts(raw@).1,
            ),
            has_interp(raw@, 0) && interp_parts(raw@).0.len() == 0 ==> (r matches Some(
                Expr::String { value, span: s },
            ) && value@.len() == 0 && s == span),
            has_interp(raw@, 0) && interp_parts(raw@).0.len() > 0 ==> (r matches Some(e)
                && is_concat_of(e, interp_parts(raw@).0, span)),
    {
        let chars = chars_of(raw);
        if !has_interpolation(&chars) {
            return None;
        }
        let (parts, empties) = scan_interp_parts(&chars);
        let ghost before = self.diagnostics@;
        let mut k: usize = 0;
        while k < empties
            invariant
                k <= empties,
                self.diagnostics@ == before + empty_interp_errors(span, k as nat),
                self.tokens == old(self).tokens,
                self.idx == old(self).idx,
                self.expr_depth_exceeded == old(self).expr_depth_exceeded,
            decreases empties - k,
        {
            self.diagnostics.push(
                Diagnostic::new(
                    "E1413",
                    Severity::Error,
                    "empty interpolation expression `{}`",
                    span,
                ),
            );
            proof {
                assert(before + empty_interp_errors(span, (k + 1) as nat) =~= (before
                    + empty_interp_errors(span, k as nat)).push(
                    error_at("E1413"@, "empty interpolation expression `{}`"@, span),
                ));
            }
            k = k + 1;
        }
        if parts.len() == 0 {
            proof {
                assert(part_views(parts@).len() == 0);
            }
            return Some(Expr::String { value: String::new(), span });
        }
        concat_parts(&parts, span)
    }
}

impl Parser {
    /// Reads the integer literal at the cursor and steps past it: its value
    /// (`i64_literal`), or 0 with an E1414 error at the literal when it
    /// does not fit in an `i64`.
    pub fn parse_int_literal(&mut self) -> (r: Expr)
        requires
            old(self).wf(),
            old(self).cur().kind == TokenKind::IntLit,
        ensures
            final(self).wf(),
            final(self).toks() == old(self).toks(),
            final(self).pos() == advance(old(self).toks(), old(self).pos()),
            final(self).quiet() == old(self).quiet(),
            r matches Expr::Int { value, span } && span == old(self).cur().span && value == match i64_literal(
                old(self).cur().lexeme,
            ) {
                Some(v) => v,
                None => 0,
            },
            final(self).diags() == if i64_literal(old(self).cur().lexeme) is Some {
                old(self).diags()
            } else {
                old(self).diags().push(
                    error_at("E1414"@, "integer literal out of range for Int"@, old(self).cur().span),
                )
            },
    {
        let t = self.bump();
        match parse_i64_literal(t.lexeme.as_str()) {
            Some(value) => Expr::Int { value, span: t.span },
            None => {
                self.diagnostics.push(
                    Diagnostic::new(
                        "E1414",
                        Severity::Error,
                        "integer literal out of range for Int",
                        t.span,
                    ),
                );
                Expr::Int { value: 0, span: t.span }
            },
        }
    }
}

impl Parser {
    /// Reads the string literal at the cursor and steps past it: its
    /// interpolation when one opens in its text (as
    /// `try_desugar_string_interp` reads it), else a string literal of its
    /// text with every NUL removed.
    pub fn parse_string_literal(&mut self) -> (r: Expr)
        requires
            old(self).wf(),
            old(self).cur().kind == TokenKind::StringLit,
        ensures
            final(self).wf(),
            final(self).toks() == old(self).toks(),
            final(self).pos() == advance(old(self).toks(), old(self).pos()),
            final(self).quiet() == old(self).quiet(),
            !has_interp(old(self).cur().lexeme, 0) ==> (r matches Expr::String { value, span }
                && value@ == without_nul(old(self).cur().lexeme) && span == old(self).cur().span
                && final(self).diags() == old(self).diags()),
            has_interp(old(self).cur().lexeme, 0) ==> final(self).diags() == old(self).diags()
                + empty_interp_errors(old(self).cur().span, interp_parts(old(self).cur().lexeme).1),
            has_interp(old(self).cur().lexeme, 0) && interp_parts(old(self).cur().lexeme).0.len()
                == 0 ==> (r matches Expr::String { value, span } && value@.len() == 0 && span
                == old(self).cur().span),
            has_interp(old(self).cur().lexeme, 0) && interp_parts(old(self).cur().lexeme).0.len()
                > 0 ==> is_concat_of(r, interp_parts(old(self).cur().lexeme).0, old(self).cur().span),
    {
        let t = self.bump();
        match self.try_desugar_string_interp(t.lexeme.as_str(), t.span) {
            Some(e) => e,
            None => Expr::String { value: remove_nul(t.lexeme.as_str()), span: t.span },
        }
    }
}

/// The deepest an expression may nest: each nested bracket level and each
/// chained prefix operator takes one level.
pub const MAX_EXPR_NESTING_DEPTH: usize = 256;

/// The binary operator a token stands for and its precedence: `* / %`
/// bind tightest, then shifts, `+ -`, comparisons, equality, `&`, `^`,
/// `|`, `&&` and `||`.
pub open spec fn binary_op_spec(k: TokenKind) -> Option<(BinaryOp, u8)> {
    match k {
        TokenKind::Star => Some((BinaryOp::Mul, 40u8)),
        TokenKind::Slash => Some((BinaryOp::Div, 40u8)),
        TokenKind::Percent => Some((BinaryOp::Mod, 40u8)),
        TokenKind::LtLt => Some((BinaryOp::Shl, 35u8)),
        TokenKind::GtGt => Some((BinaryOp::Shr, 35u8)),
        TokenKind::Plus => Some((BinaryOp::Add, 30u8)),
        TokenKind::Minus => Some((BinaryOp::Sub, 30u8)),
        TokenKind::Lt => Some((BinaryOp::Lt, 25u8)),
        TokenKind::Le => Some((BinaryOp::Le, 25u8)),
        TokenKind::Gt => Some((BinaryOp::Gt, 25u8)),
        TokenKind::Ge => Some((BinaryOp::Ge, 25u8)),
        TokenKind::EqEq => Some((BinaryOp::Eq, 20u8)),
        TokenKind::NotEq => Some((BinaryOp::Ne, 20u8)),
        TokenKind::Amp => Some((BinaryOp::BitAnd, 18u8)),
        TokenKind::Caret => Some((BinaryOp::BitXor, 16u8)),
        TokenKind::Pipe => Some((BinaryOp::BitOr, 14u8)),
        TokenKind::AmpAmp => Some((BinaryOp::And, 10u8)),
        TokenKind::PipePipe => Some((BinaryOp::Or, 5u8)),
        _ => None,
    }
}

/// The precedence levels, tightest first: `* / %`, then `<< >>`, `+ -`,
/// the comparisons `< <= > >=`, `== !=`, `&`, `^`, `|`, `&&` and `||`; each
/// token names its own operator.
pub proof fn lemma_precedence_levels()
    ensures
        binary_op_spec(TokenKind::Star) == Some((BinaryOp::Mul, 40u8)),
        binary_op_spec(TokenKind::Slash) == Some((BinaryOp::Div, 40u8)),
        binary_op_spec(TokenKind::Percent) == Some((BinaryOp::Mod, 40u8)),
        binary_op_spec(TokenKind::LtLt) == Some((BinaryOp::Shl, 35u8)),
        binary_op_spec(TokenKind::GtGt) == Some((BinaryOp::Shr, 35u8)),
        binary_op_spec(TokenKind::Plus) == Some((BinaryOp::Add, 30u8)),
        binary_op_spec(TokenKind::Minus) == Some((BinaryOp::Sub, 30u8)),
        binary_op_spec(TokenKind::Lt) == Some((BinaryOp::Lt, 25u8)),
        binary_op_spec(TokenKind::Le) == Some((BinaryOp::Le, 25u8)),
        binary_op_spec(TokenKind::Gt) == Some((BinaryOp::Gt, 25u8)),
        binary_op_spec(TokenKind::Ge) == Some((BinaryOp::Ge, 25u8)),
        binary_op_spec(TokenKind::EqEq) == Some((BinaryOp::Eq, 20u8)),
        binary_op_spec(TokenKind::NotEq) == Some((BinaryOp::Ne, 20u8)),
        binary_op_spec(TokenKind::Amp) == Some((BinaryOp::BitAnd, 18u8)),
        binary_op_spec(TokenKind::Caret) == Some((BinaryOp::BitXor, 16u8)),
        binary_op_spec(TokenKind::Pipe) == Some((BinaryOp::BitOr, 14u8)),
        binary_op_spec(TokenKind::AmpAmp) == Some((BinaryOp::And, 10u8)),
        binary_op_spec(TokenKind::PipePipe) == Some((BinaryOp::Or, 5u8)),
        forall|k: TokenKind| #[trigger] binary_op_spec(k) is Some ==> k == TokenKind::Star || k
            == TokenKind::Slash || k == TokenKind::Percent || k == TokenKind::LtLt || k == TokenKind::GtGt
            || k == TokenKind::Plus || k == TokenKind::Minus || k == TokenKind::Lt || k == TokenKind::Le
            || k == TokenKind::Gt || k == TokenKind::Ge || k == TokenKind::EqEq || k == TokenKind::NotEq
            || k == TokenKind::Amp || k == TokenKind::Caret || k == TokenKind::Pipe || k
            == TokenKind::AmpAmp || k == TokenKind::PipePipe,
{
}

/// The binary operator at `i`, with its precedence.
pub open spec fn op_at(toks: Seq<TokenView>, i: int) -> Option<(BinaryOp, u8)> {
    binary_op_spec(toks[i].kind)
}

/// An operand read with minimum precedence `m` ends at `i`: a stop token
/// is there, or an operator that binds less tightly than `m`.
pub open spec fn ends_below(toks: Seq<TokenView>, i: int, stop: Seq<StopToken>, m: int) -> bool {
    stops_at(toks, i, stop) || (op_at(toks, i) matches Some((_, p)) && p < m)
}

/// An identifier at `i` that stands as an operand by itself: it is not a
/// stop, and a stop or a binary operator follows it.
pub open spec fn ident_operand(toks: Seq<TokenView>, i: int, stop: Seq<StopToken>) -> bool {
    &&& 0 <= i < toks.len()
    &&& toks[i].kind == TokenKind::Ident
    &&& !stops_at(toks, i, stop)
    &&& (stops_at(toks, advance(toks, i), stop) || op_at(toks, advance(toks, i)) is Some)
}

/// `e` is the identifier of token `t`.
pub open spec fn ident_of(e: Expr, t: TokenView) -> bool {
    e matches Expr::Ident { name, span } && name@ == t.lexeme && span == t.span
}

/// `e` is `x o y` for the identifiers of tokens `x` and `y`.
pub open spec fn pair_of(e: Expr, o: BinaryOp, x: TokenView, y: TokenView) -> bool {
    e matches Expr::Binary { left, op, right, .. } && op == o && ident_of(*left, x) && ident_of(*right, y)
}

/// `e` is `(x o1 y) o2 z`.
pub open spec fn left_chain_of(e: Expr, o1: BinaryOp, o2: BinaryOp, x: TokenView, y: TokenView, z: TokenView) -> bool {
    e matches Expr::Binary { left, op, right, .. } && op == o2 && pair_of(*left, o1, x, y) && ident_of(*right, z)
}

/// `e` is `x o1 (y o2 z)`.
pub open spec fn right_chain_of(e: Expr, o1: BinaryOp, o2: BinaryOp, x: TokenView, y: TokenView, z: TokenView) -> bool {
    e matches Expr::Binary { left, op, right, .. } && op == o1 && ident_of(*left, x) && pair_of(*right, o2, y, z)
}

/// The tokens from `i` are one identifier operand, ended for minimum
/// precedence `m`.
pub open spec fn one_operand(toks: Seq<TokenView>, i: int, stop: Seq<StopToken>, m: int) -> bool {
    ident_operand(toks, i, stop) && ends_below(toks, advance(toks, i), stop, m)
}

/// The tokens from `i` are `x o y`, `o` binding at least `m`, ended for `m`.
pub open spec fn two_operands(toks: Seq<TokenView>, i: int, stop: Seq<StopToken>, m: int) -> bool {
    let i1 = advance(toks, i);
    &&& ident_operand(toks, i, stop)
    &&& op_at(toks, i1) matches Some((_, p1)) && p1 >= m
    &&& one_operand(toks, advance(toks, i1), stop, m)
}

/// The tokens from `i` are `x o1 y o2 z`, both operators binding at least
/// `m`, ended for `m`.
pub open spec fn three_operands(toks: Seq<TokenView>, i: int, stop: Seq<StopToken>, m: int) -> bool {
    let i1 = advance(toks, i);
    let i2 = advance(toks, i1);
    let i3 = advance(toks, i2);
    &&& ident_operand(toks, i, stop)
    &&& op_at(toks, i1) matches Some((_, p1)) && p1 >= m
    &&& ident_operand(toks, i2, stop)
    &&& op_at(toks, i3) matches Some((_, p2)) && p2 >= m
    &&& one_operand(toks, advance(toks, i3), stop, m)
}

/// A stop token is none of the tokens that continue a postfix expression.
proof fn lemma_stop_kind(toks: Seq<TokenView>, i: int, stop: Seq<StopToken>)
    requires
        stops_at(toks, i, stop),
    ensures
        toks[i].kind != TokenKind::LParen,
        toks[i].kind != TokenKind::Dot,
        toks[i].kind != TokenKind::LBracket,
        toks[i].kind != TokenKind::Question,
{
    let k = choose|k: int| 0 <= k < stop.len() && stop_matches(toks, i, #[trigger] stop[k]);
    match stop[k] {
        StopToken::Newline => {},
        _ => {},
    }
}

/// Whether the token at `i` ends a construct at one of `stop`.
pub open spec fn stops_at(toks: Seq<TokenView>, i: int, stop: Seq<StopToken>) -> bool {
    exists|k: int| 0 <= k < stop.len() && stop_matches(toks, i, #[trigger] stop[k])
}

/// Whether an expression can start with a token of this kind.
pub open spec fn starts_primary(k: TokenKind) -> bool {
    ||| k == TokenKind::Ident
    ||| k == TokenKind::IntLit
    ||| k == TokenKind::FloatLit
    ||| k == TokenKind::StringLit
    ||| k == TokenKind::Keyword(Keyword::True)
    ||| k == TokenKind::Keyword(Keyword::False)
    ||| k == TokenKind::Keyword(Keyword::Fn)
    ||| k == TokenKind::LBracket
    ||| k == TokenKind::LBrace
    ||| k == TokenKind::Dot
    ||| k == TokenKind::LParen
}

/// The module name a file's tokens declare: the dotted name after a
/// leading `module` (blank lines before it allowed), if any.
pub open spec fn module_name(toks: Seq<TokenView>, i: int, diags: Seq<DiagnosticView>) -> Option<Seq<char>> {
    let i0 = skip_newlines(toks, i);
    if toks[i0].kind == TokenKind::Keyword(Keyword::Module) {
        Some(qualified_ident(toks, advance(toks, i0), diags).0)
    } else {
        None
    }
}

/// Where the header's `module` line ends, and the diagnostics then.
pub open spec fn after_module(toks: Seq<TokenView>, i: int, diags: Seq<DiagnosticView>) -> (
    int,
    Seq<DiagnosticView>,
) {
    let i0 = skip_newlines(toks, i);
    if toks[i0].kind == TokenKind::Keyword(Keyword::Module) {
        let (_, j, d) = qualified_ident(toks, advance(toks, i0), diags);
        (skip_newlines(toks, j), d)
    } else {
        (i0, diags)
    }
}

/// The dotted names of the `import` lines from `i` on.
pub open spec fn import_names(toks: Seq<TokenView>, i: int, diags: Seq<DiagnosticView>) -> Seq<Seq<char>>
    decreases toks.len() - i,
{
    if 0 <= i < toks.len() - 1 && toks[i].kind == TokenKind::Keyword(Keyword::Import) {
        let (name, j, d) = qualified_ident(toks, i + 1, diags);
        let k = skip_newlines(toks, j);
        if i < k < toks.len() {
            seq![name] + import_names(toks, k, d)
        } else {
            seq![name]
        }
    } else {
        Seq::empty()
    }
}

/// The imports a file's tokens declare, after its `module` line.
pub open spec fn file_imports(toks: Seq<TokenView>, i: int, diags: Seq<DiagnosticView>) -> Seq<Seq<char>> {
    let (k, d) = after_module(toks, i, diags);
    import_names(toks, k, d)
}

pub open spec fn opt_name(o: Option<String>) -> Option<Seq<char>> {
    match o {
        Some(s) => Some(s@),
        None => None,
    }
}

/// Whether a space follows a type's token: not before `,` `)` `}` `{` or a
/// newline.
pub open spec fn space_before(k: TokenKind) -> bool {
    !(k == TokenKind::Comma || k == TokenKind::RParen || k == TokenKind::RBrace || k
        == TokenKind::LBrace || k == TokenKind::Newline)
}

/// The text of a type from `i` on, given the open `<` and `(` so far and
/// the text so far: each token's text, then a space where `space_before`
/// says so, up to the end, or (outside brackets) a token of `stops` or a
/// newline; and where it stops.
pub open spec fn type_text_from(
    toks: Seq<TokenView>,
    i: int,
    stops: Seq<TokenKind>,
    angle: nat,
    paren: nat,
    raw: Seq<char>,
) -> (Seq<char>, int)
    decreases toks.len() - i,
{
    if i < 0 || i >= toks.len() - 1 || toks[i].kind == TokenKind::Eof {
        (raw, i)
    } else if angle == 0 && paren == 0 && (stops.contains(toks[i].kind) || toks[i].kind
        == TokenKind::Newline) {
        (raw, i)
    } else {
        let k = toks[i].kind;
        let paren2: nat = if k == TokenKind::LParen {
            paren + 1
        } else if k == TokenKind::RParen && paren > 0 {
            (paren - 1) as nat
        } else {
            paren
        };
        let angle2: nat = if k == TokenKind::Lt {
            angle + 1
        } else if k == TokenKind::Gt && angle > 0 {
            (angle - 1) as nat
        } else {
            angle
        };
        let raw2 = raw + toks[i].lexeme + if space_before(toks[i + 1].kind) {
            " "@
        } else {
            Seq::empty()
        };
        type_text_from(toks, i + 1, stops, angle2, paren2, raw2)
    }
}

/// A parameter as plain values: name, written type, `mut`, span of the
/// name.
pub struct ParamView {
    pub name: Seq<char>,
    pub ty: Option<Seq<char>>,
    pub is_mut: bool,
    pub span: Span,
}

pub open spec fn param_view(p: Param) -> ParamView {
    ParamView {
        name: p.name@,
        ty: match p.ty {
            Some(t) => Some(t.raw@),
            None => None,
        },
        is_mut: p.is_mut,
        span: p.span,
    }
}

/// One parameter from `i`: an optional `mut`, the name (E1107 where there
/// is none), and after a `:` its type up to `,` or `)`; the position after
/// it and the diagnostics then.
pub open spec fn param_at(toks: Seq<TokenView>, i: int, diags: Seq<DiagnosticView>) -> (
    ParamView,
    int,
    Seq<DiagnosticView>,
) {
    let m = toks[i].kind == TokenKind::Keyword(Keyword::Mut);
    let i1 = if m {
        advance(toks, i)
    } else {
        i
    };
    let (name, i2, d2) = expect_ident_step(toks, i1, diags, "E1107"@, "expected parameter name"@);
    if toks[i2].kind == TokenKind::Colon {
        let (raw, i3) = type_text_from(
            toks,
            advance(toks, i2),
            seq![TokenKind::Comma, TokenKind::RParen],
            0,
            0,
            Seq::empty(),
        );
        (ParamView { name, ty: Some(trim_space(raw)), is_mut: m, span: toks[i1].span }, i3, d2)
    } else {
        (ParamView { name, ty: None, is_mut: m, span: toks[i1].span }, i2, d2)
    }
}

/// The parameters from `i` up to the `)` (or the end): each followed by a
/// `,` and blank lines, or the last.
pub open spec fn params_from(toks: Seq<TokenView>, i: int, diags: Seq<DiagnosticView>) -> Seq<ParamView>
    decreases toks.len() - i,
{
    if i < 0 || i >= toks.len() || toks[i].kind == TokenKind::RParen || toks[i].kind == TokenKind::Eof {
        Seq::empty()
    } else {
        let (p, j, d) = param_at(toks, i, diags);
        if 0 <= j < toks.len() - 1 && toks[j].kind == TokenKind::Comma {
            let k = skip_newlines(toks, j + 1);
            if i < k < toks.len() {
                seq![p] + params_from(toks, k, d)
            } else {
                seq![p]
            }
        } else {
            seq![p]
        }
    }
}

/// Recovery to the next declaration never moves back.
pub proof fn lemma_decl_sync_point_from(toks: Seq<TokenView>, i: int)
    requires
        0 <= i,
    ensures
        decl_sync_point(toks, i) >= i,
    decreases toks.len() - i,
{
    if 0 <= i < toks.len() - 1 && !(toks[i].kind == TokenKind::Eof || toks[i].kind
        == TokenKind::Keyword(Keyword::Pub) || toks[i].kind == TokenKind::Ident) {
        lemma_decl_sync_point_from(toks, i + 1);
    }
}

/// The result of parsing a source file: its syntax tree, and the lexer's
/// diagnostics followed by the parser's in host order.
pub struct ParseOutput {
    pub ast: FileAst,
    pub diagnostics: Diagnostics,
}

/// Parses a source file: lexes it, reads the module line, the imports and
/// the declarations, recovering after each malformed declaration, and
/// gives the tree with the lexer's diagnostics followed by the parser's in
/// host order.
pub fn parse_source(source: &str) -> (r: ParseOutput)
    requires
        source@.len() < usize::MAX,
    ensures
        r.diagnostics@.len() >= lex_spec(source@).1.len(),
        r.diagnostics@.subrange(0, lex_spec(source@).1.len() as int) == lex_spec(source@).1,
        opt_name(r.ast.module) == module_name(lex_spec(source@).0, 0, Seq::empty()),
        views(r.ast.imports@) == file_imports(lex_spec(source@).0, 0, Seq::empty()),
{
    let (tokens, mut diagnostics) = lex(source);
    proof {
        lemma_lex_ends_with_eof(source@);
    }
    let mut parser = Parser::new(tokens);
    let ast = parser.parse_file();
    let ghost lexed = diagnostics@;
    diagnostics.extend(parser.into_diagnostics().into_sorted());
    proof {
        assert(diagnostics@.subrange(0, lexed.len() as int) =~= lexed);
    }
    ParseOutput { ast, diagnostics }
}

impl Parser {
    fn error_here(&mut self, code: &str, message: &str)
        requires
            old(self).wf(),
        ensures
            final(self).wf(),
            final(self).toks() == old(self).toks(),
            final(self).pos() == old(self).pos(),
            final(self).diags() == old(self).diags().push(error_at(code@, message@, old(self).cur().span)),
    {
        let span = self.peek().span;
        self.diagnostics.push(Diagnostic::new(code, Severity::Error, message, span));
    }

    fn error_at_span(&mut self, code: &str, message: &str, span: Span)
        requires
            old(self).wf(),
        ensures
            final(self).wf(),
            final(self).toks() == old(self).toks(),
            final(self).pos() == old(self).pos(),
            final(self).diags() == old(self).diags().push(error_at(code@, message@, span)),
    {
        self.diagnostics.push(Diagnostic::new(code, Severity::Error, message, span));
    }

    /// Whether the current token is of one of `kinds`.
    fn at_any(&self, kinds: &[TokenKind]) -> (r: bool)
        requires
            self.wf(),
        ensures
            r == exists|k: int| 0 <= k < kinds@.len() && self.cur().kind == #[trigger] kinds@[k],
    {
        let mut k: usize = 0;
        while k < kinds.len()
            invariant
                self.wf(),
                k <= kinds@.len(),
                forall|q: int| 0 <= q < k ==> self.cur().kind != #[trigger] kinds@[q],
            decreases kinds.len() - k,
        {
            if self.at(kinds[k]) {
                return true;
            }
            k = k + 1;
        }
        false
    }

    /// Reads a whole file: an optional `module` line, `import` lines, then
    /// declarations; after a malformed declaration it skips to the next.
    /// It reads up to the end of the input.
    pub fn parse_file(&mut self) -> (r: FileAst)
        requires
            old(self).wf(),
        ensures
            final(self).wf(),
            final(self).toks() == old(self).toks(),
            final(self).pos() >= old(self).pos(),
            final(self).cur().kind == TokenKind::Eof,
            opt_name(r.module) == module_name(old(self).toks(), old(self).pos(), old(self).diags()),
            views(r.imports@) == file_imports(old(self).toks(), old(self).pos(), old(self).diags()),
    {
        let mut file = FileAst { module: None, imports: Vec::new(), declarations: Vec::new() };
        self.consume_newlines();
        if self.at_keyword(Keyword::Module) {
            self.bump();
            file.module = Some(self.parse_qualified_ident());
            self.consume_line_end();
        }
        let ghost all = file_imports(old(self).toks(), old(self).pos(), old(self).diags());
        assert(views(file.imports@) =~= Seq::<Seq<char>>::empty());
        assert(all == views(file.imports@) + import_names(self.toks(), self.pos(), self.diags()));
        while self.at_keyword(Keyword::Import)
            invariant
                self.wf(),
                self.toks() == old(self).toks(),
                self.pos() >= old(self).pos(),
                opt_name(file.module) == module_name(old(self).toks(), old(self).pos(), old(self).diags()),
                all == views(file.imports@) + import_names(self.toks(), self.pos(), self.diags()),
            ensures
                self.wf(),
                self.toks() == old(self).toks(),
                self.pos() >= old(self).pos(),
                opt_name(file.module) == module_name(old(self).toks(), old(self).pos(), old(self).diags()),
                views(file.imports@) == all,
            decreases self.toks().len() - self.pos(),
        {
            let ghost i = self.pos();
            let ghost d0 = self.diags();
            let ghost imports0 = views(file.imports@);
            self.bump();
            let name = self.parse_qualified_ident();
            let ghost name_v = name@;
            file.imports.push(name);
            self.consume_line_end();
            proof {
                assert(views(file.imports@) =~= imports0.push(name_v));
                assert(import_names(self.toks(), i, d0) == seq![name_v] + import_names(
                    self.toks(),
                    self.pos(),
                    self.diags(),
                ));
                assert(imports0 + import_names(self.toks(), i, d0) =~= imports0 + seq![name_v]
                    + import_names(self.toks(), self.pos(), self.diags()));
                assert(views(file.imports@) + import_names(self.toks(), self.pos(), self.diags()) =~= imports0
                    + seq![name_v] + import_names(self.toks(), self.pos(), self.diags()));
            }
        }
        proof {
            assert(import_names(self.toks(), self.pos(), self.diags()) =~= Seq::<Seq<char>>::empty());
        }
        while !self.is_eof()
            invariant
                self.wf(),
                self.toks() == old(self).toks(),
                self.pos() >= old(self).pos(),
                opt_name(file.module) == module_name(old(self).toks(), old(self).pos(), old(self).diags()),
                views(file.imports@) == file_imports(old(self).toks(), old(self).pos(), old(self).diags()),
            ensures
                self.cur().kind == TokenKind::Eof,
            decreases self.toks().len() - self.pos(),
        {
            self.consume_newlines();
            if self.is_eof() {
                break;
            }
            let ghost at = self.pos();
            match self.parse_declaration() {
                Some(decl) => file.declarations.push(decl),
                None => {
                    let ghost here = self.pos();
                    self.sync_to_decl();
                    proof {
                        if here == at {
                            lemma_decl_sync_point_from(self.toks(), here + 1);
                        }
                    }
                },
            }
        }
        file
    }

    fn parse_declaration(&mut self) -> (r: Option<Declaration>)
        requires
            old(self).wf(),
            old(self).cur().kind != TokenKind::Eof,
        ensures
            final(self).wf(),
            final(self).toks() == old(self).toks(),
            final(self).pos() >= old(self).pos(),
            r is Some ==> final(self).pos() > old(self).pos(),
            ({
                let public = old(self).cur().kind == TokenKind::Keyword(Keyword::Pub);
                match r {
                    Some(Declaration::Function(f)) => f.is_public == public,
                    Some(Declaration::Type(t)) => t.is_public == public,
                    Some(Declaration::Enum(e)) => e.is_public == public,
                    None => true,
                }
            }),
            r is None ==> final(self).pos() > old(self).pos() || (final(self).pos() == old(self).pos()
                && old(self).cur().kind != TokenKind::Keyword(Keyword::Pub)
                && old(self).cur().kind != TokenKind::Ident),
    {
        let mut is_public = false;
        if self.at_keyword(Keyword::Pub) {
            is_public = true;
            self.bump();
        }
        if self.at_keyword(Keyword::Type) {
            let mut decl = self.parse_type_decl();
            decl.is_public = is_public;
            Some(Declaration::Type(decl))
        } else if self.at_keyword(Keyword::Enum) {
            let mut decl = self.parse_enum_decl();
            decl.is_public = is_public;
            Some(Declaration::Enum(decl))
        } else if self.at_ident() {
            let mut func = self.parse_function();
            func.is_public = is_public;
            Some(Declaration::Function(func))
        } else {
            self.error_here("E1101", "expected declaration");
            None
        }
    }

    /// Reads `name: Type` fields separated by commas, up to the closing `}`
    /// (not consumed).
    fn parse_type_fields(&mut self, name_message: &str, colon_message: &str) -> (r: Vec<TypeField>)
        requires
            old(self).wf(),
        ensures
            final(self).wf(),
            final(self).toks() == old(self).toks(),
            final(self).pos() >= old(self).pos(),
    {
        let mut fields: Vec<TypeField> = Vec::new();
        self.consume_newlines();
        while !self.at(TokenKind::RBrace) && !self.is_eof()
            invariant
                self.wf(),
                self.toks() == old(self).toks(),
                self.pos() >= old(self).pos(),
            decreases self.toks().len() - self.pos(),
        {
            let field_name = self.expect_ident("E1140", name_message);
            self.expect(TokenKind::Colon, "E1141", colon_message);
            let ty = self.parse_type_ref_until(&[TokenKind::Comma, TokenKind::RBrace]);
            fields.push(TypeField { name: field_name, ty });
            if self.match_kind(TokenKind::Comma) {
                self.consume_newlines();
            } else {
                break;
            }
        }
        fields
    }

    fn parse_type_decl(&mut self) -> (r: TypeDecl)
        requires
            old(self).wf(),
            old(self).cur().kind == TokenKind::Keyword(Keyword::Type),
        ensures
            final(self).wf(),
            final(self).toks() == old(self).toks(),
            final(self).pos() > old(self).pos(),
            ({
                let t = old(self).toks()[advance(old(self).toks(), old(self).pos())];
                r.name@ == if t.kind == TokenKind::Ident {
                    t.lexeme
                } else {
                    "__error"@
                }
            }),
            !r.is_public,
    {
        let start = self.bump().span;
        let name = self.expect_ident("E1102", "expected type name after `type`");
        self.expect(TokenKind::LBrace, "E1105", "expected `{` to start type body");
        let fields = self.parse_type_fields("expected field name", "expected `:` after field name");
        self.consume_newlines();
        let end = self.expect(TokenKind::RBrace, "E1106", "expected `}` to close type body");
        TypeDecl {
            is_public: false,
            name,
            fields,
            span: Span::new(start.line_start, start.col_start, end.line_end, end.col_end),
        }
    }

    fn parse_enum_decl(&mut self) -> (r: EnumDecl)
        requires
            old(self).wf(),
            old(self).cur().kind == TokenKind::Keyword(Keyword::Enum),
        ensures
            final(self).wf(),
            final(self).toks() == old(self).toks(),
            final(self).pos() > old(self).pos(),
            ({
                let t = old(self).toks()[advance(old(self).toks(), old(self).pos())];
                r.name@ == if t.kind == TokenKind::Ident {
                    t.lexeme
                } else {
                    "__error"@
                }
            }),
            !r.is_public,
    {
        let start = self.bump().span;
        let name = self.expect_ident("E1102", "expected enum name after `enum`");
        self.expect(TokenKind::LBrace, "E1105", "expected `{` to start enum body");
        let mut variants: Vec<EnumVariantDecl> = Vec::new();
        self.consume_newlines();
        while !self.at(TokenKind::RBrace) && !self.is_eof()
            invariant
                self.wf(),
                self.toks() == old(self).toks(),
                self.pos() > old(self).pos(),
            decreases self.toks().len() - self.pos(),
        {
            let v_start = self.peek().span;
            let variant = self.expect_ident("E1142", "expected variant name");
            let mut fields: Vec<TypeField> = Vec::new();
            let mut variant_span = Span::new(
                v_start.line_start,
                v_start.col_start,
                v_start.line_end,
                v_start.col_end,
            );
            if self.at(TokenKind::LBrace) {
                self.bump();
                fields = self.parse_type_fields(
                    "expected field name in enum variant",
                    "expected `:` after field name in enum variant",
                );
                self.consume_newlines();
                let fe = self.expect(
                    TokenKind::RBrace,
                    "E1106",
                    "expected `}` to close enum variant payload",
                );
                variant_span = Span::new(v_start.line_start, v_start.col_start, fe.line_end, fe.col_end);
            }
            variants.push(EnumVariantDecl { name: variant, fields, span: variant_span });
            if self.match_kind(TokenKind::Comma) {
                self.consume_newlines();
            } else {
                break;
            }
        }
        self.consume_newlines();
        let end = self.expect(TokenKind::RBrace, "E1106", "expected `}` to close enum body");
        EnumDecl {
            is_public: false,
            name,
            variants,
            span: Span::new(start.line_start, start.col_start, end.line_end, end.col_end),
        }
    }

    /// Takes the last statement off `body` as the tail expression when it
    /// is an expression statement.
    fn split_tail(body: &mut Vec<Stmt>) -> (r: Option<Expr>) {
        match body.pop() {
            Some(Stmt::ExprStmt { expr, .. }) => Some(expr),
            Some(other) => {
                body.push(other);
                None
            },
            None => None,
        }
    }

    fn parse_function(&mut self) -> (r: FunctionDecl)
        requires
            old(self).wf(),
        ensures
            final(self).wf(),
            final(self).toks() == old(self).toks(),
            final(self).pos() >= old(self).pos(),
            old(self).cur().kind == TokenKind::Ident ==> final(self).pos() > old(self).pos(),
            r.name@ == if old(self).cur().kind == TokenKind::Ident {
                old(self).cur().lexeme
            } else {
                "__error"@
            },
            !r.is_public,
    {
        let start = self.peek().span;
        let name = self.expect_ident("E1102", "expected function name");
        let type_params = self.parse_optional_type_params();
        self.expect(TokenKind::LParen, "E1103", "expected `(` after function name");
        let params = self.parse_params();
        self.expect(TokenKind::RParen, "E1104", "expected `)` after parameter list");
        let return_type = if self.match_kind(TokenKind::Arrow) {
            Some(self.parse_type_ref_until(&[TokenKind::LBrace]))
        } else {
            None
        };
        self.expect(TokenKind::LBrace, "E1105", "expected `{` to start function body");
        let mut contracts: Vec<Contract> = Vec::new();
        let mut body: Vec<Stmt> = Vec::new();
        let mut seen_exec = false;
        self.consume_newlines();
        while !self.at(TokenKind::RBrace) && !self.is_eof()
            invariant
                self.wf(),
                self.toks() == old(self).toks(),
                self.pos() >= old(self).pos(),
                old(self).cur().kind == TokenKind::Ident ==> self.pos() > old(self).pos(),
            decreases self.toks().len() - self.pos(),
        {
            let before = self.idx;
            self.consume_newlines();
            if self.at(TokenKind::RBrace) || self.is_eof() {
                break;
            }
            if !seen_exec && self.at(TokenKind::At) {
                contracts.push(self.parse_contract());
                self.consume_newlines();
                continue;
            }
            if seen_exec && self.at(TokenKind::At) {
                self.error_here(
                    "E1309",
                    "invalid contract position: annotations must appear before executable statements",
                );
                let _ = self.parse_contract();
                self.consume_newlines();
                continue;
            }
            seen_exec = true;
            match self.parse_stmt() {
                Some(stmt) => body.push(stmt),
                None => self.sync_to_stmt_boundary(),
            }
            self.consume_newlines();
            if self.idx == before && !self.at(TokenKind::RBrace) && !self.is_eof() {
                self.error_here("E1199", "parser recovery made no progress inside function body");
                self.bump();
            }
            if self.idx == before {
                break;
            }
        }
        let end = self.expect(TokenKind::RBrace, "E1106", "expected `}` to close function body");
        let tail_expr = Self::split_tail(&mut body);
        FunctionDecl {
            is_public: false,
            name,
            type_params,
            params,
            return_type,
            contracts,
            body,
            tail_expr,
            span: Span::new(start.line_start, start.col_start, end.line_end, end.col_end),
        }
    }

    /// Reads a parameter list up to its `)` (not consumed); see
    /// `params_from`.
    #[verifier::rlimit(60)]
    fn parse_params(&mut self) -> (r: Vec<Param>)
        requires
            old(self).wf(),
        ensures
            final(self).wf(),
            final(self).toks() == old(self).toks(),
            final(self).pos() >= old(self).pos(),
            r@.map_values(|p: Param| param_view(p)) == params_from(
                old(self).toks(),
                skip_newlines(old(self).toks(), old(self).pos()),
                old(self).diags(),
            ),
    {
        let mut params: Vec<Param> = Vec::new();
        self.consume_newlines();
        let ghost total = params_from(self.toks(), self.pos(), self.diags());
        assert(params@.map_values(|p: Param| param_view(p)) =~= Seq::<ParamView>::empty());
        assert(total =~= params@.map_values(|p: Param| param_view(p)) + params_from(
            self.toks(),
            self.pos(),
            self.diags(),
        ));
        while !self.at(TokenKind::RParen) && !self.is_eof()
            invariant_except_break
                total == params@.map_values(|p: Param| param_view(p)) + params_from(
                    self.toks(),
                    self.pos(),
                    self.diags(),
                ),
            invariant
                self.wf(),
                self.toks() == old(self).toks(),
                self.pos() >= old(self).pos(),
            ensures
                self.wf(),
                self.toks() == old(self).toks(),
                self.pos() >= old(self).pos(),
                total == params@.map_values(|p: Param| param_view(p)),
            decreases self.toks().len() - self.pos(),
        {
            let ghost i = self.pos();
            let ghost d0 = self.diags();
            let ghost before = params@.map_values(|p: Param| param_view(p));
            let is_mut = self.at_keyword(Keyword::Mut);
            if is_mut {
                self.bump();
            }
            let span = self.peek().span;
            let name = self.expect_ident("E1107", "expected parameter name");
            let ty = if self.match_kind(TokenKind::Colon) {
                let stops = [TokenKind::Comma, TokenKind::RParen];
                assert(stops@ =~= seq![TokenKind::Comma, TokenKind::RParen]);
                Some(self.parse_type_ref_until(&stops))
            } else {
                None
            };
            let param = Param { name, ty, is_mut, span };
            let ghost pv = param_view(param);
            params.push(param);
            proof {
                let (p, j, d) = param_at(self.toks(), i, d0);
                assert(pv == p);
                assert(self.pos() == j && self.diags() == d);
                assert(params@.map_values(|p: Param| param_view(p)) =~= before.push(pv));
            }
            if self.at(TokenKind::Comma) {
                self.bump();
                self.consume_newlines();
                proof {
                    assert(before + params_from(self.toks(), i, d0) =~= before.push(pv) + params_from(
                        self.toks(),
                        self.pos(),
                        self.diags(),
                    ));
                }
            } else {
                proof {
                    assert(params_from(self.toks(), i, d0) =~= seq![pv]);
                    assert(before + seq![pv] =~= before.push(pv));
                }
                break;
            }
        }
        params
    }

    /// Reads a type up to one of `stops` (or a newline) outside brackets:
    /// the tokens' text, a space after each but before `,` `)` `}` `{` or a
    /// newline, with the white space at the ends removed.
    fn parse_type_ref_until(&mut self, stops: &[TokenKind]) -> (r: TypeRef)
        requires
            old(self).wf(),
        ensures
            final(self).wf(),
            final(self).toks() == old(self).toks(),
            final(self).pos() >= old(self).pos(),
            final(self).diags() == old(self).diags(),
            ({
                let (raw, j) = type_text_from(old(self).toks(), old(self).pos(), stops@, 0, 0, Seq::empty());
                &&& r.raw@ == trim_space(raw)
                &&& final(self).pos() == j
            }),
    {
        let mut raw = String::new();
        let mut angle_depth: usize = 0;
        let mut paren_depth: usize = 0;
        while !self.is_eof()
            invariant
                self.wf(),
                self.toks() == old(self).toks(),
                self.pos() >= old(self).pos(),
                self.diags() == old(self).diags(),
                angle_depth + paren_depth <= self.pos(),
                type_text_from(old(self).toks(), old(self).pos(), stops@, 0, 0, Seq::empty())
                    == type_text_from(self.toks(), self.pos(), stops@, angle_depth as nat, paren_depth as nat, raw@),
            ensures
                self.wf(),
                self.toks() == old(self).toks(),
                self.pos() >= old(self).pos(),
                self.diags() == old(self).diags(),
                type_text_from(old(self).toks(), old(self).pos(), stops@, 0, 0, Seq::empty()) == (
                    raw@,
                    self.pos(),
                ),
            decreases self.toks().len() - self.pos(),
        {
            let ghost i = self.pos();
            let ghost raw0 = raw@;
            if angle_depth == 0 && paren_depth == 0 && self.at_any(stops) {
                assert(stops@.contains(self.cur().kind));
                break;
            }
            if angle_depth == 0 && paren_depth == 0 && self.at(TokenKind::Newline) {
                break;
            }
            let tok = self.bump();
            match tok.kind {
                TokenKind::LParen => paren_depth = paren_depth + 1,
                TokenKind::RParen => if paren_depth > 0 {
                    paren_depth = paren_depth - 1;
                },
                TokenKind::Lt => angle_depth = angle_depth + 1,
                TokenKind::Gt => if angle_depth > 0 {
                    angle_depth = angle_depth - 1;
                },
                _ => {},
            }
            push_str(&mut raw, tok.lexeme.as_str());
            if !self.at(TokenKind::Comma) && !self.at(TokenKind::RParen) && !self.at(TokenKind::RBrace)
                && !self.at(TokenKind::LBrace) && !self.at(TokenKind::Newline) {
                push_char(&mut raw, ' ');
                proof {
                    reveal_strlit(" ");
                    assert(raw@ =~= raw0 + self.toks()[i].lexeme + " "@);
                }
            } else {
                assert(raw@ =~= raw0 + self.toks()[i].lexeme + Seq::<char>::empty());
            }
        }
        TypeRef { raw: trim_chars(&chars_of(raw.as_str())) }
    }

    /// The kind of the token `n` places after the current one, if any.
    fn kind_ahead(&self, n: usize) -> (r: Option<TokenKind>)
        requires
            self.wf(),
        ensures
            r == if self.pos() + n < self.toks().len() {
                Some(self.toks()[self.pos() + n].kind)
            } else {
                None::<TokenKind>
            },
    {
        if n < self.tokens.len() - self.idx {
            assert(self.toks()[self.pos() + n].kind == self.tokens@[self.idx + n].kind);
            Some(self.tokens[self.idx + n].kind)
        } else {
            None
        }
    }

    /// Reports `code` at the current token unless diagnostics are held back
    /// while an over-deep expression is abandoned, and gives the placeholder
    /// identifier `__error` there.
    fn error_expr(&mut self, code: &str, message: &str) -> (r: Expr)
        requires
            old(self).wf(),
        ensures
            final(self).wf(),
            final(self).toks() == old(self).toks(),
            final(self).pos() == old(self).pos(),
    {
        let span = self.peek().span;
        if !self.expr_depth_exceeded {
            self.diagnostics.push(Diagnostic::new(code, Severity::Error, message, span));
        }
        Expr::Ident { name: to_owned_string("__error"), span }
    }

    /// Reads one contract annotation: `@intent "…"`, `@examples { … }`,
    /// `@require expr`, `@ensure expr`, `@effect name` or
    /// `@native("symbol")`.
    fn parse_contract(&mut self) -> (r: Contract)
        requires
            old(self).wf(),
        ensures
            final(self).wf(),
            final(self).toks() == old(self).toks(),
            final(self).pos() >= old(self).pos(),
            old(self).cur().kind == TokenKind::At ==> final(self).pos() > old(self).pos(),
        decreases old(self).toks().len() - old(self).pos(), 9int,
    {
        let at = self.expect(TokenKind::At, "E1301", "expected `@`");
        let name = self.expect_ident("E1302", "expected contract annotation name");
        if str_eq(name.as_str(), "intent") {
            if self.at(TokenKind::StringLit) {
                let tok = self.bump();
                Contract::Intent { text: tok.lexeme, span: tok.span }
            } else {
                self.error_here("E1303", "expected string literal after `@intent`");
                Contract::Intent { text: String::new(), span: at }
            }
        } else if str_eq(name.as_str(), "examples") {
            self.parse_examples_contract(at)
        } else if str_eq(name.as_str(), "require") {
            let expr = self.parse_expr_until(&[StopToken::Newline, StopToken::RBrace]);
            Contract::Require { expr, span: at }
        } else if str_eq(name.as_str(), "ensure") {
            let expr = self.parse_expr_until(&[StopToken::Newline, StopToken::RBrace]);
            Contract::Ensure { expr, span: at }
        } else if str_eq(name.as_str(), "effect") {
            let effect = self.expect_ident("E1304", "expected effect name after `@effect`");
            Contract::Effect { name: effect, span: at }
        } else if str_eq(name.as_str(), "native") {
            self.expect(TokenKind::LParen, "E1306", "expected `(` after `@native`");
            if self.at(TokenKind::StringLit) {
                let tok = self.bump();
                self.expect(TokenKind::RParen, "E1306", "expected `)` after symbol name");
                Contract::Native { symbol: tok.lexeme, span: at }
            } else {
                self.error_here("E1306", "expected symbol name string after `@native(`");
                if self.at(TokenKind::RParen) {
                    self.bump();
                }
                Contract::Native { symbol: String::new(), span: at }
            }
        } else {
            let mut message = to_owned_string("unknown contract annotation `@");
            push_str(&mut message, name.as_str());
            push_char(&mut message, '`');
            self.error_at_span("E1305", message.as_str(), at);
            self.consume_line_end();
            Contract::Intent { text: String::new(), span: at }
        }
    }

    /// Reads the `{ call => expected … }` cases of an `@examples` contract.
    fn parse_examples_contract(&mut self, span: Span) -> (r: Contract)
        requires
            old(self).wf(),
        ensures
            final(self).wf(),
            final(self).toks() == old(self).toks(),
            final(self).pos() >= old(self).pos(),
        decreases old(self).toks().len() - old(self).pos(), 8int,
    {
        self.expect(TokenKind::LBrace, "E1306", "expected `{` after `@examples`");
        let mut cases: Vec<ExampleCase> = Vec::new();
        while !self.at(TokenKind::RBrace) && !self.is_eof()
            invariant
                self.wf(),
                self.toks() == old(self).toks(),
                self.pos() >= old(self).pos(),
            decreases self.toks().len() - self.pos(),
        {
            let before = self.idx;
            self.consume_newlines();
            if self.at(TokenKind::RBrace) || self.is_eof() {
                break;
            }
            let call = self.parse_expr_until(
                &[StopToken::FatArrow, StopToken::Newline, StopToken::RBrace],
            );
            if !self.match_kind(TokenKind::FatArrow) {
                self.error_here("E1307", "expected `=>` in example case");
                self.sync_to_stmt_boundary();
                if self.at(TokenKind::RBrace) {
                    break;
                }
                self.consume_newlines();
                if self.idx == before {
                    break;
                }
                continue;
            }
            let expected = self.parse_expr_until(&[StopToken::Newline, StopToken::RBrace]);
            let cs = call.span();
            let es = expected.span();
            cases.push(
                ExampleCase {
                    call,
                    expected,
                    span: Span::new(cs.line_start, cs.col_start, es.line_end, es.col_end),
                },
            );
            self.consume_newlines();
            if self.idx == before && !self.at(TokenKind::RBrace) && !self.is_eof() {
                self.error_here("E1399", "parser recovery made no progress inside `@examples`");
                self.bump();
            }
            if self.idx == before {
                break;
            }
        }
        self.expect(TokenKind::RBrace, "E1308", "expected `}` to close `@examples`");
        Contract::Examples { cases, span }
    }

    /// Reads one statement; `None` after a malformed `mut`, which is
    /// reported (E1213) and stepped past.
    fn parse_stmt(&mut self) -> (r: Option<Stmt>)
        requires
            old(self).wf(),
        ensures
            final(self).wf(),
            final(self).toks() == old(self).toks(),
            final(self).pos() >= old(self).pos(),
            ({
                let j = skip_newlines(old(self).toks(), old(self).pos());
                let t = old(self).toks()[j];
                &&& t.kind == TokenKind::Keyword(Keyword::Break) ==> (r matches Some(
                    Stmt::Break { span },
                ) && span == t.span && final(self).pos() == advance(old(self).toks(), j))
                &&& t.kind == TokenKind::Keyword(Keyword::Continue) ==> (r matches Some(
                    Stmt::Continue { span },
                ) && span == t.span && final(self).pos() == advance(old(self).toks(), j))
                &&& t.kind == TokenKind::Keyword(Keyword::Return) ==> (r matches Some(
                    Stmt::Return { span, .. },
                ) && span == t.span)
                &&& t.kind == TokenKind::Keyword(Keyword::For) ==> (r matches Some(Stmt::For { span, .. })
                    && span == t.span)
                &&& t.kind == TokenKind::Keyword(Keyword::If) ==> (r matches Some(Stmt::If { span, .. })
                    && span == t.span)
                &&& t.kind == TokenKind::Keyword(Keyword::While) ==> (r matches Some(
                    Stmt::While { span, .. },
                ) && span == t.span)
                &&& t.kind == TokenKind::Keyword(Keyword::Repeat) ==> (r matches Some(
                    Stmt::Repeat { span, .. },
                ) && span == t.span)
                &&& t.kind == TokenKind::Keyword(Keyword::Select) ==> (r matches Some(
                    Stmt::Select { span, .. },
                ) && span == t.span)
                &&& t.kind == TokenKind::Keyword(Keyword::Match) ==> (r matches Some(
                    Stmt::Match { span, .. },
                ) && span == t.span)
                &&& t.kind == TokenKind::Keyword(Keyword::Go) ==> (r matches Some(Stmt::Go { span, .. })
                    && span == t.span)
                &&& t.kind == TokenKind::Keyword(Keyword::Thread) ==> (r matches Some(
                    Stmt::Thread { span, .. },
                ) && span == t.span)
            }),
        decreases old(self).toks().len() - old(self).pos(), 9int,
    {
        self.consume_newlines();
        let start = self.peek().span;
        if self.at_keyword(Keyword::Return) {
            self.bump();
            let expr = self.parse_expr_until(&[StopToken::Newline, StopToken::RBrace]);
            return Some(Stmt::Return { expr, span: start });
        }
        if self.at_keyword(Keyword::Break) {
            self.bump();
            return Some(Stmt::Break { span: start });
        }
        if self.at_keyword(Keyword::Continue) {
            self.bump();
            return Some(Stmt::Continue { span: start });
        }
        if self.at_keyword(Keyword::For) {
            return Some(self.parse_for_stmt(start));
        }
        if self.at_keyword(Keyword::If) {
            return Some(self.parse_if_stmt(start));
        }
        if self.at_keyword(Keyword::While) {
            return Some(self.parse_while_stmt(start));
        }
        if self.at_keyword(Keyword::Repeat) {
            return Some(self.parse_repeat_stmt(start));
        }
        if self.at_keyword(Keyword::Select) {
            return Some(self.parse_select_stmt(start));
        }
        if self.at_keyword(Keyword::Match) {
            return Some(self.parse_match_stmt(start));
        }
        if self.at_keyword(Keyword::Go) {
            self.bump();
            let expr = self.parse_expr_until(&[StopToken::Newline, StopToken::RBrace]);
            return Some(Stmt::Go { expr, span: start });
        }
        if self.at_keyword(Keyword::Thread) {
            self.bump();
            let expr = self.parse_expr_until(&[StopToken::Newline, StopToken::RBrace]);
            return Some(Stmt::Thread { expr, span: start });
        }
        if self.at_malformed_mut() {
            if self.kind_ahead(1) == Some(TokenKind::Ident) && self.kind_ahead(2) == Some(
                TokenKind::Colon,
            ) {
                self.error_at_span(
                    "E1213",
                    "type-annotated local bindings are not supported yet: write `mut name := expr` and annotate the value instead",
                    start,
                );
            } else {
                self.error_at_span(
                    "E1213",
                    "`mut` must introduce a binding: write `mut name := expr`",
                    start,
                );
            }
            self.bump();
            return None;
        }
        match self.try_parse_binding(start) {
            Some(stmt) => {
                return Some(stmt);
            },
            None => {},
        }
        match self.try_parse_assignment(start) {
            Some(stmt) => {
                return Some(stmt);
            },
            None => {},
        }
        let expr = self.parse_expr_until(&[StopToken::Newline, StopToken::RBrace]);
        Some(Stmt::ExprStmt { expr, span: start })
    }

    /// Whether the statement starts with `mut` but not as `mut name := …`.
    fn at_malformed_mut(&self) -> (r: bool)
        requires
            self.wf(),
    {
        self.at_keyword(Keyword::Mut) && !(self.kind_ahead(1) == Some(TokenKind::Ident)
            && self.kind_ahead(2) == Some(TokenKind::Bind))
    }

    fn try_parse_binding(&mut self, span: Span) -> (r: Option<Stmt>)
        requires
            old(self).wf(),
        ensures
            final(self).wf(),
            final(self).toks() == old(self).toks(),
            final(self).pos() >= old(self).pos(),
        decreases old(self).toks().len() - old(self).pos(), 8int,
    {
        if self.at_keyword(Keyword::Mut) {
            if self.at_malformed_mut() {
                return None;
            }
            self.bump();
            let name = self.bump().lexeme;
            self.bump();
            let expr = self.parse_expr_until(&[StopToken::Newline, StopToken::RBrace]);
            return Some(Stmt::Binding { name, is_mut: true, expr, span });
        }
        if !(self.at_ident() && self.kind_ahead(1) == Some(TokenKind::Bind)) {
            return None;
        }
        let name = self.bump().lexeme;
        self.bump();
        let expr = self.parse_expr_until(&[StopToken::Newline, StopToken::RBrace]);
        Some(Stmt::Binding { name, is_mut: false, expr, span })
    }

    fn try_parse_assignment(&mut self, span: Span) -> (r: Option<Stmt>)
        requires
            old(self).wf(),
        ensures
            final(self).wf(),
            final(self).toks() == old(self).toks(),
            final(self).pos() >= old(self).pos(),
        decreases old(self).toks().len() - old(self).pos(), 8int,
    {
        let checkpoint = self.idx;
        let target = match self.parse_lhs_expr() {
            Some(t) => t,
            None => {
                return None;
            },
        };
        if !self.match_kind(TokenKind::Assign) {
            self.idx = checkpoint;
            return None;
        }
        let expr = self.parse_expr_until(&[StopToken::Newline, StopToken::RBrace]);
        Some(Stmt::Assignment { target, expr, span })
    }

    /// Reads an assignment target: an identifier followed by `.field`s.
    fn parse_lhs_expr(&mut self) -> (r: Option<Expr>)
        requires
            old(self).wf(),
        ensures
            final(self).wf(),
            final(self).toks() == old(self).toks(),
            final(self).pos() >= old(self).pos(),
            final(self).diags() == old(self).diags(),
    {
        if !self.at_ident() {
            return None;
        }
        let tok = self.bump();
        let mut expr = Expr::Ident { name: tok.lexeme, span: tok.span };
        while self.match_kind(TokenKind::Dot)
            invariant
                self.wf(),
                self.toks() == old(self).toks(),
                self.pos() >= old(self).pos(),
                self.diags() == old(self).diags(),
            decreases self.toks().len() - self.pos(),
        {
            if !self.at_ident() {
                break;
            }
            let field = self.bump();
            let es = expr.span();
            let sp = Span::new(es.line_start, es.col_start, field.span.line_end, field.span.col_end);
            expr = Expr::Member { object: Box::new(expr), field: field.lexeme, span: sp };
        }
        Some(expr)
    }

    fn parse_for_stmt(&mut self, span: Span) -> (r: Stmt)
        requires
            old(self).wf(),
            old(self).cur().kind == TokenKind::Keyword(Keyword::For),
        ensures
            final(self).wf(),
            final(self).toks() == old(self).toks(),
            final(self).pos() >= old(self).pos(),
            r matches Stmt::For { span: s, .. } && s == span,
        decreases old(self).toks().len() - old(self).pos(), 8int,
    {
        self.bump();
        let var = self.expect_ident("E1201", "expected loop variable in `for`");
        if !self.at_keyword(Keyword::In) {
            self.error_here("E1202", "expected `in` in `for` statement");
        } else {
            self.bump();
        }
        let iter = self.parse_expr_until(&[StopToken::LBrace]);
        let body = self.parse_block_body();
        Stmt::For { var, iter, body, span }
    }

    fn parse_if_stmt(&mut self, span: Span) -> (r: Stmt)
        requires
            old(self).wf(),
            old(self).cur().kind == TokenKind::Keyword(Keyword::If),
        ensures
            final(self).wf(),
            final(self).toks() == old(self).toks(),
            final(self).pos() >= old(self).pos(),
            r matches Stmt::If { span: s, .. } && s == span,
        decreases old(self).toks().len() - old(self).pos(), 8int,
    {
        self.bump();
        let cond = self.parse_expr_until(&[StopToken::LBrace]);
        let then_body = self.parse_block_body();
        let else_body = if self.at_keyword(Keyword::Else) {
            self.bump();
            self.parse_block_body()
        } else {
            Vec::new()
        };
        Stmt::If { cond, then_body, else_body, span }
    }

    fn parse_while_stmt(&mut self, span: Span) -> (r: Stmt)
        requires
            old(self).wf(),
            old(self).cur().kind == TokenKind::Keyword(Keyword::While),
        ensures
            final(self).wf(),
            final(self).toks() == old(self).toks(),
            final(self).pos() >= old(self).pos(),
            r matches Stmt::While { span: s, .. } && s == span,
        decreases old(self).toks().len() - old(self).pos(), 8int,
    {
        self.bump();
        let cond = self.parse_expr_until(&[StopToken::LBrace]);
        let body = self.parse_block_body();
        Stmt::While { cond, body, span }
    }

    fn parse_repeat_stmt(&mut self, span: Span) -> (r: Stmt)
        requires
            old(self).wf(),
            old(self).cur().kind == TokenKind::Keyword(Keyword::Repeat),
        ensures
            final(self).wf(),
            final(self).toks() == old(self).toks(),
            final(self).pos() >= old(self).pos(),
            r matches Stmt::Repeat { span: s, .. } && s == span,
        decreases old(self).toks().len() - old(self).pos(), 8int,
    {
        self.bump();
        let count = self.parse_expr_until(&[StopToken::LBrace]);
        let body = self.parse_block_body();
        Stmt::Repeat { count, body, span }
    }

    fn parse_select_stmt(&mut self, span: Span) -> (r: Stmt)
        requires
            old(self).wf(),
            old(self).cur().kind == TokenKind::Keyword(Keyword::Select),
        ensures
            final(self).wf(),
            final(self).toks() == old(self).toks(),
            final(self).pos() >= old(self).pos(),
            r matches Stmt::Select { span: s, .. } && s == span,
        decreases old(self).toks().len() - old(self).pos(), 8int,
    {
        self.bump();
        self.expect(TokenKind::LBrace, "E1203", "expected `{` after `select`");
        let mut cases: Vec<SelectCase> = Vec::new();
        self.consume_newlines();
        while !self.at(TokenKind::RBrace) && !self.is_eof()
            invariant
                self.wf(),
                self.toks() == old(self).toks(),
                self.pos() > old(self).pos(),
            decreases self.toks().len() - self.pos(),
        {
            let before = self.idx;
            self.consume_newlines();
            if !self.at_keyword(Keyword::Case) {
                self.error_here("E1204", "expected `case` in `select` block");
                self.sync_to_stmt_boundary();
                if self.idx == before {
                    break;
                }
                continue;
            }
            self.bump();
            let pattern = self.parse_select_pattern();
            self.expect(TokenKind::FatArrow, "E1205", "expected `=>` in `select` case");
            let action = self.parse_expr_until(&[StopToken::Newline, StopToken::RBrace]);
            cases.push(SelectCase { pattern, action, span });
            self.consume_newlines();
            if self.idx == before && !self.at(TokenKind::RBrace) && !self.is_eof() {
                self.error_here("E1299", "parser recovery made no progress inside `select`");
                self.bump();
            }
            if self.idx == before {
                break;
            }
        }
        self.expect(TokenKind::RBrace, "E1206", "expected `}` to close `select`");
        Stmt::Select { cases, span }
    }

    fn parse_match_stmt(&mut self, span: Span) -> (r: Stmt)
        requires
            old(self).wf(),
            old(self).cur().kind == TokenKind::Keyword(Keyword::Match),
        ensures
            final(self).wf(),
            final(self).toks() == old(self).toks(),
            final(self).pos() >= old(self).pos(),
            r matches Stmt::Match { span: s, .. } && s == span,
        decreases old(self).toks().len() - old(self).pos(), 8int,
    {
        self.bump();
        let scrutinee = self.parse_expr_until(&[StopToken::LBrace]);
        self.expect(TokenKind::LBrace, "E1203", "expected `{` after `match` scrutinee");
        let mut arms: Vec<MatchArm> = Vec::new();
        let mut default_action: Option<Expr> = None;
        self.consume_newlines();
        while !self.at(TokenKind::RBrace) && !self.is_eof()
            invariant
                self.wf(),
                self.toks() == old(self).toks(),
                self.pos() > old(self).pos(),
            decreases self.toks().len() - self.pos(),
        {
            let before = self.idx;
            self.consume_newlines();
            if self.at(TokenKind::RBrace) {
                break;
            }
            if self.at_keyword(Keyword::Default) {
                self.bump();
                self.expect(TokenKind::FatArrow, "E1205", "expected `=>` after `default`");
                default_action = Some(
                    self.parse_expr_until(&[StopToken::Newline, StopToken::RBrace]),
                );
                self.consume_newlines();
                break;
            }
            if self.at_keyword(Keyword::Case) {
                self.bump();
                let pattern = self.parse_expr_until(
                    &[StopToken::FatArrow, StopToken::Newline, StopToken::RBrace],
                );
                self.expect(TokenKind::FatArrow, "E1205", "expected `=>` in `match` case");
                let action = self.parse_expr_until(&[StopToken::Newline, StopToken::RBrace]);
                let ps = pattern.span();
                let acs = action.span();
                arms.push(
                    MatchArm {
                        pattern,
                        action,
                        span: Span::new(ps.line_start, ps.col_start, acs.line_end, acs.col_end),
                    },
                );
            } else {
                self.sync_to_stmt_boundary();
            }
            self.consume_newlines();
            if self.idx == before {
                break;
            }
        }
        self.expect(TokenKind::RBrace, "E1206", "expected `}` to close `match`");
        Stmt::Match { scrutinee, arms, default_action, span }
    }

    fn parse_select_pattern(&mut self) -> (r: SelectPattern)
        requires
            old(self).wf(),
        ensures
            final(self).wf(),
            final(self).toks() == old(self).toks(),
            final(self).pos() >= old(self).pos(),
        decreases old(self).toks().len() - old(self).pos(), 8int,
    {
        if self.at_keyword(Keyword::Default) {
            self.bump();
            return SelectPattern::Default;
        }
        if self.at_keyword(Keyword::After) {
            self.bump();
            let lit = self.bump().lexeme;
            return SelectPattern::After { duration_literal: lit };
        }
        if self.at_keyword(Keyword::Closed) {
            self.bump();
            let ident = self.expect_ident("E1207", "expected identifier after `closed`");
            return SelectPattern::Closed { ident };
        }
        let binding = self.expect_ident("E1208", "expected binding identifier in `select` receive");
        self.expect(TokenKind::Bind, "E1209", "expected `:=` in receive case");
        let expr = self.parse_expr_until(
            &[StopToken::FatArrow, StopToken::Newline, StopToken::RBrace],
        );
        SelectPattern::Receive { binding, expr }
    }

    /// Reads `{ statements }`, recovering after malformed statements.
    fn parse_block_body(&mut self) -> (r: Vec<Stmt>)
        requires
            old(self).wf(),
        ensures
            final(self).wf(),
            final(self).toks() == old(self).toks(),
            final(self).pos() >= old(self).pos(),
        decreases old(self).toks().len() - old(self).pos(), 10int,
    {
        self.expect(TokenKind::LBrace, "E1210", "expected `{` to start block");
        let mut body: Vec<Stmt> = Vec::new();
        self.consume_newlines();
        while !self.at(TokenKind::RBrace) && !self.is_eof()
            invariant
                self.wf(),
                self.toks() == old(self).toks(),
                self.pos() >= old(self).pos(),
            decreases self.toks().len() - self.pos(),
        {
            let before = self.idx;
            match self.parse_stmt() {
                Some(stmt) => body.push(stmt),
                None => self.sync_to_stmt_boundary(),
            }
            self.consume_newlines();
            if self.idx == before && !self.at(TokenKind::RBrace) && !self.is_eof() {
                self.error_here("E1212", "parser recovery made no progress inside block");
                self.bump();
            }
            if self.idx == before {
                break;
            }
        }
        self.expect(TokenKind::RBrace, "E1211", "expected `}` to close block");
        body
    }

    /// Reads an expression up to one of `stop`; where there is none,
    /// reports E1401 and gives `__error`.
    ///
    /// Operators bind by precedence, and operators of equal precedence
    /// associate to the left: where the tokens are `x o1 y o2 z` (three
    /// identifiers) up to a stop, the expression is `(x o1 y) o2 z` when
    /// `o2` binds no tighter than `o1`, and `x o1 (y o2 z)` when it binds
    /// tighter; `x o y` is the one operation and a lone `x` the identifier
    /// (with room for the nesting these take).
    pub fn parse_expr_until(&mut self, stop: &[StopToken]) -> (r: Expr)
        requires
            old(self).wf(),
        ensures
            final(self).wf(),
            final(self).toks() == old(self).toks(),
            final(self).pos() >= old(self).pos(),
            ({
                let t = old(self).toks();
                let i0 = old(self).pos();
                let i1 = advance(t, i0);
                let i2 = advance(t, i1);
                let i3 = advance(t, i2);
                let i4 = advance(t, i3);
                let i5 = advance(t, i4);
                let d = old(self).depth();
                &&& d < MAX_EXPR_NESTING_DEPTH && one_operand(t, i0, stop@, 0) ==> (ident_of(r, t[i0])
                    && final(self).pos() == i1)
                &&& d + 1 < MAX_EXPR_NESTING_DEPTH && two_operands(t, i0, stop@, 0) ==> (pair_of(
                    r,
                    op_at(t, i1).unwrap().0,
                    t[i0],
                    t[i2],
                ) && final(self).pos() == i3)
                &&& d + 2 < MAX_EXPR_NESTING_DEPTH && three_operands(t, i0, stop@, 0) ==> {
                    let (o1, p1) = op_at(t, i1).unwrap();
                    let (o2, p2) = op_at(t, i3).unwrap();
                    &&& p2 <= p1 ==> left_chain_of(r, o1, o2, t[i0], t[i2], t[i4])
                    &&& p2 > p1 ==> right_chain_of(r, o1, o2, t[i0], t[i2], t[i4])
                    &&& final(self).pos() == i5
                }
            }),
        decreases old(self).toks().len() - old(self).pos(), 7int,
    {
        match self.parse_binary_expr(0, stop) {
            Some(e) => e,
            None => self.error_expr("E1401", "expected expression"),
        }
    }

    /// Enters one level of expression nesting; past the limit, reports
    /// E1415 and skips the over-deep expression.
    fn parse_binary_expr(&mut self, min_prec: u8, stop: &[StopToken]) -> (r: Option<Expr>)
        requires
            old(self).wf(),
        ensures
            final(self).wf(),
            final(self).toks() == old(self).toks(),
            final(self).pos() >= old(self).pos(),
            ({
                let t = old(self).toks();
                let i0 = old(self).pos();
                let i1 = advance(t, i0);
                let i2 = advance(t, i1);
                let i3 = advance(t, i2);
                let i4 = advance(t, i3);
                let i5 = advance(t, i4);
                let m = min_prec as int;
                let d = old(self).depth();
                &&& d < MAX_EXPR_NESTING_DEPTH && one_operand(t, i0, stop@, m) ==> (r matches Some(e)
                    && ident_of(e, t[i0]) && final(self).pos() == i1 && final(self).depth() == d)
                &&& d + 1 < MAX_EXPR_NESTING_DEPTH && two_operands(t, i0, stop@, m) ==> (r matches Some(e)
                    && pair_of(e, op_at(t, i1).unwrap().0, t[i0], t[i2]) && final(self).pos() == i3
                    && final(self).depth() == d)
                &&& d + 1 < MAX_EXPR_NESTING_DEPTH && three_operands(t, i0, stop@, m) && op_at(t, i3).unwrap().1
                    <= op_at(t, i1).unwrap().1 ==> (r matches Some(e) && left_chain_of(
                    e,
                    op_at(t, i1).unwrap().0,
                    op_at(t, i3).unwrap().0,
                    t[i0],
                    t[i2],
                    t[i4],
                ) && final(self).pos() == i5 && final(self).depth() == d)
                &&& d + 2 < MAX_EXPR_NESTING_DEPTH && three_operands(t, i0, stop@, m) && op_at(t, i3).unwrap().1
                    > op_at(t, i1).unwrap().1 ==> (r matches Some(e) && right_chain_of(
                    e,
                    op_at(t, i1).unwrap().0,
                    op_at(t, i3).unwrap().0,
                    t[i0],
                    t[i2],
                    t[i4],
                ) && final(self).pos() == i5 && final(self).depth() == d)
            }),
        decreases old(self).toks().len() - old(self).pos(), 6int,
    {
        if self.expr_depth >= MAX_EXPR_NESTING_DEPTH {
            return Some(self.expr_nesting_too_deep());
        }
        self.expr_depth = self.expr_depth + 1;
        let result = self.parse_binary_expr_inner(min_prec, stop);
        if self.expr_depth > 0 {
            self.expr_depth = self.expr_depth - 1;
        }
        if self.expr_depth == 0 {
            self.expr_depth_exceeded = false;
        }
        result
    }

    /// The binary operator at the current token and its precedence.
    fn binary_op_at(&self) -> (r: Option<(BinaryOp, u8)>)
        requires
            self.wf(),
        ensures
            r == binary_op_spec(self.cur().kind),
            r is Some ==> self.cur().kind != TokenKind::Eof,
            r matches Some((_, p)) ==> p <= 40,
    {
        match self.peek().kind {
            TokenKind::Star => Some((BinaryOp::Mul, 40)),
            TokenKind::Slash => Some((BinaryOp::Div, 40)),
            TokenKind::Percent => Some((BinaryOp::Mod, 40)),
            TokenKind::LtLt => Some((BinaryOp::Shl, 35)),
            TokenKind::GtGt => Some((BinaryOp::Shr, 35)),
            TokenKind::Plus => Some((BinaryOp::Add, 30)),
            TokenKind::Minus => Some((BinaryOp::Sub, 30)),
            TokenKind::Lt => Some((BinaryOp::Lt, 25)),
            TokenKind::Le => Some((BinaryOp::Le, 25)),
            TokenKind::Gt => Some((BinaryOp::Gt, 25)),
            TokenKind::Ge => Some((BinaryOp::Ge, 25)),
            TokenKind::EqEq => Some((BinaryOp::Eq, 20)),
            TokenKind::NotEq => Some((BinaryOp::Ne, 20)),
            TokenKind::Amp => Some((BinaryOp::BitAnd, 18)),
            TokenKind::Caret => Some((BinaryOp::BitXor, 16)),
            TokenKind::Pipe => Some((BinaryOp::BitOr, 14)),
            TokenKind::AmpAmp => Some((BinaryOp::And, 10)),
            TokenKind::PipePipe => Some((BinaryOp::Or, 5)),
            _ => None,
        }
    }

    /// Precedence climbing: operands joined by operators binding at least
    /// `min_prec`, left to right.
    fn parse_binary_expr_inner(&mut self, min_prec: u8, stop: &[StopToken]) -> (r: Option<Expr>)
        requires
            old(self).wf(),
        ensures
            final(self).wf(),
            final(self).toks() == old(self).toks(),
            final(self).pos() >= old(self).pos(),
            ({
                let t = old(self).toks();
                let i0 = old(self).pos();
                let i1 = advance(t, i0);
                let i2 = advance(t, i1);
                let i3 = advance(t, i2);
                let i4 = advance(t, i3);
                let i5 = advance(t, i4);
                let m = min_prec as int;
                let d = old(self).depth();
                &&& one_operand(t, i0, stop@, m) ==> (r matches Some(e) && ident_of(e, t[i0])
                    && final(self).pos() == i1 && final(self).depth() == d)
                &&& d < MAX_EXPR_NESTING_DEPTH && two_operands(t, i0, stop@, m) ==> (r matches Some(e)
                    && pair_of(e, op_at(t, i1).unwrap().0, t[i0], t[i2]) && final(self).pos() == i3
                    && final(self).depth() == d)
                &&& d < MAX_EXPR_NESTING_DEPTH && three_operands(t, i0, stop@, m) && op_at(t, i3).unwrap().1
                    <= op_at(t, i1).unwrap().1 ==> (r matches Some(e) && left_chain_of(
                    e,
                    op_at(t, i1).unwrap().0,
                    op_at(t, i3).unwrap().0,
                    t[i0],
                    t[i2],
                    t[i4],
                ) && final(self).pos() == i5 && final(self).depth() == d)
                &&& d + 1 < MAX_EXPR_NESTING_DEPTH && three_operands(t, i0, stop@, m) && op_at(t, i3).unwrap().1
                    > op_at(t, i1).unwrap().1 ==> (r matches Some(e) && right_chain_of(
                    e,
                    op_at(t, i1).unwrap().0,
                    op_at(t, i3).unwrap().0,
                    t[i0],
                    t[i2],
                    t[i4],
                ) && final(self).pos() == i5 && final(self).depth() == d)
            }),
        decreases old(self).toks().len() - old(self).pos(), 5int,
    {
        let ghost t = self.toks();
        let ghost i0 = self.pos();
        let ghost i1 = advance(t, i0);
        let ghost i2 = advance(t, i1);
        let ghost i3 = advance(t, i2);
        let ghost i4 = advance(t, i3);
        let ghost i5 = advance(t, i4);
        let ghost m = min_prec as int;
        let ghost d = self.depth();
        let ghost one = one_operand(t, i0, stop@, m);
        let ghost two = d < MAX_EXPR_NESTING_DEPTH && two_operands(t, i0, stop@, m);
        let ghost three = three_operands(t, i0, stop@, m);
        let ghost (o1, p1) = op_at(t, i1).unwrap();
        let ghost (o2, p2) = op_at(t, i3).unwrap();
        let ghost left3 = d < MAX_EXPR_NESTING_DEPTH && three && p2 <= p1;
        let ghost right3 = d + 1 < MAX_EXPR_NESTING_DEPTH && three && p2 > p1;
        let mut left = match self.parse_unary_expr(stop) {
            Some(e) => e,
            None => {
                return None;
            },
        };
        let ghost mut steps: int = 0;
        loop
            invariant
                self.wf(),
                self.toks() == old(self).toks(),
                self.pos() >= old(self).pos(),
                t == old(self).toks(),
                i0 == old(self).pos(),
                i1 == advance(t, i0),
                i2 == advance(t, i1),
                i3 == advance(t, i2),
                i4 == advance(t, i3),
                i5 == advance(t, i4),
                m == min_prec as int,
                d == old(self).depth(),
                one == one_operand(t, i0, stop@, m),
                two == (d < MAX_EXPR_NESTING_DEPTH && two_operands(t, i0, stop@, m)),
                three == three_operands(t, i0, stop@, m),
                (o1, p1) == op_at(t, i1).unwrap(),
                (o2, p2) == op_at(t, i3).unwrap(),
                left3 == (d < MAX_EXPR_NESTING_DEPTH && three && p2 <= p1),
                right3 == (d + 1 < MAX_EXPR_NESTING_DEPTH && three && p2 > p1),
                one ==> (steps == 0 && ident_of(left, t[i0]) && self.pos() == i1 && self.depth() == d),
                two ==> ((steps == 0 && ident_of(left, t[i0]) && self.pos() == i1 && self.depth() == d)
                    || (steps == 1 && pair_of(left, o1, t[i0], t[i2]) && self.pos() == i3
                    && self.depth() == d)),
                left3 ==> ((steps == 0 && ident_of(left, t[i0]) && self.pos() == i1 && self.depth() == d)
                    || (steps == 1 && pair_of(left, o1, t[i0], t[i2]) && self.pos() == i3
                    && self.depth() == d) || (steps == 2 && left_chain_of(left, o1, o2, t[i0], t[i2], t[i4])
                    && self.pos() == i5 && self.depth() == d)),
                right3 ==> ((steps == 0 && ident_of(left, t[i0]) && self.pos() == i1 && self.depth() == d)
                    || (steps == 1 && right_chain_of(left, o1, o2, t[i0], t[i2], t[i4]) && self.pos() == i5
                    && self.depth() == d)),
            ensures
                self.wf(),
                self.toks() == old(self).toks(),
                self.pos() >= old(self).pos(),
                one ==> (ident_of(left, t[i0]) && self.pos() == i1 && self.depth() == d),
                two ==> (pair_of(left, o1, t[i0], t[i2]) && self.pos() == i3 && self.depth() == d),
                left3 ==> (left_chain_of(left, o1, o2, t[i0], t[i2], t[i4]) && self.pos() == i5
                    && self.depth() == d),
                right3 ==> (right_chain_of(left, o1, o2, t[i0], t[i2], t[i4]) && self.pos() == i5
                    && self.depth() == d),
            decreases self.toks().len() - self.pos(),
        {
            if self.is_stop(stop) {
                break;
            }
            let (op, prec) = match self.binary_op_at() {
                Some(p) => p,
                None => {
                    break;
                },
            };
            if prec < min_prec {
                break;
            }
            self.bump();
            let right = match self.parse_binary_expr(prec + 1, stop) {
                Some(e) => e,
                None => self.error_expr("E1402", "expected right-hand expression"),
            };
            let ls = left.span();
            let rs = right.span();
            let span = Span::new(ls.line_start, ls.col_start, rs.line_end, rs.col_end);
            left = Expr::Binary { left: Box::new(left), op, right: Box::new(right), span };
            proof {
                steps = steps + 1;
            }
        }
        Some(left)
    }

    fn parse_unary_expr(&mut self, stop: &[StopToken]) -> (r: Option<Expr>)
        requires
            old(self).wf(),
        ensures
            final(self).wf(),
            final(self).toks() == old(self).toks(),
            final(self).pos() >= old(self).pos(),
            stops_at(old(self).toks(), old(self).pos(), stop@) ==> r is None && final(self).pos()
                == old(self).pos() && final(self).diags() == old(self).diags(),
            !stops_at(old(self).toks(), old(self).pos(), stop@) ==> {
                let k = old(self).cur().kind;
                &&& k == TokenKind::Minus ==> (r matches Some(Expr::Unary { op, .. }) && op == UnaryOp::Neg)
                &&& k == TokenKind::Bang ==> (r matches Some(Expr::Unary { op, .. }) && op == UnaryOp::Not)
                &&& k == TokenKind::Keyword(Keyword::Async) ==> (r matches Some(Expr::Async { .. }))
                &&& k == TokenKind::Keyword(Keyword::Await) ==> (r matches Some(Expr::Await { .. }))
            },
            ident_operand(old(self).toks(), old(self).pos(), stop@) ==> (r matches Some(e) && ident_of(
                e,
                old(self).cur(),
            ) && final(self).pos() == advance(old(self).toks(), old(self).pos()) && final(self).depth()
                == old(self).depth()),
        decreases old(self).toks().len() - old(self).pos(), 3int,
    {
        if self.is_stop(stop) {
            return None;
        }
        match self.peek().kind {
            TokenKind::Minus => {
                let op_tok = self.bump();
                let inner = self.parse_unary_operand(
                    stop,
                    "E1403",
                    "expected expression after unary `-`",
                );
                let is = inner.span();
                let span = Span::new(op_tok.span.line_start, op_tok.span.col_start, is.line_end, is.col_end);
                Some(Expr::Unary { op: UnaryOp::Neg, expr: Box::new(inner), span })
            },
            TokenKind::Bang => {
                let op_tok = self.bump();
                let inner = self.parse_unary_operand(
                    stop,
                    "E1404",
                    "expected expression after unary `!`",
                );
                let is = inner.span();
                let span = Span::new(op_tok.span.line_start, op_tok.span.col_start, is.line_end, is.col_end);
                Some(Expr::Unary { op: UnaryOp::Not, expr: Box::new(inner), span })
            },
            TokenKind::Keyword(Keyword::Async) => {
                let kw = self.bump();
                let inner = self.parse_unary_operand(stop, "E1404A", "expected expression after `async`");
                let is = inner.span();
                let span = Span::new(kw.span.line_start, kw.span.col_start, is.line_end, is.col_end);
                Some(Expr::Async { expr: Box::new(inner), span })
            },
            TokenKind::Keyword(Keyword::Await) => {
                let kw = self.bump();
                let inner = self.parse_unary_operand(stop, "E1404B", "expected expression after `await`");
                let is = inner.span();
                let span = Span::new(kw.span.line_start, kw.span.col_start, is.line_end, is.col_end);
                Some(Expr::Await { expr: Box::new(inner), span })
            },
            _ => self.parse_postfix_expr(stop),
        }
    }

    /// The operand of a prefix operator, one nesting level deeper.
    fn parse_unary_operand(&mut self, stop: &[StopToken], code: &str, message: &str) -> (r: Expr)
        requires
            old(self).wf(),
        ensures
            final(self).wf(),
            final(self).toks() == old(self).toks(),
            final(self).pos() >= old(self).pos(),
        decreases old(self).toks().len() - old(self).pos(), 4int,
    {
        if self.expr_depth >= MAX_EXPR_NESTING_DEPTH {
            return self.expr_nesting_too_deep();
        }
        self.expr_depth = self.expr_depth + 1;
        let inner = self.parse_unary_expr(stop);
        if self.expr_depth > 0 {
            self.expr_depth = self.expr_depth - 1;
        }
        match inner {
            Some(e) => e,
            None => self.error_expr(code, message),
        }
    }

    /// Reports E1415 once for an over-deep expression, then skips the rest
    /// of it (balanced over brackets, stopping before the enclosing closer,
    /// a newline or comma outside brackets, or the end) and holds back
    /// follow-on diagnostics while the nesting unwinds.
    fn expr_nesting_too_deep(&mut self) -> (r: Expr)
        requires
            old(self).wf(),
        ensures
            final(self).wf(),
            final(self).toks() == old(self).toks(),
            final(self).pos() >= old(self).pos(),
    {
        let span = self.peek().span;
        self.diagnostics.push(
            Diagnostic::new(
                "E1415",
                Severity::Error,
                "expression nesting too deep (limit is 256)",
                span,
            ),
        );
        self.expr_depth_exceeded = true;
        let mut depth: usize = 0;
        loop
            invariant
                self.wf(),
                self.toks() == old(self).toks(),
                self.pos() >= old(self).pos(),
                depth <= self.pos(),
            decreases self.toks().len() - self.pos(),
        {
            match self.peek().kind {
                TokenKind::Eof => {
                    break;
                },
                TokenKind::LParen | TokenKind::LBracket | TokenKind::LBrace => {
                    let n = self.tokens.len();
                    assert(self.toks().len() == n);
                    depth = depth + 1;
                },
                TokenKind::RParen | TokenKind::RBracket | TokenKind::RBrace => {
                    if depth == 0 {
                        break;
                    }
                    depth = depth - 1;
                },
                TokenKind::Newline | TokenKind::Comma => {
                    if depth == 0 {
                        break;
                    }
                },
                _ => {},
            }
            self.bump();
        }
        Expr::Ident { name: to_owned_string("__error"), span }
    }

    /// Reads `name: value` fields up to the closing `}` (not consumed).
    fn parse_field_values(&mut self) -> (r: Vec<(String, Expr)>)
        requires
            old(self).wf(),
        ensures
            final(self).wf(),
            final(self).toks() == old(self).toks(),
            final(self).pos() >= old(self).pos(),
        decreases old(self).toks().len() - old(self).pos(), 8int,
    {
        let mut fields: Vec<(String, Expr)> = Vec::new();
        self.consume_newlines();
        while !self.at(TokenKind::RBrace) && !self.is_eof()
            invariant
                self.wf(),
                self.toks() == old(self).toks(),
                self.pos() >= old(self).pos(),
            decreases self.toks().len() - self.pos(),
        {
            let field_name = self.expect_ident("E1140", "expected field name in constructor");
            self.expect(TokenKind::Colon, "E1141", "expected `:` after field name in constructor");
            let value = self.parse_expr_until(&[StopToken::Comma, StopToken::RBrace]);
            fields.push((field_name, value));
            if self.match_kind(TokenKind::Comma) {
                self.consume_newlines();
            } else {
                break;
            }
        }
        fields
    }

    /// Reads the fields of an enum variant expression up to the closing `}`
    /// (not consumed): `name: value`, or `name` alone for `name: name`.
    fn parse_variant_fields(&mut self) -> (r: Vec<(String, Expr)>)
        requires
            old(self).wf(),
        ensures
            final(self).wf(),
            final(self).toks() == old(self).toks(),
            final(self).pos() >= old(self).pos(),
        decreases old(self).toks().len() - old(self).pos(), 8int,
    {
        let mut fields: Vec<(String, Expr)> = Vec::new();
        self.consume_newlines();
        while !self.at(TokenKind::RBrace) && !self.is_eof()
            invariant
                self.wf(),
                self.toks() == old(self).toks(),
                self.pos() >= old(self).pos(),
            decreases self.toks().len() - self.pos(),
        {
            if !self.at_ident() {
                self.error_here("E1140", "expected field name in enum variant expression");
                break;
            }
            let ftok = self.bump();
            if self.at(TokenKind::Comma) || self.at(TokenKind::RBrace) {
                let short = Expr::Ident { name: to_owned_string(ftok.lexeme.as_str()), span: ftok.span };
                fields.push((ftok.lexeme, short));
            } else {
                self.expect(
                    TokenKind::Colon,
                    "E1141",
                    "expected `:` after field name in enum variant expression",
                );
                let value = self.parse_expr_until(&[StopToken::Comma, StopToken::RBrace]);
                fields.push((ftok.lexeme, value));
            }
            if self.match_kind(TokenKind::Comma) {
                self.consume_newlines();
            } else {
                break;
            }
        }
        fields
    }

    /// Reads the arguments of a call after its `(` up to the `)` (not
    /// consumed).
    fn parse_call_args(&mut self) -> (r: Vec<Expr>)
        requires
            old(self).wf(),
        ensures
            final(self).wf(),
            final(self).toks() == old(self).toks(),
            final(self).pos() >= old(self).pos(),
        decreases old(self).toks().len() - old(self).pos(), 8int,
    {
        let mut args: Vec<Expr> = Vec::new();
        self.consume_newlines();
        while !self.at(TokenKind::RParen) && !self.is_eof()
            invariant
                self.wf(),
                self.toks() == old(self).toks(),
                self.pos() >= old(self).pos(),
            decreases self.toks().len() - self.pos(),
        {
            args.push(
                self.parse_expr_until(&[StopToken::Comma, StopToken::RParen, StopToken::Newline]),
            );
            if self.match_kind(TokenKind::Comma) {
                self.consume_newlines();
            } else {
                break;
            }
        }
        args
    }

    /// Reads the rest of a slice after its `:` up to `]`.
    fn parse_slice_end(&mut self) -> (r: Option<Box<Expr>>)
        requires
            old(self).wf(),
        ensures
            final(self).wf(),
            final(self).toks() == old(self).toks(),
            final(self).pos() >= old(self).pos(),
        decreases old(self).toks().len() - old(self).pos(), 8int,
    {
        self.consume_newlines();
        if self.at(TokenKind::RBracket) {
            None
        } else {
            Some(Box::new(self.parse_expr_until(&[StopToken::RBracket])))
        }
    }

    /// Reads a primary expression and what follows it: constructors
    /// `Name { … }`, enum variants `Enum.Variant { … }`, member access
    /// `.field` (also at the start of the next line), calls `( … )`,
    /// indexing and slicing `[ … ]`, and `?`.
    pub fn parse_postfix_expr(&mut self, stop: &[StopToken]) -> (r: Option<Expr>)
        requires
            old(self).wf(),
        ensures
            final(self).wf(),
            final(self).toks() == old(self).toks(),
            final(self).pos() >= old(self).pos(),
            ident_operand(old(self).toks(), old(self).pos(), stop@) ==> (r matches Some(e) && ident_of(
                e,
                old(self).cur(),
            ) && final(self).pos() == advance(old(self).toks(), old(self).pos()) && final(self).depth()
                == old(self).depth()),
        decreases old(self).toks().len() - old(self).pos(), 2int,
    {
        let ghost toks = self.toks();
        let ghost start = self.pos();
        let ghost simple = ident_operand(toks, start, stop@);
        let ghost d0 = self.depth();
        proof {
            if simple {
                let n = advance(toks, start);
                if stops_at(toks, n, stop@) {
                    lemma_stop_kind(toks, n, stop@);
                }
            }
        }
        let mut expr = match self.parse_primary(stop) {
            Some(e) => e,
            None => {
                return None;
            },
        };
        loop
            invariant
                self.wf(),
                self.toks() == old(self).toks(),
                self.pos() >= old(self).pos(),
                toks == old(self).toks(),
                start == old(self).pos(),
                simple == ident_operand(toks, start, stop@),
                simple ==> (ident_of(expr, toks[start]) && self.pos() == advance(toks, start)
                    && self.depth() == d0 && d0 == old(self).depth()),
            decreases self.toks().len() - self.pos(),
        {
            proof {
                if simple {
                    let n = advance(toks, start);
                    if stops_at(toks, n, stop@) {
                        lemma_stop_kind(toks, n, stop@);
                    } else {
                        assert(op_at(toks, n) is Some);
                    }
                }
            }
            if self.at(TokenKind::Newline) && self.peek_non_newline_kind() == Some(TokenKind::Dot) {
                self.consume_newlines();
            }
            if self.is_stop(stop) {
                break;
            }
            if self.at(TokenKind::LBrace) {
                let ident = match &expr {
                    Expr::Ident { name, span } => Some((to_owned_string(name.as_str()), *span)),
                    _ => None,
                };
                match ident {
                    Some((struct_name, ident_span)) => {
                        self.bump();
                        let fields = self.parse_field_values();
                        let end = self.expect(
                            TokenKind::RBrace,
                            "E1412",
                            "expected `}` to close constructor",
                        );
                        expr = Expr::Constructor {
                            struct_name,
                            fields,
                            span: Span::new(
                                ident_span.line_start,
                                ident_span.col_start,
                                end.line_end,
                                end.col_end,
                            ),
                        };
                        continue;
                    },
                    None => {},
                }
                let variant_of = match &expr {
                    Expr::Member { object, field, span } => match &**object {
                        Expr::Ident { name, .. } => Some(
                            (to_owned_string(name.as_str()), to_owned_string(field.as_str()), *span),
                        ),
                        _ => None,
                    },
                    _ => None,
                };
                match variant_of {
                    Some((enum_name, variant, span_lo)) => {
                        self.bump();
                        let fields = self.parse_variant_fields();
                        let end = self.expect(
                            TokenKind::RBrace,
                            "E1412",
                            "expected `}` to close enum variant expression",
                        );
                        expr = Expr::EnumVariant {
                            enum_name,
                            variant,
                            fields,
                            span: Span::new(
                                span_lo.line_start,
                                span_lo.col_start,
                                end.line_end,
                                end.col_end,
                            ),
                        };
                        continue;
                    },
                    None => {},
                }
            }
            if self.match_kind(TokenKind::Dot) {
                if !self.at_ident() {
                    self.error_here("E1405", "expected identifier after `.`");
                    break;
                }
                let field = self.bump();
                let es = expr.span();
                let span = Span::new(es.line_start, es.col_start, field.span.line_end, field.span.col_end);
                expr = Expr::Member { object: Box::new(expr), field: field.lexeme, span };
                continue;
            }
            if self.match_kind(TokenKind::LParen) {
                let args = self.parse_call_args();
                let end = self.expect(TokenKind::RParen, "E1406", "expected `)` after call arguments");
                let es = expr.span();
                let span = Span::new(es.line_start, es.col_start, end.line_end, end.col_end);
                expr = Expr::Call { callee: Box::new(expr), args, span };
                continue;
            }
            if self.match_kind(TokenKind::LBracket) {
                self.consume_newlines();
                if self.match_kind(TokenKind::Colon) {
                    let end = self.parse_slice_end();
                    let close = self.expect(TokenKind::RBracket, "E1406A", "expected `]`");
                    let es = expr.span();
                    let span = Span::new(es.line_start, es.col_start, close.line_end, close.col_end);
                    expr = Expr::Slice { object: Box::new(expr), start: None, end, span };
                    continue;
                }
                let first = self.parse_expr_until(&[StopToken::Colon, StopToken::RBracket]);
                if self.match_kind(TokenKind::Colon) {
                    let end = self.parse_slice_end();
                    let close = self.expect(TokenKind::RBracket, "E1406B", "expected `]`");
                    let es = expr.span();
                    let span = Span::new(es.line_start, es.col_start, close.line_end, close.col_end);
                    expr = Expr::Slice {
                        object: Box::new(expr),
                        start: Some(Box::new(first)),
                        end,
                        span,
                    };
                    continue;
                }
                let close = self.expect(TokenKind::RBracket, "E1406C", "expected `]`");
                let es = expr.span();
                let span = Span::new(es.line_start, es.col_start, close.line_end, close.col_end);
                expr = Expr::Index { object: Box::new(expr), index: Box::new(first), span };
                continue;
            }
            if self.match_kind(TokenKind::Question) {
                let sp = expr.span();
                expr = Expr::Question { expr: Box::new(expr), span: sp };
                continue;
            }
            break;
        }
        Some(expr)
    }

    /// Reads a primary expression: an identifier or `old(expr)`, a
    /// literal, a function literal, a list `[ … ]`, a map `{ k: v, … }`,
    /// `.` (the previous result) or a parenthesised expression. A `mut`
    /// before it is reported (E1213) and skipped.
    pub fn parse_primary(&mut self, stop: &[StopToken]) -> (r: Option<Expr>)
        requires
            old(self).wf(),
        ensures
            final(self).wf(),
            final(self).toks() == old(self).toks(),
            final(self).pos() >= old(self).pos(),
            stops_at(old(self).toks(), old(self).pos(), stop@) ==> r is None && final(self).pos()
                == old(self).pos() && final(self).diags() == old(self).diags(),
            ({
                let t = old(self).cur();
                let next = advance(old(self).toks(), old(self).pos());
                !stops_at(old(self).toks(), old(self).pos(), stop@) ==> {
                    &&& (!starts_primary(t.kind) && t.kind != TokenKind::Keyword(Keyword::Mut)) ==> (r
                        is None && final(self).pos() == old(self).pos() && final(self).diags()
                        == old(self).diags().push(
                        error_at("E1410"@, "unexpected token in expression"@, t.span),
                    ))
                    &&& (t.kind == TokenKind::Ident && !(t.lexeme == "old"@ && old(self).toks()[next].kind
                        == TokenKind::LParen)) ==> (r matches Some(Expr::Ident { name, span })
                        && name@ == t.lexeme && span == t.span && final(self).pos() == next
                        && final(self).diags() == old(self).diags() && final(self).depth()
                        == old(self).depth())
                    &&& t.kind == TokenKind::FloatLit ==> (r matches Some(Expr::Float { text, span })
                        && text@ == t.lexeme && span == t.span && final(self).pos() == next
                        && final(self).diags() == old(self).diags())
                    &&& t.kind == TokenKind::IntLit ==> (r matches Some(Expr::Int { value, span })
                        && span == t.span && value == match i64_literal(t.lexeme) {
                        Some(v) => v,
                        None => 0,
                    } && final(self).pos() == next)
                    &&& t.kind == TokenKind::Keyword(Keyword::True) ==> (r matches Some(
                        Expr::Bool { value, span },
                    ) && value && span == t.span && final(self).pos() == next)
                    &&& t.kind == TokenKind::Keyword(Keyword::False) ==> (r matches Some(
                        Expr::Bool { value, span },
                    ) && !value && span == t.span && final(self).pos() == next)
                    &&& t.kind == TokenKind::Dot ==> (r matches Some(Expr::DotResult { span })
                        && span == t.span && final(self).pos() == next)
                }
            }),
        decreases old(self).toks().len() - old(self).pos(), 1int,
    {
        if self.is_stop(stop) {
            return None;
        }
        if self.at_keyword(Keyword::Mut) {
            self.error_here(
                "E1213",
                "`mut` is not valid here: mutability is declared at the binding (`mut name := expr`) or on the parameter (`fn f(mut name: T)`), never at a call site",
            );
            self.bump();
            if self.is_stop(stop) {
                return None;
            }
        }
        let kind = self.peek().kind;
        let tok_span = self.peek().span;
        match kind {
            TokenKind::Ident => {
                let ident = self.bump();
                if str_eq(ident.lexeme.as_str(), "old") && self.at(TokenKind::LParen) {
                    self.bump();
                    let inner = self.parse_expr_until(&[StopToken::RParen]);
                    let end = self.expect(
                        TokenKind::RParen,
                        "E1407",
                        "expected `)` after `old(` expression",
                    );
                    let span = Span::new(
                        ident.span.line_start,
                        ident.span.col_start,
                        end.line_end,
                        end.col_end,
                    );
                    Some(Expr::Old { expr: Box::new(inner), span })
                } else {
                    Some(Expr::Ident { name: ident.lexeme, span: ident.span })
                }
            },
            TokenKind::IntLit => Some(self.parse_int_literal()),
            TokenKind::FloatLit => {
                let t = self.bump();
                Some(Expr::Float { text: t.lexeme, span: t.span })
            },
            TokenKind::StringLit => Some(self.parse_string_literal()),
            TokenKind::Keyword(Keyword::True) => {
                let t = self.bump();
                Some(Expr::Bool { value: true, span: t.span })
            },
            TokenKind::Keyword(Keyword::False) => {
                let t = self.bump();
                Some(Expr::Bool { value: false, span: t.span })
            },
            TokenKind::Keyword(Keyword::Fn) => Some(self.parse_fn_literal_expression()),
            TokenKind::LBracket => {
                let start = self.bump().span;
                let items = self.parse_list_items();
                let end = self.expect(TokenKind::RBracket, "E1408", "expected `]`");
                let span = Span::new(start.line_start, start.col_start, end.line_end, end.col_end);
                Some(Expr::List { items, span })
            },
            TokenKind::LBrace => {
                let start = self.bump().span;
                let entries = self.parse_map_entries();
                let end = self.expect(TokenKind::RBrace, "E1412", "expected `}` after map literal");
                let span = Span::new(start.line_start, start.col_start, end.line_end, end.col_end);
                Some(Expr::MapLit { entries, span })
            },
            TokenKind::Dot => {
                let t = self.bump();
                Some(Expr::DotResult { span: t.span })
            },
            TokenKind::LParen => {
                self.bump();
                let inner = self.parse_expr_until(&[StopToken::RParen]);
                self.expect(TokenKind::RParen, "E1409", "expected `)`");
                Some(inner)
            },
            _ => {
                self.error_at_span("E1410", "unexpected token in expression", tok_span);
                None
            },
        }
    }

    /// The items of a list literal after its `[` up to `]` (not consumed).
    fn parse_list_items(&mut self) -> (r: Vec<Expr>)
        requires
            old(self).wf(),
        ensures
            final(self).wf(),
            final(self).toks() == old(self).toks(),
            final(self).pos() >= old(self).pos(),
        decreases old(self).toks().len() - old(self).pos(), 8int,
    {
        let mut items: Vec<Expr> = Vec::new();
        self.consume_newlines();
        while !self.at(TokenKind::RBracket) && !self.is_eof()
            invariant
                self.wf(),
                self.toks() == old(self).toks(),
                self.pos() >= old(self).pos(),
            decreases self.toks().len() - self.pos(),
        {
            items.push(self.parse_expr_until(&[StopToken::Comma, StopToken::RBracket]));
            if self.match_kind(TokenKind::Comma) {
                self.consume_newlines();
            } else {
                break;
            }
        }
        items
    }

    /// The entries of a map literal after its `{` up to `}` (not consumed);
    /// a key without `:` is reported (E1411) unless diagnostics are held
    /// back, and ends the entries.
    fn parse_map_entries(&mut self) -> (r: Vec<(Expr, Expr)>)
        requires
            old(self).wf(),
        ensures
            final(self).wf(),
            final(self).toks() == old(self).toks(),
            final(self).pos() >= old(self).pos(),
        decreases old(self).toks().len() - old(self).pos(), 8int,
    {
        let mut entries: Vec<(Expr, Expr)> = Vec::new();
        self.consume_newlines();
        while !self.at(TokenKind::RBrace) && !self.is_eof()
            invariant
                self.wf(),
                self.toks() == old(self).toks(),
                self.pos() >= old(self).pos(),
            decreases self.toks().len() - self.pos(),
        {
            let key = self.parse_expr_until(&[StopToken::Colon, StopToken::RBrace]);
            if !self.match_kind(TokenKind::Colon) {
                if !self.expr_depth_exceeded {
                    self.error_here("E1411", "expected `:` after map key");
                }
                break;
            }
            let value = self.parse_expr_until(&[StopToken::Comma, StopToken::RBrace]);
            entries.push((key, value));
            if self.match_kind(TokenKind::Comma) {
                self.consume_newlines();
            } else {
                break;
            }
        }
        entries
    }

    /// Reads a function literal `fn(params) -> Type { body }`; `@`
    /// contracts in its body are reported (E1310) and skipped.
    fn parse_fn_literal_expression(&mut self) -> (r: Expr)
        requires
            old(self).wf(),
            old(self).cur().kind == TokenKind::Keyword(Keyword::Fn),
        ensures
            final(self).wf(),
            final(self).toks() == old(self).toks(),
            final(self).pos() >= old(self).pos(),
        decreases old(self).toks().len() - old(self).pos(), 0int,
    {
        let start = self.bump().span;
        self.expect(TokenKind::LParen, "E1110", "expected `(` after `fn` in function literal");
        let params = self.parse_params();
        self.expect(TokenKind::RParen, "E1111", "expected `)` after closure parameters");
        let return_type = if self.match_kind(TokenKind::Arrow) {
            Some(self.parse_type_ref_until(&[TokenKind::LBrace]))
        } else {
            None
        };
        self.expect(TokenKind::LBrace, "E1112", "expected `{` to start function literal body");
        let mut body: Vec<Stmt> = Vec::new();
        self.consume_newlines();
        while !self.at(TokenKind::RBrace) && !self.is_eof()
            invariant
                self.wf(),
                self.toks() == old(self).toks(),
                self.pos() > old(self).pos(),
            decreases self.toks().len() - self.pos(),
        {
            let before = self.idx;
            self.consume_newlines();
            if self.at(TokenKind::RBrace) || self.is_eof() {
                break;
            }
            if self.at(TokenKind::At) {
                self.error_here("E1310", "closures cannot carry `@` contracts");
                let _ = self.parse_contract();
                self.consume_newlines();
                continue;
            }
            match self.parse_stmt() {
                Some(stmt) => body.push(stmt),
                None => self.sync_to_stmt_boundary(),
            }
            self.consume_newlines();
            if self.idx == before && !self.at(TokenKind::RBrace) && !self.is_eof() {
                self.error_here(
                    "E1199",
                    "parser recovery made no progress inside function literal body",
                );
                self.bump();
            }
            if self.idx == before {
                break;
            }
        }
        let end = self.expect(TokenKind::RBrace, "E1113", "expected `}` to close function literal body");
        let tail_expr = match Self::split_tail(&mut body) {
            Some(e) => Some(Box::new(e)),
            None => None,
        };
        let span = Span::new(start.line_start, start.col_start, end.line_end, end.col_end);
        Expr::FnLiteral { params, return_type, body, tail_expr, span }
    }
}


} // verus!
