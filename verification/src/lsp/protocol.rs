//! The language-server protocol's decisions: which request or notification
//! a method names, how the server state moves, how spans and entries are
//! numbered for the editor, the hover text, and the framing headers.

use vstd::prelude::*;

use crate::indexer::model::{IndexSpan, IndexedSeverity};
use crate::lsp::session::{ContractMetadata, ContractMetadataView};
use crate::mir::{trim, trim_chars_pub};
use crate::text::{chars_of, push_char, push_str, str_eq};

verus! {

/// How the server is started: line-delimited JSON commands, or JSON-RPC.
#[derive(Debug, Clone, Copy, PartialEq, Eq, Structural)]
pub enum TransportMode {
    Legacy,
    JsonRpc,
}

/// Where a session stands in the protocol's lifecycle.
#[derive(Debug, Clone, Copy, PartialEq, Eq, Structural)]
pub struct ServerState {
    pub initialized: bool,
    pub shutdown_requested: bool,
    pub should_exit: bool,
}

impl Default for ServerState {
    fn default() -> (r: Self)
        ensures
            !r.initialized && !r.shutdown_requested && !r.should_exit,
    {
        ServerState { initialized: false, shutdown_requested: false, should_exit: false }
    }
}

/// The requests the server answers.
#[derive(Debug, Clone, Copy, PartialEq, Eq, Structural)]
pub enum RequestMethod {
    Initialize,
    Shutdown,
    Definition,
    References,
    Hover,
    Completion,
    DocumentSymbol,
    WorkspaceSymbol,
    Rename,
    CodeAction,
    Formatting,
    RangeFormatting,
}

/// The notifications the server acts on; any other is ignored.
#[derive(Debug, Clone, Copy, PartialEq, Eq, Structural)]
pub enum NotificationMethod {
    Initialized,
    Exit,
    DidOpen,
    DidChange,
    DidClose,
    Ignored,
}

/// Where a request names its file, for the diagnostics published after it.
#[derive(Debug, Clone, Copy, PartialEq, Eq, Structural)]
pub enum FileSource {
    /// No file: nothing is published.
    NoFile,
    /// `textDocument.uri` together with a `position`.
    WithPosition,
    /// `textDocument.uri` alone.
    TextDocument,
}

pub open spec fn request_method_spec(method: Seq<char>) -> Option<RequestMethod> {
    if method == "initialize"@ {
        Some(RequestMethod::Initialize)
    } else if method == "shutdown"@ {
        Some(RequestMethod::Shutdown)
    } else if method == "textDocument/definition"@ {
        Some(RequestMethod::Definition)
    } else if method == "textDocument/references"@ {
        Some(RequestMethod::References)
    } else if method == "textDocument/hover"@ {
        Some(RequestMethod::Hover)
    } else if method == "textDocument/completion"@ {
        Some(RequestMethod::Completion)
    } else if method == "textDocument/documentSymbol"@ {
        Some(RequestMethod::DocumentSymbol)
    } else if method == "workspace/symbol"@ {
        Some(RequestMethod::WorkspaceSymbol)
    } else if method == "textDocument/rename"@ {
        Some(RequestMethod::Rename)
    } else if method == "textDocument/codeAction"@ {
        Some(RequestMethod::CodeAction)
    } else if method == "textDocument/formatting"@ {
        Some(RequestMethod::Formatting)
    } else if method == "textDocument/rangeFormatting"@ {
        Some(RequestMethod::RangeFormatting)
    } else {
        None
    }
}

/// The request a method names; `None` for a method the server does not
/// support.
pub fn request_method(method: &str) -> (r: Option<RequestMethod>)
    ensures
        r == request_method_spec(method@),
{
    if str_eq(method, "initialize") {
        Some(RequestMethod::Initialize)
    } else if str_eq(method, "shutdown") {
        Some(RequestMethod::Shutdown)
    } else if str_eq(method, "textDocument/definition") {
        Some(RequestMethod::Definition)
    } else if str_eq(method, "textDocument/references") {
        Some(RequestMethod::References)
    } else if str_eq(method, "textDocument/hover") {
        Some(RequestMethod::Hover)
    } else if str_eq(method, "textDocument/completion") {
        Some(RequestMethod::Completion)
    } else if str_eq(method, "textDocument/documentSymbol") {
        Some(RequestMethod::DocumentSymbol)
    } else if str_eq(method, "workspace/symbol") {
        Some(RequestMethod::WorkspaceSymbol)
    } else if str_eq(method, "textDocument/rename") {
        Some(RequestMethod::Rename)
    } else if str_eq(method, "textDocument/codeAction") {
        Some(RequestMethod::CodeAction)
    } else if str_eq(method, "textDocument/formatting") {
        Some(RequestMethod::Formatting)
    } else if str_eq(method, "textDocument/rangeFormatting") {
        Some(RequestMethod::RangeFormatting)
    } else {
        None
    }
}

pub open spec fn notification_method_spec(method: Seq<char>) -> NotificationMethod {
    if method == "initialized"@ {
        NotificationMethod::Initialized
    } else if method == "exit"@ {
        NotificationMethod::Exit
    } else if method == "textDocument/didOpen"@ {
        NotificationMethod::DidOpen
    } else if method == "textDocument/didChange"@ {
        NotificationMethod::DidChange
    } else if method == "textDocument/didClose"@ {
        NotificationMethod::DidClose
    } else {
        NotificationMethod::Ignored
    }
}

/// The notification a method names.
pub fn notification_method(method: &str) -> (r: NotificationMethod)
    ensures
        r == notification_method_spec(method@),
{
    if str_eq(method, "initialized") {
        NotificationMethod::Initialized
    } else if str_eq(method, "exit") {
        NotificationMethod::Exit
    } else if str_eq(method, "textDocument/didOpen") {
        NotificationMethod::DidOpen
    } else if str_eq(method, "textDocument/didChange") {
        NotificationMethod::DidChange
    } else if str_eq(method, "textDocument/didClose") {
        NotificationMethod::DidClose
    } else {
        NotificationMethod::Ignored
    }
}

impl RequestMethod {
    /// Where the request names the file whose diagnostics are published
    /// after it is answered.
    pub fn diagnostics_file_source(self) -> (r: FileSource)
        ensures
            r == match self {
                RequestMethod::Initialize | RequestMethod::Shutdown | RequestMethod::WorkspaceSymbol => FileSource::NoFile,
                RequestMethod::Definition | RequestMethod::References | RequestMethod::Hover
                | RequestMethod::Completion | RequestMethod::Rename => FileSource::WithPosition,
                _ => FileSource::TextDocument,
            },
    {
        match self {
            RequestMethod::Initialize | RequestMethod::Shutdown | RequestMethod::WorkspaceSymbol => FileSource::NoFile,
            RequestMethod::Definition | RequestMethod::References | RequestMethod::Hover
            | RequestMethod::Completion | RequestMethod::Rename => FileSource::WithPosition,
            _ => FileSource::TextDocument,
        }
    }
}

impl ServerState {
    /// The state after a request has been answered: `initialize` marks the
    /// session initialized and `shutdown` records the request; others leave
    /// it as it was.
    pub fn after_request(&mut self, method: RequestMethod)
        ensures
            final(self).initialized == (old(self).initialized || method == RequestMethod::Initialize),
            final(self).shutdown_requested == (old(self).shutdown_requested || method
                == RequestMethod::Shutdown),
            final(self).should_exit == old(self).should_exit,
    {
        match method {
            RequestMethod::Initialize => {
                self.initialized = true;
            },
            RequestMethod::Shutdown => {
                self.shutdown_requested = true;
            },
            _ => {},
        }
    }

    /// The state after a notification: `initialized` marks the session
    /// initialized and `exit` asks the loop to stop.
    pub fn after_notification(&mut self, method: NotificationMethod)
        ensures
            final(self).initialized == (old(self).initialized || method
                == NotificationMethod::Initialized),
            final(self).shutdown_requested == old(self).shutdown_requested,
            final(self).should_exit == (old(self).should_exit || method == NotificationMethod::Exit),
    {
        match method {
            NotificationMethod::Initialized => {
                self.initialized = true;
            },
            NotificationMethod::Exit => {
                self.should_exit = true;
            },
            _ => {},
        }
    }
}

/// A range in the editor's terms: 0-based lines and characters.
#[derive(Debug, Clone, Copy, PartialEq, Eq, Structural)]
pub struct LspRange {
    pub start_line: usize,
    pub start_character: usize,
    pub end_line: usize,
    pub end_character: usize,
}

pub open spec fn minus_one(n: usize) -> usize {
    if n == 0 {
        0
    } else {
        (n - 1) as usize
    }
}

/// The editor range of an index span: start line, start column and end
/// line move to 0-based (0 stays 0); the end column, exclusive in the
/// editor's terms, stays as it is.
pub fn index_span_to_lsp_range(span: IndexSpan) -> (r: LspRange)
    ensures
        r == (LspRange {
            start_line: minus_one(span.line_start),
            start_character: minus_one(span.col_start),
            end_line: minus_one(span.line_end),
            end_character: span.col_end,
        }),
{
    LspRange {
        start_line: span.line_start.saturating_sub(1),
        start_character: span.col_start.saturating_sub(1),
        end_line: span.line_end.saturating_sub(1),
        end_character: span.col_end,
    }
}

/// The number of newlines in `s`.
pub open spec fn newline_count(s: Seq<char>) -> nat
    decreases s.len(),
{
    if s.len() == 0 {
        0
    } else {
        newline_count(s.drop_last()) + if s.last() == '\n' {
            1nat
        } else {
            0nat
        }
    }
}

/// The number of characters after the last newline of `s` (all of them
/// when there is none).
pub open spec fn last_line_len(s: Seq<char>) -> nat
    decreases s.len(),
{
    if s.len() == 0 {
        0
    } else if s.last() == '\n' {
        0
    } else {
        last_line_len(s.drop_last()) + 1
    }
}

/// The range that covers all of `text`: from the start to the end of its
/// last line (the start of the line after a final newline).
pub fn full_document_range(text: &str) -> (r: LspRange)
    ensures
        r == (LspRange {
            start_line: 0,
            start_character: 0,
            end_line: newline_count(text@) as usize,
            end_character: last_line_len(text@) as usize,
        }),
{
    let cs = chars_of(text);
    let mut lines: usize = 0;
    let mut last: usize = 0;
    let mut i: usize = 0;
    assert(cs@.take(0) =~= Seq::<char>::empty());
    while i < cs.len()
        invariant
            cs@ == text@,
            i <= cs@.len(),
            lines == newline_count(cs@.take(i as int)),
            last == last_line_len(cs@.take(i as int)),
            lines <= i,
            last <= i,
        decreases cs.len() - i,
    {
        assert(cs@.take(i + 1).drop_last() =~= cs@.take(i as int));
        assert(cs@.take(i + 1).last() == cs@[i as int]);
        if cs[i] == '\n' {
            lines = lines + 1;
            last = 0;
        } else {
            last = last + 1;
        }
        i = i + 1;
    }
    assert(cs@.take(cs@.len() as int) =~= cs@);
    LspRange { start_line: 0, start_character: 0, end_line: lines, end_character: last }
}

pub open spec fn symbol_kind_number_spec(kind: Seq<char>) -> u32 {
    if kind == "function"@ {
        12
    } else if kind == "type"@ {
        5
    } else if kind == "effect"@ || kind == "contract"@ {
        14
    } else {
        13
    }
}

/// The editor's symbol-kind number for a symbol kind's name: function 12,
/// type 5, effect and contract 14, anything else (params, locals) 13.
pub fn symbol_kind_number(kind: &str) -> (r: u32)
    ensures
        r == symbol_kind_number_spec(kind@),
{
    if str_eq(kind, "function") {
        12
    } else if str_eq(kind, "type") {
        5
    } else if str_eq(kind, "effect") || str_eq(kind, "contract") {
        14
    } else {
        13
    }
}

pub open spec fn completion_kind_number_spec(kind: Seq<char>) -> u32 {
    if kind == "function"@ {
        3
    } else if kind == "variable"@ {
        6
    } else if kind == "type"@ {
        7
    } else if kind == "keyword"@ {
        14
    } else if kind == "effect"@ {
        21
    } else {
        1
    }
}

/// The editor's completion-item kind for a completion kind's name.
pub fn completion_kind_number(kind: &str) -> (r: u32)
    ensures
        r == completion_kind_number_spec(kind@),
{
    if str_eq(kind, "function") {
        3
    } else if str_eq(kind, "variable") {
        6
    } else if str_eq(kind, "type") {
        7
    } else if str_eq(kind, "keyword") {
        14
    } else if str_eq(kind, "effect") {
        21
    } else {
        1
    }
}

/// The editor's severity number: error 1, warning 2, info 3.
pub fn diagnostic_severity_number(severity: IndexedSeverity) -> (r: u32)
    ensures
        r == match severity {
            IndexedSeverity::Error => 1u32,
            IndexedSeverity::Warning => 2u32,
            IndexedSeverity::Info => 3u32,
        },
{
    match severity {
        IndexedSeverity::Error => 1,
        IndexedSeverity::Warning => 2,
        IndexedSeverity::Info => 3,
    }
}

/// The items joined with `sep` between each two.
pub open spec fn join_with(items: Seq<Seq<char>>, sep: Seq<char>) -> Seq<char>
    decreases items.len(),
{
    if items.len() == 0 {
        Seq::empty()
    } else if items.len() == 1 {
        items[0]
    } else {
        join_with(items.drop_last(), sep) + sep + items.last()
    }
}

/// An effect list as the hover shows it: `none` when empty, else the
/// effects joined with `, `.
pub open spec fn effect_list_text(effects: Seq<Seq<char>>) -> Seq<char> {
    if effects.len() == 0 {
        "none"@
    } else {
        join_with(effects, ", "@)
    }
}

/// The hover text of a function's contract.
pub open spec fn hover_markdown_spec(meta: ContractMetadataView) -> Seq<char> {
    "### `"@ + meta.function_name + "`\n\n"@ + (match meta.intent_text {
        Some(t) => "**Intent:** "@ + t + "\n\n"@,
        None => Seq::empty(),
    }) + "**Effects declared:** "@ + effect_list_text(meta.effects_declared) + "\n\n"@
        + "**Effects observed:** "@ + effect_list_text(meta.effects_observed) + "\n\n"@
        + "**Examples:** "@ + (if meta.has_examples {
        "yes"@
    } else {
        "no"@
    }) + "\n"@
}

fn push_effect_list(out: &mut String, effects: &Vec<String>)
    ensures
        final(out)@ == old(out)@ + effect_list_text(effects@.map_values(|e: String| e@)),
{
    let ghost ev = effects@.map_values(|e: String| e@);
    if effects.len() == 0 {
        push_str(out, "none");
        return;
    }
    let ghost start = out@;
    push_str(out, effects[0].as_str());
    assert(ev.take(1) =~= seq![ev[0]]);
    let mut i: usize = 1;
    while i < effects.len()
        invariant
            ev == effects@.map_values(|e: String| e@),
            1 <= i <= ev.len(),
            out@ == start + join_with(ev.take(i as int), ", "@),
        decreases effects.len() - i,
    {
        push_str(out, ", ");
        push_str(out, effects[i].as_str());
        assert(ev.take(i + 1).drop_last() =~= ev.take(i as int));
        assert(ev.take(i + 1).last() == ev[i as int]);
        assert(out@ =~= start + join_with(ev.take(i + 1), ", "@));
        i = i + 1;
    }
    assert(ev.take(ev.len() as int) =~= ev);
}

/// The hover text of a function's contract: its name, its intent when it
/// has one, the declared and observed effects and whether it has examples.
pub fn hover_markdown(meta: &ContractMetadata) -> (r: String)
    ensures
        r@ == hover_markdown_spec(meta@),
{
    let mut out = String::new();
    push_str(&mut out, "### `");
    push_str(&mut out, meta.function_name.as_str());
    push_str(&mut out, "`\n\n");
    let ghost a = out@;
    match &meta.intent_text {
        Some(t) => {
            push_str(&mut out, "**Intent:** ");
            push_str(&mut out, t.as_str());
            push_str(&mut out, "\n\n");
        },
        None => {},
    }
    push_str(&mut out, "**Effects declared:** ");
    push_effect_list(&mut out, &meta.effects_declared);
    push_str(&mut out, "\n\n");
    push_str(&mut out, "**Effects observed:** ");
    push_effect_list(&mut out, &meta.effects_observed);
    push_str(&mut out, "\n\n");
    push_str(&mut out, "**Examples:** ");
    if meta.has_examples {
        push_str(&mut out, "yes");
    } else {
        push_str(&mut out, "no");
    }
    push_str(&mut out, "\n");
    assert(out@ =~= hover_markdown_spec(meta@));
    out
}

/// Why a `Content-Length` value is not a number, as `usize` parsing tells it.
#[derive(Debug, Clone, Copy, PartialEq, Eq, Structural)]
pub enum NumberError {
    Empty,
    InvalidDigit,
    TooLarge,
}

/// What one framing header line says.
#[derive(Debug, Clone, Copy, PartialEq, Eq, Structural)]
pub enum HeaderLine {
    /// The blank line that ends the headers.
    End,
    /// A `Content-Length` header with its value.
    ContentLength(usize),
    /// Any other header.
    Other,
}

/// A `Content-Length` header whose value is not a number: the value as
/// read (lower-cased, untrimmed) and why.
#[derive(Debug, Clone, PartialEq, Eq)]
pub struct ContentLengthError {
    pub value: String,
    pub reason: NumberError,
}

pub open spec fn digit_value(c: char) -> Option<nat> {
    if '0' <= c && c <= '9' {
        Some((c as u32 - '0' as u32) as nat)
    } else {
        None
    }
}

/// Decimal digits read left to right from `acc`, as `usize` parsing
/// does: the first character that is not a digit, or the first step past
/// `usize::MAX`, decides the error.
pub open spec fn parse_digits(acc: nat, digits: Seq<char>) -> Result<nat, NumberError>
    decreases digits.len(),
{
    if digits.len() == 0 {
        Ok(acc)
    } else {
        match digit_value(digits[0]) {
            None => Err(NumberError::InvalidDigit),
            Some(d) => if acc * 10 + d > usize::MAX {
                Err(NumberError::TooLarge)
            } else {
                parse_digits(acc * 10 + d, digits.drop_first())
            },
        }
    }
}

/// `s` read as a `usize` the way `str::parse::<usize>` reads it: not
/// empty, an optional leading `+` that is not alone, then digits.
pub open spec fn parse_usize_spec(s: Seq<char>) -> Result<nat, NumberError> {
    if s.len() == 0 {
        Err(NumberError::Empty)
    } else if s[0] == '+' {
        if s.len() == 1 {
            Err(NumberError::InvalidDigit)
        } else {
            parse_digits(0, s.drop_first())
        }
    } else {
        parse_digits(0, s)
    }
}

fn parse_usize(s: &[char]) -> (r: Result<usize, NumberError>)
    ensures
        match parse_usize_spec(s@) {
            Ok(n) => r == Ok::<usize, NumberError>(n as usize) && n <= usize::MAX,
            Err(e) => r == Err::<usize, NumberError>(e),
        },
{
    if s.len() == 0 {
        return Err(NumberError::Empty);
    }
    let mut i: usize = 0;
    if s[0] == '+' {
        if s.len() == 1 {
            return Err(NumberError::InvalidDigit);
        }
        i = 1;
    }
    let ghost digits = s@.skip(i as int);
    assert(parse_usize_spec(s@) == parse_digits(0, digits)) by {
        if s@[0] == '+' {
            assert(digits =~= s@.drop_first());
        } else {
            assert(digits =~= s@);
        }
    }
    let mut acc: usize = 0;
    let start = i;
    while i < s.len()
        invariant
            start <= i <= s@.len(),
            digits == s@.skip(start as int),
            parse_usize_spec(s@) == parse_digits(acc as nat, s@.skip(i as int)),
        decreases s.len() - i,
    {
        assert(s@.skip(i as int)[0] == s@[i as int]);
        assert(s@.skip(i as int).drop_first() =~= s@.skip(i + 1));
        let c = s[i];
        if !('0' <= c && c <= '9') {
            return Err(NumberError::InvalidDigit);
        }
        let d = (c as u32 - '0' as u32) as usize;
        if acc > (usize::MAX - d) / 10 {
            assert(acc * 10 + d > usize::MAX) by (nonlinear_arith)
                requires
                    acc > (usize::MAX - d) / 10,
                    d <= 9,
            ;
            return Err(NumberError::TooLarge);
        }
        assert(acc * 10 + d <= usize::MAX) by (nonlinear_arith)
            requires
                acc <= (usize::MAX - d) / 10,
                d <= 9,
        ;
        acc = acc * 10 + d;
        i = i + 1;
    }
    assert(s@.skip(i as int) =~= Seq::<char>::empty());
    Ok(acc)
}

/// `s` with ASCII upper-case letters made lower-case.
pub open spec fn ascii_lowercase(s: Seq<char>) -> Seq<char> {
    s.map_values(
        |c: char|
            if 'A' <= c && c <= 'Z' {
                ((c as u32) + 32) as char
            } else {
                c
            },
    )
}

pub open spec fn header_line_spec(line: Seq<char>) -> Result<HeaderLine, (Seq<char>, NumberError)> {
    if line == "\r\n"@ || line == "\n"@ {
        Ok(HeaderLine::End)
    } else {
        let lower = ascii_lowercase(line);
        let key = "content-length:"@;
        if crate::mir::starts_with(lower, key) {
            let value = lower.skip(key.len() as int);
            match parse_usize_spec(trim(value)) {
                Ok(n) => Ok(HeaderLine::ContentLength(n as usize)),
                Err(e) => Err((value, e)),
            }
        } else {
            Ok(HeaderLine::Other)
        }
    }
}

/// What a header line read from the client says: the blank line that ends
/// the headers, a `Content-Length` (case-insensitive) with its trimmed
/// value read as a number, or another header. A `Content-Length` whose
/// value is not a number is an error that carries the value.
pub fn header_line(line: &str) -> (r: Result<HeaderLine, ContentLengthError>)
    ensures
        match header_line_spec(line@) {
            Ok(h) => r == Ok::<HeaderLine, ContentLengthError>(h),
            Err((v, e)) => r.is_err() && r->Err_0.value@ == v && r->Err_0.reason == e,
        },
{
    if str_eq(line, "\r\n") || str_eq(line, "\n") {
        return Ok(HeaderLine::End);
    }
    let cs = chars_of(line);
    let ghost lower_spec = ascii_lowercase(line@);
    let mut lower: Vec<char> = Vec::new();
    let mut i: usize = 0;
    while i < cs.len()
        invariant
            cs@ == line@,
            lower_spec == ascii_lowercase(line@),
            i <= cs@.len(),
            lower@ == lower_spec.take(i as int),
        decreases cs.len() - i,
    {
        let c = cs[i];
        let l = if 'A' <= c && c <= 'Z' {
            (((c as u32) + 32) as u8) as char
        } else {
            c
        };
        lower.push(l);
        assert(lower@ =~= lower_spec.take(i + 1));
        i = i + 1;
    }
    assert(lower@ =~= lower_spec);
    let key = chars_of("content-length:");
    if !crate::mir::starts_with_str(lower.as_slice(), "content-length:") {
        return Ok(HeaderLine::Other);
    }
    let value = crate::text::slice_range(lower.as_slice(), key.len(), lower.len());
    let trimmed = trim_chars_pub(value.as_slice());
    match parse_usize(trimmed.as_slice()) {
        Ok(n) => Ok(HeaderLine::ContentLength(n)),
        Err(e) => Err(ContentLengthError { value: crate::text::string_of(value.as_slice()), reason: e }),
    }
}

} // verus!
