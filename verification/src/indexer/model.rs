use vstd::prelude::*;

use crate::diagnostics::{Severity, Span};
use crate::order::{
    is_stable_sort_of, key_le, key_less, lemma_key_le_total, lemma_key_le_transitive, stable_sort,
    str_less, str_lt, views, KeyAtom, KeyPart, TotalPreorder,
};
use vstd::std_specs::convert::FromSpecImpl;

verus! {

pub const INDEX_SCHEMA_VERSION: u32 = 1;

pub const INDEX_FILENAME: &'static str = "index_v1.json";

#[derive(Debug, Clone, Copy, PartialEq, Eq, Structural, PartialOrd, Ord, Hash)]
pub struct SymbolId(pub u64);

#[derive(Debug, Clone, Copy, PartialEq, Eq, Structural, PartialOrd, Ord)]
pub enum SymbolKind {
    Function,
    Param,
    Local,
    Contract,
    Effect,
}

/// The position of a kind in the declaration order of `SymbolKind`.
pub open spec fn symbol_kind_rank(k: SymbolKind) -> int {
    match k {
        SymbolKind::Function => 0,
        SymbolKind::Param => 1,
        SymbolKind::Local => 2,
        SymbolKind::Contract => 3,
        SymbolKind::Effect => 4,
    }
}

fn symbol_kind_rank_exec(k: SymbolKind) -> (r: u64)
    ensures
        r == symbol_kind_rank(k),
{
    match k {
        SymbolKind::Function => 0,
        SymbolKind::Param => 1,
        SymbolKind::Local => 2,
        SymbolKind::Contract => 3,
        SymbolKind::Effect => 4,
    }
}

#[derive(Debug, Clone, Copy, PartialEq, Eq, Structural, PartialOrd, Ord)]
pub struct IndexSpan {
    pub line_start: usize,
    pub col_start: usize,
    pub line_end: usize,
    pub col_end: usize,
}

/// `(line, col)` lies between the span's start and end, both included.
pub open spec fn span_contains(s: IndexSpan, line: int, col: int) -> bool {
    &&& (line > s.line_start || (line == s.line_start && col >= s.col_start))
    &&& (line < s.line_end || (line == s.line_end && col <= s.col_end))
}

/// Lines times columns covered, each at least one; capped at `usize::MAX`.
pub open spec fn span_area(s: IndexSpan) -> int {
    let lines = (if s.line_end >= s.line_start {
        s.line_end - s.line_start
    } else {
        0
    }) + 1;
    let cols = (if s.col_end >= s.col_start {
        s.col_end - s.col_start
    } else {
        0
    }) + 1;
    if lines * cols > usize::MAX {
        usize::MAX as int
    } else {
        lines * cols
    }
}

/// The spans whose area is computed without overflow: the line and column
/// differences, plus one, fit in a `usize`.
pub open spec fn span_area_defined(s: IndexSpan) -> bool {
    &&& s.line_end - s.line_start < usize::MAX
    &&& s.col_end - s.col_start < usize::MAX
}

impl IndexSpan {
    pub fn contains(&self, line: usize, col: usize) -> (r: bool)
        ensures
            r == span_contains(*self, line as int, col as int),
    {
        let start_ok = (line > self.line_start) || (line == self.line_start && col
            >= self.col_start);
        let end_ok = (line < self.line_end) || (line == self.line_end && col <= self.col_end);
        start_ok && end_ok
    }

    pub fn area(&self) -> (r: usize)
        requires
            span_area_defined(*self),
        ensures
            r == span_area(*self),
    {
        let lines = self.line_end.saturating_sub(self.line_start) + 1;
        let cols = self.col_end.saturating_sub(self.col_start) + 1;
        match lines.checked_mul(cols) {
            Some(a) => a,
            None => usize::MAX,
        }
    }
}

impl From<Span> for IndexSpan {
    fn from(value: Span) -> (r: Self) {
        IndexSpan {
            line_start: value.line_start,
            col_start: value.col_start,
            line_end: value.line_end,
            col_end: value.col_end,
        }
    }
}

impl FromSpecImpl<Span> for IndexSpan {
    open spec fn obeys_from_spec() -> bool {
        true
    }

    open spec fn from_spec(value: Span) -> IndexSpan {
        IndexSpan {
            line_start: value.line_start,
            col_start: value.col_start,
            line_end: value.line_end,
            col_end: value.col_end,
        }
    }
}

impl From<IndexSpan> for Span {
    fn from(value: IndexSpan) -> (r: Self) {
        Span {
            line_start: value.line_start,
            col_start: value.col_start,
            line_end: value.line_end,
            col_end: value.col_end,
        }
    }
}

impl FromSpecImpl<IndexSpan> for Span {
    open spec fn obeys_from_spec() -> bool {
        true
    }

    open spec fn from_spec(value: IndexSpan) -> Span {
        Span {
            line_start: value.line_start,
            col_start: value.col_start,
            line_end: value.line_end,
            col_end: value.col_end,
        }
    }
}

/// The text of an optional string.
pub open spec fn opt_text(o: Option<String>) -> Option<Seq<char>> {
    match o {
        Some(s) => Some(s@),
        None => None,
    }
}

#[derive(Debug, Clone, PartialEq, Eq)]
pub struct Symbol {
    pub id: SymbolId,
    pub name: String,
    pub kind: SymbolKind,
    pub module: Option<String>,
    pub file: String,
    pub span: IndexSpan,
}

pub struct SymbolView {
    pub id: SymbolId,
    pub name: Seq<char>,
    pub kind: SymbolKind,
    pub module: Option<Seq<char>>,
    pub file: Seq<char>,
    pub span: IndexSpan,
}

impl View for Symbol {
    type V = SymbolView;

    open spec fn view(&self) -> SymbolView {
        SymbolView {
            id: self.id,
            name: self.name@,
            kind: self.kind,
            module: opt_text(self.module),
            file: self.file@,
            span: self.span,
        }
    }
}

#[derive(Debug, Clone, PartialEq, Eq)]
pub struct Reference {
    pub symbol_id: SymbolId,
    pub file: String,
    pub span: IndexSpan,
}

pub struct ReferenceView {
    pub symbol_id: SymbolId,
    pub file: Seq<char>,
    pub span: IndexSpan,
}

impl View for Reference {
    type V = ReferenceView;

    open spec fn view(&self) -> ReferenceView {
        ReferenceView { symbol_id: self.symbol_id, file: self.file@, span: self.span }
    }
}

#[derive(Debug, Clone, PartialEq, Eq)]
pub struct FunctionMeta {
    pub symbol_id: SymbolId,
    pub function_name: String,
    pub file: String,
    pub signature_hash: String,
    pub effects_declared: Vec<String>,
    pub effects_observed: Vec<String>,
    pub intent_text: Option<String>,
    pub has_examples: bool,
    pub is_public: bool,
}

pub struct FunctionMetaView {
    pub symbol_id: SymbolId,
    pub function_name: Seq<char>,
    pub file: Seq<char>,
    pub signature_hash: Seq<char>,
    pub effects_declared: Seq<Seq<char>>,
    pub effects_observed: Seq<Seq<char>>,
    pub intent_text: Option<Seq<char>>,
    pub has_examples: bool,
    pub is_public: bool,
}

impl View for FunctionMeta {
    type V = FunctionMetaView;

    open spec fn view(&self) -> FunctionMetaView {
        FunctionMetaView {
            symbol_id: self.symbol_id,
            function_name: self.function_name@,
            file: self.file@,
            signature_hash: self.signature_hash@,
            effects_declared: views(self.effects_declared@),
            effects_observed: views(self.effects_observed@),
            intent_text: opt_text(self.intent_text),
            has_examples: self.has_examples,
            is_public: self.is_public,
        }
    }
}

#[derive(Debug, Clone, PartialEq, Eq)]
pub struct EffectMismatch {
    pub function_name: String,
    pub file: String,
    pub declared_only: Vec<String>,
    pub observed_only: Vec<String>,
}

pub struct EffectMismatchView {
    pub function_name: Seq<char>,
    pub file: Seq<char>,
    pub declared_only: Seq<Seq<char>>,
    pub observed_only: Seq<Seq<char>>,
}

impl View for EffectMismatch {
    type V = EffectMismatchView;

    open spec fn view(&self) -> EffectMismatchView {
        EffectMismatchView {
            function_name: self.function_name@,
            file: self.file@,
            declared_only: views(self.declared_only@),
            observed_only: views(self.observed_only@),
        }
    }
}

#[derive(Debug, Clone, Copy, PartialEq, Eq, Structural, PartialOrd, Ord)]
pub enum IndexedSeverity {
    Error,
    Warning,
    Info,
}

pub open spec fn indexed_severity_of(value: Severity) -> IndexedSeverity {
    match value {
        Severity::Error => IndexedSeverity::Error,
        Severity::Warning => IndexedSeverity::Warning,
        Severity::Info => IndexedSeverity::Info,
    }
}

pub open spec fn indexed_severity_rank(s: IndexedSeverity) -> int {
    match s {
        IndexedSeverity::Error => 0,
        IndexedSeverity::Warning => 1,
        IndexedSeverity::Info => 2,
    }
}

fn indexed_severity_rank_exec(s: IndexedSeverity) -> (r: u64)
    ensures
        r == indexed_severity_rank(s),
{
    match s {
        IndexedSeverity::Error => 0,
        IndexedSeverity::Warning => 1,
        IndexedSeverity::Info => 2,
    }
}

impl From<Severity> for IndexedSeverity {
    fn from(value: Severity) -> (r: Self) {
        match value {
            Severity::Error => IndexedSeverity::Error,
            Severity::Warning => IndexedSeverity::Warning,
            Severity::Info => IndexedSeverity::Info,
        }
    }
}

impl FromSpecImpl<Severity> for IndexedSeverity {
    open spec fn obeys_from_spec() -> bool {
        true
    }

    open spec fn from_spec(value: Severity) -> IndexedSeverity {
        indexed_severity_of(value)
    }
}

#[derive(Debug, Clone, PartialEq, Eq)]
pub struct IndexedDiagnostic {
    pub code: String,
    pub severity: IndexedSeverity,
    pub message: String,
    pub span: IndexSpan,
}

pub struct IndexedDiagnosticView {
    pub code: Seq<char>,
    pub severity: IndexedSeverity,
    pub message: Seq<char>,
    pub span: IndexSpan,
}

impl View for IndexedDiagnostic {
    type V = IndexedDiagnosticView;

    open spec fn view(&self) -> IndexedDiagnosticView {
        IndexedDiagnosticView {
            code: self.code@,
            severity: self.severity,
            message: self.message@,
            span: self.span,
        }
    }
}

/// Everything the index knows about one source file.
#[derive(Debug, Clone, PartialEq, Eq)]
pub struct FileIndex {
    pub file: String,
    pub file_hash: String,
    pub symbols: Vec<Symbol>,
    pub references: Vec<Reference>,
    pub function_meta: Vec<FunctionMeta>,
    pub effect_mismatches: Vec<EffectMismatch>,
    pub diagnostics: Vec<IndexedDiagnostic>,
    pub dependencies: Vec<String>,
}

pub struct FileIndexView {
    pub file: Seq<char>,
    pub file_hash: Seq<char>,
    pub symbols: Seq<SymbolView>,
    pub references: Seq<ReferenceView>,
    pub function_meta: Seq<FunctionMetaView>,
    pub effect_mismatches: Seq<EffectMismatchView>,
    pub diagnostics: Seq<IndexedDiagnosticView>,
    pub dependencies: Seq<Seq<char>>,
}

impl View for FileIndex {
    type V = FileIndexView;

    open spec fn view(&self) -> FileIndexView {
        FileIndexView {
            file: self.file@,
            file_hash: self.file_hash@,
            symbols: views(self.symbols@),
            references: views(self.references@),
            function_meta: views(self.function_meta@),
            effect_mismatches: views(self.effect_mismatches@),
            diagnostics: views(self.diagnostics@),
            dependencies: views(self.dependencies@),
        }
    }
}

pub open spec fn span_atoms(s: IndexSpan) -> Seq<KeyAtom> {
    seq![
        KeyAtom::Num(s.line_start as int),
        KeyAtom::Num(s.col_start as int),
        KeyAtom::Num(s.line_end as int),
        KeyAtom::Num(s.col_end as int),
    ]
}

/// Symbols in a file index: by file, span, kind, name, id.
pub open spec fn symbol_index_key(s: SymbolView) -> Seq<KeyAtom> {
    seq![KeyAtom::Text(s.file)] + span_atoms(s.span) + seq![
        KeyAtom::Num(symbol_kind_rank(s.kind)),
        KeyAtom::Text(s.name),
        KeyAtom::Num(s.id.0 as int),
    ]
}

/// Symbols in query results: by file, span, name, id.
pub open spec fn symbol_query_key(s: SymbolView) -> Seq<KeyAtom> {
    seq![KeyAtom::Text(s.file)] + span_atoms(s.span) + seq![
        KeyAtom::Text(s.name),
        KeyAtom::Num(s.id.0 as int),
    ]
}

pub open spec fn reference_key(r: ReferenceView) -> Seq<KeyAtom> {
    seq![KeyAtom::Text(r.file)] + span_atoms(r.span) + seq![KeyAtom::Num(r.symbol_id.0 as int)]
}

pub open spec fn function_meta_key(m: FunctionMetaView) -> Seq<KeyAtom> {
    seq![
        KeyAtom::Text(m.file),
        KeyAtom::Text(m.function_name),
        KeyAtom::Num(m.symbol_id.0 as int),
        KeyAtom::Text(m.signature_hash),
    ]
}

pub open spec fn effect_mismatch_key(m: EffectMismatchView) -> Seq<KeyAtom> {
    seq![KeyAtom::Text(m.file), KeyAtom::Text(m.function_name)]
}

pub open spec fn indexed_diagnostic_key(d: IndexedDiagnosticView) -> Seq<KeyAtom> {
    span_atoms(d.span) + seq![
        KeyAtom::Text(d.code),
        KeyAtom::Num(indexed_severity_rank(d.severity)),
    ]
}

fn push_span_parts<'a>(out: &mut Vec<KeyPart<'a>>, s: IndexSpan)
    ensures
        views(final(out)@) == views(old(out)@) + span_atoms(s),
{
    let ghost before = views(out@);
    out.push(KeyPart::Num(s.line_start as u64));
    out.push(KeyPart::Num(s.col_start as u64));
    out.push(KeyPart::Num(s.line_end as u64));
    out.push(KeyPart::Num(s.col_end as u64));
    assert(views(out@) =~= before + span_atoms(s));
}

fn symbol_index_parts(s: &Symbol) -> (r: Vec<KeyPart<'_>>)
    ensures
        views(r@) == symbol_index_key(s@),
{
    let mut out: Vec<KeyPart> = Vec::new();
    out.push(KeyPart::Text(s.file.as_str()));
    assert(views(out@) =~= seq![KeyAtom::Text(s.file@)]);
    push_span_parts(&mut out, s.span);
    let ghost before = views(out@);
    out.push(KeyPart::Num(symbol_kind_rank_exec(s.kind)));
    out.push(KeyPart::Text(s.name.as_str()));
    out.push(KeyPart::Num(s.id.0));
    assert(views(out@) =~= before + seq![
        KeyAtom::Num(symbol_kind_rank(s.kind)),
        KeyAtom::Text(s.name@),
        KeyAtom::Num(s.id.0 as int),
    ]);
    assert(views(out@) =~= symbol_index_key(s@));
    out
}

fn symbol_query_parts(s: &Symbol) -> (r: Vec<KeyPart<'_>>)
    ensures
        views(r@) == symbol_query_key(s@),
{
    let mut out: Vec<KeyPart> = Vec::new();
    out.push(KeyPart::Text(s.file.as_str()));
    assert(views(out@) =~= seq![KeyAtom::Text(s.file@)]);
    push_span_parts(&mut out, s.span);
    let ghost before = views(out@);
    out.push(KeyPart::Text(s.name.as_str()));
    out.push(KeyPart::Num(s.id.0));
    assert(views(out@) =~= before + seq![KeyAtom::Text(s.name@), KeyAtom::Num(s.id.0 as int)]);
    assert(views(out@) =~= symbol_query_key(s@));
    out
}

fn reference_parts(r: &Reference) -> (k: Vec<KeyPart<'_>>)
    ensures
        views(k@) == reference_key(r@),
{
    let mut out: Vec<KeyPart> = Vec::new();
    out.push(KeyPart::Text(r.file.as_str()));
    assert(views(out@) =~= seq![KeyAtom::Text(r.file@)]);
    push_span_parts(&mut out, r.span);
    let ghost before = views(out@);
    out.push(KeyPart::Num(r.symbol_id.0));
    assert(views(out@) =~= before + seq![KeyAtom::Num(r.symbol_id.0 as int)]);
    assert(views(out@) =~= reference_key(r@));
    out
}

fn function_meta_parts(m: &FunctionMeta) -> (k: Vec<KeyPart<'_>>)
    ensures
        views(k@) == function_meta_key(m@),
{
    let mut out: Vec<KeyPart> = Vec::new();
    out.push(KeyPart::Text(m.file.as_str()));
    out.push(KeyPart::Text(m.function_name.as_str()));
    out.push(KeyPart::Num(m.symbol_id.0));
    out.push(KeyPart::Text(m.signature_hash.as_str()));
    assert(views(out@) =~= function_meta_key(m@));
    out
}

fn effect_mismatch_parts(m: &EffectMismatch) -> (k: Vec<KeyPart<'_>>)
    ensures
        views(k@) == effect_mismatch_key(m@),
{
    let mut out: Vec<KeyPart> = Vec::new();
    out.push(KeyPart::Text(m.file.as_str()));
    out.push(KeyPart::Text(m.function_name.as_str()));
    assert(views(out@) =~= effect_mismatch_key(m@));
    out
}

fn indexed_diagnostic_parts(d: &IndexedDiagnostic) -> (k: Vec<KeyPart<'_>>)
    ensures
        views(k@) == indexed_diagnostic_key(d@),
{
    let mut out: Vec<KeyPart> = Vec::new();
    push_span_parts(&mut out, d.span);
    out.push(KeyPart::Text(d.code.as_str()));
    out.push(KeyPart::Num(indexed_severity_rank_exec(d.severity)));
    assert(views(out@) =~= indexed_diagnostic_key(d@));
    out
}

pub struct SymbolIndexOrder;

impl TotalPreorder<Symbol> for SymbolIndexOrder {
    open spec fn le(a: SymbolView, b: SymbolView) -> bool {
        key_le(symbol_index_key(a), symbol_index_key(b))
    }

    proof fn lemma_total(a: SymbolView, b: SymbolView) {
        lemma_key_le_total(symbol_index_key(a), symbol_index_key(b));
    }

    proof fn lemma_transitive(a: SymbolView, b: SymbolView, c: SymbolView) {
        lemma_key_le_transitive(symbol_index_key(a), symbol_index_key(b), symbol_index_key(c));
    }

    fn le_exec(a: &Symbol, b: &Symbol) -> (r: bool) {
        !key_less(symbol_index_parts(b).as_slice(), symbol_index_parts(a).as_slice())
    }
}

pub struct SymbolQueryOrder;

impl TotalPreorder<Symbol> for SymbolQueryOrder {
    open spec fn le(a: SymbolView, b: SymbolView) -> bool {
        key_le(symbol_query_key(a), symbol_query_key(b))
    }

    proof fn lemma_total(a: SymbolView, b: SymbolView) {
        lemma_key_le_total(symbol_query_key(a), symbol_query_key(b));
    }

    proof fn lemma_transitive(a: SymbolView, b: SymbolView, c: SymbolView) {
        lemma_key_le_transitive(symbol_query_key(a), symbol_query_key(b), symbol_query_key(c));
    }

    fn le_exec(a: &Symbol, b: &Symbol) -> (r: bool) {
        !key_less(symbol_query_parts(b).as_slice(), symbol_query_parts(a).as_slice())
    }
}

pub struct ReferenceOrder;

impl TotalPreorder<Reference> for ReferenceOrder {
    open spec fn le(a: ReferenceView, b: ReferenceView) -> bool {
        key_le(reference_key(a), reference_key(b))
    }

    proof fn lemma_total(a: ReferenceView, b: ReferenceView) {
        lemma_key_le_total(reference_key(a), reference_key(b));
    }

    proof fn lemma_transitive(a: ReferenceView, b: ReferenceView, c: ReferenceView) {
        lemma_key_le_transitive(reference_key(a), reference_key(b), reference_key(c));
    }

    fn le_exec(a: &Reference, b: &Reference) -> (r: bool) {
        !key_less(reference_parts(b).as_slice(), reference_parts(a).as_slice())
    }
}

pub struct FunctionMetaOrder;

impl TotalPreorder<FunctionMeta> for FunctionMetaOrder {
    open spec fn le(a: FunctionMetaView, b: FunctionMetaView) -> bool {
        key_le(function_meta_key(a), function_meta_key(b))
    }

    proof fn lemma_total(a: FunctionMetaView, b: FunctionMetaView) {
        lemma_key_le_total(function_meta_key(a), function_meta_key(b));
    }

    proof fn lemma_transitive(a: FunctionMetaView, b: FunctionMetaView, c: FunctionMetaView) {
        lemma_key_le_transitive(function_meta_key(a), function_meta_key(b), function_meta_key(c));
    }

    fn le_exec(a: &FunctionMeta, b: &FunctionMeta) -> (r: bool) {
        !key_less(function_meta_parts(b).as_slice(), function_meta_parts(a).as_slice())
    }
}

pub struct EffectMismatchOrder;

impl TotalPreorder<EffectMismatch> for EffectMismatchOrder {
    open spec fn le(a: EffectMismatchView, b: EffectMismatchView) -> bool {
        key_le(effect_mismatch_key(a), effect_mismatch_key(b))
    }

    proof fn lemma_total(a: EffectMismatchView, b: EffectMismatchView) {
        lemma_key_le_total(effect_mismatch_key(a), effect_mismatch_key(b));
    }

    proof fn lemma_transitive(
        a: EffectMismatchView,
        b: EffectMismatchView,
        c: EffectMismatchView,
    ) {
        lemma_key_le_transitive(
            effect_mismatch_key(a),
            effect_mismatch_key(b),
            effect_mismatch_key(c),
        );
    }

    fn le_exec(a: &EffectMismatch, b: &EffectMismatch) -> (r: bool) {
        !key_less(effect_mismatch_parts(b).as_slice(), effect_mismatch_parts(a).as_slice())
    }
}

pub struct IndexedDiagnosticOrder;

impl TotalPreorder<IndexedDiagnostic> for IndexedDiagnosticOrder {
    open spec fn le(a: IndexedDiagnosticView, b: IndexedDiagnosticView) -> bool {
        key_le(indexed_diagnostic_key(a), indexed_diagnostic_key(b))
    }

    proof fn lemma_total(a: IndexedDiagnosticView, b: IndexedDiagnosticView) {
        lemma_key_le_total(indexed_diagnostic_key(a), indexed_diagnostic_key(b));
    }

    proof fn lemma_transitive(
        a: IndexedDiagnosticView,
        b: IndexedDiagnosticView,
        c: IndexedDiagnosticView,
    ) {
        lemma_key_le_transitive(
            indexed_diagnostic_key(a),
            indexed_diagnostic_key(b),
            indexed_diagnostic_key(c),
        );
    }

    fn le_exec(a: &IndexedDiagnostic, b: &IndexedDiagnostic) -> (r: bool) {
        !key_less(indexed_diagnostic_parts(b).as_slice(), indexed_diagnostic_parts(a).as_slice())
    }
}

/// Strictly increasing in `str` order: sorted, with no repeats.
pub open spec fn strictly_sorted(s: Seq<Seq<char>>) -> bool {
    forall|i: int, j: int| 0 <= i < j < s.len() ==> str_lt(#[trigger] s[i], #[trigger] s[j])
}

/// Inserts `x` into a strictly sorted list of strings unless it is there.
pub fn insert_sorted_unique(v: &mut Vec<String>, x: String)
    requires
        strictly_sorted(views(old(v)@)),
    ensures
        strictly_sorted(views(final(v)@)),
        views(final(v)@).to_set() == views(old(v)@).to_set().insert(x@),
        !views(old(v)@).contains(x@) ==> final(v)@.len() == old(v)@.len() + 1,
{
    let ghost old_v = views(v@);
    let mut pos: usize = 0;
    while pos < v.len() && str_less(v[pos].as_str(), x.as_str())
        invariant
            old_v == views(v@),
            pos <= v@.len(),
            forall|k: int| 0 <= k < pos ==> str_lt(#[trigger] old_v[k], x@),
        decreases v.len() - pos,
    {
        assert(old_v[pos as int] == v@[pos as int]@);
        pos = pos + 1;
    }
    if pos < v.len() && !str_less(x.as_str(), v[pos].as_str()) {
        // neither is below the other: the same string
        assert(old_v[pos as int] == v@[pos as int]@);
        proof {
            crate::order::lemma_str_lt_eq(old_v[pos as int], x@);
        }
        assert(old_v.to_set().insert(x@) =~= old_v.to_set());
        assert(old_v.contains(x@));
        return ;
    }
    proof {
        if pos < old_v.len() {
            assert(old_v[pos as int] == v@[pos as int]@);
        }
    }
    let ghost xv = x@;
    v.insert(pos, x);
    let ghost nv = views(v@);
    assert(nv =~= old_v.insert(pos as int, xv));
    assert forall|i: int, j: int| 0 <= i < j < nv.len() implies str_lt(
        #[trigger] nv[i],
        #[trigger] nv[j],
    ) by {
        if j < pos {
        } else if j == pos {
        } else if i < pos {
            assert(nv[j] == old_v[j - 1]);
            if j - 1 > pos {
                assert(str_lt(old_v[pos as int], old_v[j - 1]));
                crate::order::lemma_str_lt_transitive(xv, old_v[pos as int], old_v[j - 1]);
            }
            crate::order::lemma_str_lt_transitive(old_v[i], xv, old_v[j - 1]);
        } else if i == pos {
            assert(nv[j] == old_v[j - 1]);
            if j - 1 > pos {
                assert(str_lt(old_v[pos as int], old_v[j - 1]));
                crate::order::lemma_str_lt_transitive(xv, old_v[pos as int], old_v[j - 1]);
            }
        } else {
            assert(nv[i] == old_v[i - 1] && nv[j] == old_v[j - 1]);
        }
    }
    assert forall|y: Seq<char>| nv.to_set().contains(y) <==> old_v.to_set().insert(xv).contains(y) by {
        if nv.to_set().contains(y) {
            let k = choose|k: int| 0 <= k < nv.len() && nv[k] == y;
            if k < pos {
                assert(old_v[k] == y);
            } else if k > pos {
                assert(old_v[k - 1] == y);
            }
        }
        if old_v.to_set().contains(y) {
            let k = choose|k: int| 0 <= k < old_v.len() && old_v[k] == y;
            if k < pos {
                assert(nv[k] == y);
            } else {
                assert(nv[k + 1] == y);
            }
        }
        if y == xv {
            assert(nv[pos as int] == y);
        }
    }
    assert(nv.to_set() =~= old_v.to_set().insert(xv));
}

/// The strings of `deps`, sorted and without repeats.
fn sorted_unique(deps: Vec<String>) -> (r: Vec<String>)
    ensures
        strictly_sorted(views(r@)),
        views(r@).to_set() == views(deps@).to_set(),
{
    let ghost input = views(deps@);
    let mut out: Vec<String> = Vec::new();
    let mut rest = deps;
    let mut i: usize = 0;
    let n = rest.len();
    assert(views(out@).to_set() =~= input.take(0).to_set());
    while rest.len() > 0
        invariant
            input.len() == n,
            i + rest@.len() == n,
            views(rest@) == input.skip(i as int),
            strictly_sorted(views(out@)),
            views(out@).to_set() == input.take(i as int).to_set(),
        decreases rest.len(),
    {
        let ghost before = rest@;
        let x = rest.remove(0);
        assert(views(before)[0] == x@);
        assert(x@ == input[i as int]);
        assert forall|k: int| 0 <= k < views(rest@).len() implies #[trigger] views(rest@)[k]
            == input.skip(i + 1)[k] by {
            assert(views(rest@)[k] == rest@[k]@);
            assert(rest@[k] == before[k + 1]);
            assert(views(before)[k + 1] == before[k + 1]@);
        }
        assert(views(rest@) =~= input.skip(i + 1));
        insert_sorted_unique(&mut out, x);
        assert(input.take(i + 1) =~= input.take(i as int).push(input[i as int]));
        proof {
            input.take(i as int).lemma_push_to_set_commute(input[i as int]);
        }
        i = i + 1;
    }
    assert(input.take(n as int) =~= input);
    out
}

/// `new` is `old` with every list in its canonical order: symbols,
/// references, function metadata, effect mismatches and diagnostics by
/// their keys (stable), dependencies sorted without repeats.
pub open spec fn file_index_normalized(old: FileIndexView, new: FileIndexView) -> bool {
    &&& new.file == old.file
    &&& new.file_hash == old.file_hash
    &&& is_stable_sort_of::<Symbol, SymbolIndexOrder>(old.symbols, new.symbols)
    &&& is_stable_sort_of::<Reference, ReferenceOrder>(old.references, new.references)
    &&& is_stable_sort_of::<FunctionMeta, FunctionMetaOrder>(old.function_meta, new.function_meta)
    &&& is_stable_sort_of::<EffectMismatch, EffectMismatchOrder>(
        old.effect_mismatches,
        new.effect_mismatches,
    )
    &&& is_stable_sort_of::<IndexedDiagnostic, IndexedDiagnosticOrder>(
        old.diagnostics,
        new.diagnostics,
    )
    &&& strictly_sorted(new.dependencies)
    &&& new.dependencies.to_set() == old.dependencies.to_set()
}

impl FileIndex {
    /// Puts every list of the file index in its canonical order.
    pub fn normalize(&mut self)
        ensures
            file_index_normalized(old(self)@, final(self)@),
    {
        let mut symbols = Vec::new();
        std::mem::swap(&mut symbols, &mut self.symbols);
        self.symbols = stable_sort::<Symbol, SymbolIndexOrder>(symbols);
        let mut references = Vec::new();
        std::mem::swap(&mut references, &mut self.references);
        self.references = stable_sort::<Reference, ReferenceOrder>(references);
        let mut metas = Vec::new();
        std::mem::swap(&mut metas, &mut self.function_meta);
        self.function_meta = stable_sort::<FunctionMeta, FunctionMetaOrder>(metas);
        let mut mismatches = Vec::new();
        std::mem::swap(&mut mismatches, &mut self.effect_mismatches);
        self.effect_mismatches = stable_sort::<EffectMismatch, EffectMismatchOrder>(mismatches);
        let mut diags = Vec::new();
        std::mem::swap(&mut diags, &mut self.diagnostics);
        self.diagnostics = stable_sort::<IndexedDiagnostic, IndexedDiagnosticOrder>(diags);
        let mut deps = Vec::new();
        std::mem::swap(&mut deps, &mut self.dependencies);
        self.dependencies = sorted_unique(deps);
    }
}

/// A copy of an optional string.
pub fn copy_opt_string(o: &Option<String>) -> (r: Option<String>)
    ensures
        opt_text(r) == opt_text(*o),
{
    match o {
        Some(s) => Some(s.clone()),
        None => None,
    }
}

/// A copy of a list of strings.
pub fn copy_strings(v: &Vec<String>) -> (r: Vec<String>)
    ensures
        views(r@) == views(v@),
{
    let mut out: Vec<String> = Vec::new();
    let mut i: usize = 0;
    while i < v.len()
        invariant
            i <= v@.len(),
            views(out@) == views(v@).take(i as int),
        decreases v.len() - i,
    {
        let ghost before = views(out@);
        out.push(v[i].clone());
        assert(views(out@) =~= before.push(v@[i as int]@));
        assert(views(v@).take(i + 1) =~= views(v@).take(i as int).push(v@[i as int]@));
        i = i + 1;
    }
    assert(views(v@).take(v@.len() as int) =~= views(v@));
    out
}

impl Symbol {
    /// A copy of the symbol.
    pub fn copy(&self) -> (r: Symbol)
        ensures
            r@ == self@,
    {
        Symbol {
            id: self.id,
            name: self.name.clone(),
            kind: self.kind,
            module: copy_opt_string(&self.module),
            file: self.file.clone(),
            span: self.span,
        }
    }
}

impl Reference {
    /// A copy of the reference.
    pub fn copy(&self) -> (r: Reference)
        ensures
            r@ == self@,
    {
        Reference { symbol_id: self.symbol_id, file: self.file.clone(), span: self.span }
    }
}

impl FunctionMeta {
    /// A copy of the metadata.
    pub fn copy(&self) -> (r: FunctionMeta)
        ensures
            r@ == self@,
    {
        FunctionMeta {
            symbol_id: self.symbol_id,
            function_name: self.function_name.clone(),
            file: self.file.clone(),
            signature_hash: self.signature_hash.clone(),
            effects_declared: copy_strings(&self.effects_declared),
            effects_observed: copy_strings(&self.effects_observed),
            intent_text: copy_opt_string(&self.intent_text),
            has_examples: self.has_examples,
            is_public: self.is_public,
        }
    }
}

impl EffectMismatch {
    /// A copy of the mismatch.
    pub fn copy(&self) -> (r: EffectMismatch)
        ensures
            r@ == self@,
    {
        EffectMismatch {
            function_name: self.function_name.clone(),
            file: self.file.clone(),
            declared_only: copy_strings(&self.declared_only),
            observed_only: copy_strings(&self.observed_only),
        }
    }
}

/// The index of every file, keyed by path.
#[derive(Debug, Clone, PartialEq, Eq)]
pub struct IndexSnapshot {
    pub schema_version: u32,
    /// Entries in increasing order of their keys, no key twice.
    pub files: Vec<(String, FileIndex)>,
}

pub struct IndexSnapshotView {
    pub schema_version: u32,
    pub files: Seq<(Seq<char>, FileIndexView)>,
}

impl View for IndexSnapshot {
    type V = IndexSnapshotView;

    open spec fn view(&self) -> IndexSnapshotView {
        IndexSnapshotView { schema_version: self.schema_version, files: views(self.files@) }
    }
}

/// The keys of the entries increase strictly.
pub open spec fn keys_sorted(files: Seq<(Seq<char>, FileIndexView)>) -> bool {
    forall|i: int, j: int| 0 <= i < j < files.len() ==> str_lt(#[trigger] files[i].0, #[trigger] files[j].0)
}

impl IndexSnapshotView {
    pub open spec fn wf(self) -> bool {
        keys_sorted(self.files)
    }
}

/// Every entry of `new` is the entry of `old` at the same place, normalized.
pub open spec fn entries_normalized(
    old: Seq<(Seq<char>, FileIndexView)>,
    new: Seq<(Seq<char>, FileIndexView)>,
) -> bool {
    &&& new.len() == old.len()
    &&& forall|i: int|
        0 <= i < new.len() ==> #[trigger] new[i].0 == old[i].0 && file_index_normalized(
            old[i].1,
            new[i].1,
        )
}

impl IndexSnapshot {
    /// Whether the keys of the entries increase strictly (`wf`).
    pub fn keys_in_order(&self) -> (r: bool)
        ensures
            r == self@.wf(),
    {
        let ghost fs = self@.files;
        if self.files.len() == 0 {
            return true;
        }
        let mut i: usize = 0;
        while i + 1 < self.files.len()
            invariant
                fs == self@.files,
                fs.len() == self.files@.len(),
                fs.len() > 0,
                i < fs.len(),
                keys_sorted(fs.take(i + 1)),
            decreases self.files.len() - i,
        {
            assert(fs[i as int].0 == self.files@[i as int].0@);
            assert(fs[i + 1].0 == self.files@[i + 1].0@);
            if !crate::order::str_less(self.files[i].0.as_str(), self.files[i + 1].0.as_str()) {
                assert(!keys_sorted(fs)) by {
                    assert(!str_lt(fs[i as int].0, fs[i + 1].0));
                }
                return false;
            }
            proof {
                let t = fs.take(i + 2);
                assert forall|a: int, b: int| 0 <= a < b < t.len() implies str_lt(
                    #[trigger] t[a].0,
                    #[trigger] t[b].0,
                ) by {
                    if b == i + 1 {
                        if a < i {
                            assert(fs.take(i + 1)[a] == fs[a]);
                            assert(fs.take(i + 1)[i as int] == fs[i as int]);
                            crate::order::lemma_str_lt_transitive(fs[a].0, fs[i as int].0, fs[b].0);
                        }
                    } else {
                        assert(fs.take(i + 1)[a] == t[a]);
                        assert(fs.take(i + 1)[b] == t[b]);
                    }
                }
            }
            i = i + 1;
        }
        assert(fs.take(i + 1) =~= fs);
        true
    }

    /// An empty snapshot of the current schema.
    pub fn new() -> (r: Self)
        ensures
            r@.schema_version == INDEX_SCHEMA_VERSION,
            r@.files.len() == 0,
    {
        IndexSnapshot { schema_version: INDEX_SCHEMA_VERSION, files: Vec::new() }
    }

    /// Normalizes the index of every file.
    pub fn normalize(&mut self)
        ensures
            final(self)@.schema_version == old(self)@.schema_version,
            entries_normalized(old(self)@.files, final(self)@.files),
    {
        let ghost old_files = views(self.files@);
        let mut files = Vec::new();
        std::mem::swap(&mut files, &mut self.files);
        let mut out: Vec<(String, FileIndex)> = Vec::new();
        let mut rest = files;
        let n = rest.len();
        let mut i: usize = 0;
        while rest.len() > 0
            invariant
                old_files.len() == n,
                i + rest@.len() == n,
                views(rest@) == old_files.skip(i as int),
                entries_normalized(old_files.take(i as int), views(out@)),
            decreases rest.len(),
        {
            let ghost before = rest@;
            let (key, mut fi) = rest.remove(0);
            assert(views(before)[0] == before[0]@);
            assert(old_files[i as int] == (key@, fi@));
            assert forall|k: int| 0 <= k < views(rest@).len() implies #[trigger] views(rest@)[k]
                == old_files.skip(i + 1)[k] by {
                assert(views(rest@)[k] == rest@[k]@);
                assert(rest@[k] == before[k + 1]);
                assert(views(before)[k + 1] == before[k + 1]@);
            }
            assert(views(rest@) =~= old_files.skip(i + 1));
            fi.normalize();
            let ghost prev = views(out@);
            out.push((key, fi));
            assert(views(out@) =~= prev.push(out@[i as int]@));
            assert forall|k: int| 0 <= k < views(out@).len() implies #[trigger] views(out@)[k].0
                == old_files.take(i + 1)[k].0 && file_index_normalized(
                old_files.take(i + 1)[k].1,
                views(out@)[k].1,
            ) by {
                if k < i {
                    assert(views(out@)[k] == prev[k]);
                    assert(old_files.take(i + 1)[k] == old_files.take(i as int)[k]);
                }
            }
            i = i + 1;
        }
        assert(old_files.take(n as int) =~= old_files);
        self.files = out;
    }
}

impl FileIndex {
    /// A copy of the file index.
    pub fn copy(&self) -> (r: FileIndex)
        ensures
            r@ == self@,
    {
        let mut symbols: Vec<Symbol> = Vec::new();
        let mut i: usize = 0;
        while i < self.symbols.len()
            invariant
                i <= self.symbols@.len(),
                views(symbols@) == views(self.symbols@).take(i as int),
            decreases self.symbols.len() - i,
        {
            let ghost before = views(symbols@);
            symbols.push(self.symbols[i].copy());
            assert(views(symbols@) =~= before.push(self.symbols@[i as int]@));
            assert(views(self.symbols@).take(i + 1) =~= views(self.symbols@).take(i as int).push(
                self.symbols@[i as int]@,
            ));
            i = i + 1;
        }
        assert(views(self.symbols@).take(self.symbols@.len() as int) =~= views(self.symbols@));
        let mut references: Vec<Reference> = Vec::new();
        let mut i: usize = 0;
        while i < self.references.len()
            invariant
                i <= self.references@.len(),
                views(references@) == views(self.references@).take(i as int),
            decreases self.references.len() - i,
        {
            let ghost before = views(references@);
            references.push(self.references[i].copy());
            assert(views(references@) =~= before.push(self.references@[i as int]@));
            assert(views(self.references@).take(i + 1) =~= views(self.references@).take(
                i as int,
            ).push(self.references@[i as int]@));
            i = i + 1;
        }
        assert(views(self.references@).take(self.references@.len() as int) =~= views(
            self.references@,
        ));
        let mut metas: Vec<FunctionMeta> = Vec::new();
        let mut i: usize = 0;
        while i < self.function_meta.len()
            invariant
                i <= self.function_meta@.len(),
                views(metas@) == views(self.function_meta@).take(i as int),
            decreases self.function_meta.len() - i,
        {
            let ghost before = views(metas@);
            metas.push(self.function_meta[i].copy());
            assert(views(metas@) =~= before.push(self.function_meta@[i as int]@));
            assert(views(self.function_meta@).take(i + 1) =~= views(self.function_meta@).take(
                i as int,
            ).push(self.function_meta@[i as int]@));
            i = i + 1;
        }
        assert(views(self.function_meta@).take(self.function_meta@.len() as int) =~= views(
            self.function_meta@,
        ));
        let mut mismatches: Vec<EffectMismatch> = Vec::new();
        let mut i: usize = 0;
        while i < self.effect_mismatches.len()
            invariant
                i <= self.effect_mismatches@.len(),
                views(mismatches@) == views(self.effect_mismatches@).take(i as int),
            decreases self.effect_mismatches.len() - i,
        {
            let ghost before = views(mismatches@);
            mismatches.push(self.effect_mismatches[i].copy());
            assert(views(mismatches@) =~= before.push(self.effect_mismatches@[i as int]@));
            assert(views(self.effect_mismatches@).take(i + 1) =~= views(
                self.effect_mismatches@,
            ).take(i as int).push(self.effect_mismatches@[i as int]@));
            i = i + 1;
        }
        assert(views(self.effect_mismatches@).take(self.effect_mismatches@.len() as int) =~= views(
            self.effect_mismatches@,
        ));
        let mut diags: Vec<IndexedDiagnostic> = Vec::new();
        let mut i: usize = 0;
        while i < self.diagnostics.len()
            invariant
                i <= self.diagnostics@.len(),
                views(diags@) == views(self.diagnostics@).take(i as int),
            decreases self.diagnostics.len() - i,
        {
            let d = &self.diagnostics[i];
            let ghost before = views(diags@);
            diags.push(
                IndexedDiagnostic {
                    code: d.code.clone(),
                    severity: d.severity,
                    message: d.message.clone(),
                    span: d.span,
                },
            );
            assert(views(diags@) =~= before.push(self.diagnostics@[i as int]@));
            assert(views(self.diagnostics@).take(i + 1) =~= views(self.diagnostics@).take(
                i as int,
            ).push(self.diagnostics@[i as int]@));
            i = i + 1;
        }
        assert(views(self.diagnostics@).take(self.diagnostics@.len() as int) =~= views(
            self.diagnostics@,
        ));
        FileIndex {
            file: self.file.clone(),
            file_hash: self.file_hash.clone(),
            symbols,
            references,
            function_meta: metas,
            effect_mismatches: mismatches,
            diagnostics: diags,
            dependencies: copy_strings(&self.dependencies),
        }
    }
}

} // verus!
