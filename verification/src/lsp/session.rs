use vstd::prelude::*;

use crate::fmt::{format_source, format_spec};
use crate::indexer::incremental::IncrementalIndexer;
use crate::indexer::model::{
    copy_opt_string, copy_strings, opt_text, FileIndex, FileIndexView, IndexSpan, IndexedDiagnostic,
    IndexedDiagnosticView, SymbolKind, SymbolView, FunctionMetaView,
};
use crate::indexer::queries::{
    concat_files, definition_for_position, entry_for, entry_position, file_function_meta,
    file_symbols, first_with_id, references_for_position, references_to, position_spans_defined,
    symbol_at_position, symbol_at_spec,
};
use crate::indexer::store::IndexStore;
use crate::order::{
    is_stable_sort_of, key_le, key_less, lemma_key_le_total, lemma_key_le_transitive, stable_sort,
    views, KeyAtom, KeyPart, TotalPreorder,
};
use crate::text::{contains_str, contains_sub, lowercase, str_eq, to_lowercase, to_owned_string};

verus! {

#[derive(Debug, Clone, PartialEq, Eq)]
pub struct LspLocation {
    pub file: String,
    pub span: IndexSpan,
}

pub struct LspLocationView {
    pub file: Seq<char>,
    pub span: IndexSpan,
}

impl View for LspLocation {
    type V = LspLocationView;

    open spec fn view(&self) -> LspLocationView {
        LspLocationView { file: self.file@, span: self.span }
    }
}

#[derive(Debug, Clone, PartialEq, Eq)]
pub struct ContractMetadata {
    pub function_name: String,
    pub file: String,
    pub intent_text: Option<String>,
    pub effects_declared: Vec<String>,
    pub effects_observed: Vec<String>,
    pub has_examples: bool,
    pub is_public: bool,
}

#[derive(Debug, Clone, PartialEq, Eq)]
pub struct CompletionEntry {
    pub label: String,
    pub kind: String,
    pub detail: Option<String>,
}

#[derive(Debug, Clone, PartialEq, Eq)]
pub struct DocumentSymbolEntry {
    pub name: String,
    pub kind: String,
    pub file: String,
    pub span: IndexSpan,
}

#[derive(Debug, Clone, PartialEq, Eq)]
pub struct WorkspaceSymbolEntry {
    pub name: String,
    pub kind: String,
    pub file: String,
    pub span: IndexSpan,
}

#[derive(Debug, Clone, PartialEq, Eq)]
pub struct RenameEdit {
    pub file: String,
    pub span: IndexSpan,
    pub new_text: String,
}

#[derive(Debug, Clone, PartialEq, Eq)]
pub struct RenameResult {
    pub edits: Vec<RenameEdit>,
}

#[derive(Debug, Clone, PartialEq, Eq)]
pub struct CodeActionSuggestion {
    pub title: String,
    pub kind: String,
    pub code: String,
}

/// A document the editor has open.
struct OpenDocument {
    path: String,
    text: String,
    version: i64,
}

/// An editor session: the index of the workspace and the open documents.
/// Paths given to its methods are already normalized.
pub struct LspSession {
    indexer: IncrementalIndexer,
    open_docs: Vec<OpenDocument>,
}

/// The text of the first open document at `path`.
pub open spec fn doc_text(docs: Seq<(Seq<char>, Seq<char>, i64)>, path: Seq<char>) -> Option<Seq<char>>
    decreases docs.len(),
{
    if docs.len() == 0 {
        None
    } else if docs[0].0 == path {
        Some(docs[0].1)
    } else {
        doc_text(docs.drop_first(), path)
    }
}

/// The version of the first open document at `path`.
pub open spec fn doc_version(docs: Seq<(Seq<char>, Seq<char>, i64)>, path: Seq<char>) -> Option<i64>
    decreases docs.len(),
{
    if docs.len() == 0 {
        None
    } else if docs[0].0 == path {
        Some(docs[0].2)
    } else {
        doc_version(docs.drop_first(), path)
    }
}

proof fn lemma_doc_text_none(d: Seq<(Seq<char>, Seq<char>, i64)>, p: Seq<char>)
    requires
        doc_text(d, p).is_none(),
    ensures
        doc_version(d, p).is_none(),
    decreases d.len(),
{
    if d.len() > 0 {
        lemma_doc_text_none(d.drop_first(), p);
    }
}

proof fn lemma_doc_text_remove(d: Seq<(Seq<char>, Seq<char>, i64)>, i: int, p: Seq<char>)
    requires
        0 <= i < d.len(),
        d[i].0 != p,
    ensures
        doc_text(d.remove(i), p) == doc_text(d, p),
        doc_version(d.remove(i), p) == doc_version(d, p),
    decreases i,
{
    if i == 0 {
        assert(d.remove(0) =~= d.drop_first());
    } else {
        assert(d.remove(i)[0] == d[0]);
        assert(d.remove(i).drop_first() =~= d.drop_first().remove(i - 1));
        lemma_doc_text_remove(d.drop_first(), i - 1, p);
    }
}

impl LspSession {
    pub closed spec fn snapshot_view(&self) -> crate::indexer::model::IndexSnapshotView {
        self.indexer.store_view().snapshot_view()
    }

    /// Where the session's index is stored.
    pub closed spec fn store_root(&self) -> Seq<char> {
        self.indexer.store_view().root_view()
    }

    /// Whether the session's index was recovered from a corrupt file.
    pub closed spec fn recovered(&self) -> bool {
        self.indexer.store_view().recovered_view()
    }

    pub closed spec fn docs_view(&self) -> Seq<(Seq<char>, Seq<char>, i64)> {
        self.open_docs@.map_values(|d: OpenDocument| (d.path@, d.text@, d.version))
    }

    pub closed spec fn wf(&self) -> bool {
        self.indexer.wf()
    }

    /// A session over the index in `store` with no open document.
    pub fn open_or_create(store: IndexStore) -> (r: Self)
        requires
            store.wf(),
        ensures
            r.wf(),
            r.snapshot_view() == store.snapshot_view(),
            r.store_root() == store.root_view(),
            r.recovered() == store.recovered_view(),
            r.docs_view().len() == 0,
    {
        let r = LspSession { indexer: IncrementalIndexer::new(store), open_docs: Vec::new() };
        assert(r.docs_view() =~= Seq::<(Seq<char>, Seq<char>, i64)>::empty());
        r
    }

    fn doc_position(&self, path: &str) -> (r: Option<usize>)
        ensures
            match r {
                Some(i) => i < self.docs_view().len() && self.docs_view()[i as int].0 == path@
                    && doc_text(self.docs_view(), path@) == Some(self.docs_view()[i as int].1),
                None => doc_text(self.docs_view(), path@).is_none(),
            },
    {
        let ghost d = self.docs_view();
        let mut i: usize = 0;
        assert(d.skip(0) =~= d);
        while i < self.open_docs.len()
            invariant
                d == self.docs_view(),
                i <= d.len(),
                doc_text(d, path@) == doc_text(d.skip(i as int), path@),
            decreases self.open_docs.len() - i,
        {
            assert(d.skip(i as int)[0] == d[i as int]);
            assert(d[i as int].0 == self.open_docs@[i as int].path@);
            if str_eq(self.open_docs[i].path.as_str(), path) {
                return Some(i);
            }
            assert(d.skip(i as int).drop_first() =~= d.skip(i + 1));
            i = i + 1;
        }
        None
    }

    /// Forgets the open document at `path`; the others stay open.
    pub fn close_document(&mut self, path: &str)
        ensures
            final(self).wf() == old(self).wf(),
            final(self).snapshot_view() == old(self).snapshot_view(),
            doc_text(final(self).docs_view(), path@).is_none(),
            doc_version(final(self).docs_view(), path@).is_none(),
            final(self).store_root() == old(self).store_root(),
            final(self).recovered() == old(self).recovered(),
            doc_event_effect(old(self).docs_view(), final(self).docs_view(), DocEvent::Close { path: path@ }),
            forall|p: Seq<char>|
                p != path@ ==> #[trigger] doc_text(final(self).docs_view(), p) == doc_text(
                    old(self).docs_view(),
                    p,
                ),
            forall|p: Seq<char>|
                p != path@ ==> #[trigger] doc_version(final(self).docs_view(), p) == doc_version(
                    old(self).docs_view(),
                    p,
                ),
    {
        loop
            invariant
                self.wf() == old(self).wf(),
                self.snapshot_view() == old(self).snapshot_view(),
                self.store_root() == old(self).store_root(),
                self.recovered() == old(self).recovered(),
                forall|p: Seq<char>|
                    p != path@ ==> #[trigger] doc_text(self.docs_view(), p) == doc_text(
                        old(self).docs_view(),
                        p,
                    ),
                forall|p: Seq<char>|
                    p != path@ ==> #[trigger] doc_version(self.docs_view(), p) == doc_version(
                        old(self).docs_view(),
                        p,
                    ),
            ensures
                self.wf() == old(self).wf(),
                self.snapshot_view() == old(self).snapshot_view(),
                self.store_root() == old(self).store_root(),
                self.recovered() == old(self).recovered(),
                doc_text(self.docs_view(), path@).is_none(),
                doc_version(self.docs_view(), path@).is_none(),
                forall|p: Seq<char>|
                    p != path@ ==> #[trigger] doc_text(self.docs_view(), p) == doc_text(
                        old(self).docs_view(),
                        p,
                    ),
                forall|p: Seq<char>|
                    p != path@ ==> #[trigger] doc_version(self.docs_view(), p) == doc_version(
                        old(self).docs_view(),
                        p,
                    ),
            decreases self.open_docs.len(),
        {
            match self.doc_position(path) {
                Some(i) => {
                    let ghost before = self.docs_view();
                    self.open_docs.remove(i);
                    assert(self.docs_view() =~= before.remove(i as int));
                    assert forall|p: Seq<char>| p != path@ implies #[trigger] doc_text(self.docs_view(), p)
                        == doc_text(before, p) by {
                        lemma_doc_text_remove(before, i as int, p);
                    }
                    assert forall|p: Seq<char>| p != path@ implies #[trigger] doc_version(self.docs_view(), p)
                        == doc_version(before, p) by {
                        lemma_doc_text_remove(before, i as int, p);
                    }
                },
                None => {
                    proof {
                        lemma_doc_text_none(self.docs_view(), path@);
                    }
                    break ;
                },
            }
        }
    }

    /// Where the symbol at a position is defined.
    pub fn definition(&self, path: &str, line: usize, col: usize) -> (r: Option<LspLocation>)
        requires
            position_spans_defined(self.snapshot_view(), path@, line as int, col as int),
        ensures
            match crate::indexer::queries::definition_at_spec(
                self.snapshot_view(),
                path@,
                line as int,
                col as int,
            ) {
                None => r.is_none(),
                Some(s) => r.is_some() && r.unwrap()@ == (LspLocationView { file: s.file, span: s.span }),
            },
    {
        match definition_for_position(self.indexer.store().snapshot(), path, line, col) {
            Some(symbol) => Some(LspLocation { file: symbol.file, span: symbol.span }),
            None => None,
        }
    }

    /// The references to the symbol at a position.
    pub fn references(&self, path: &str, line: usize, col: usize) -> (r: Vec<LspLocation>)
        requires
            position_spans_defined(self.snapshot_view(), path@, line as int, col as int),
        ensures
            match symbol_at_spec(self.snapshot_view(), path@, line as int, col as int) {
                None => r@.len() == 0,
                Some(id) => exists|refs: Seq<crate::indexer::model::ReferenceView>|
                    is_stable_sort_of::<
                        crate::indexer::model::Reference,
                        crate::indexer::model::ReferenceOrder,
                    >(references_to(self.snapshot_view(), id), refs) && refs.len() == r@.len()
                        && forall|k: int|
                        0 <= k < refs.len() ==> (#[trigger] r@[k])@ == (LspLocationView {
                            file: refs[k].file,
                            span: refs[k].span,
                        }),
            },
    {
        let refs = references_for_position(self.indexer.store().snapshot(), path, line, col);
        let ghost rv = views(refs@);
        let mut out: Vec<LspLocation> = Vec::new();
        let mut i: usize = 0;
        while i < refs.len()
            invariant
                rv == views(refs@),
                i <= refs@.len(),
                out@.len() == i,
                forall|k: int|
                    0 <= k < i ==> (#[trigger] out@[k])@ == (LspLocationView {
                        file: rv[k].file,
                        span: rv[k].span,
                    }),
            decreases refs.len() - i,
        {
            assert(rv[i as int] == refs@[i as int]@);
            out.push(LspLocation { file: refs[i].file.clone(), span: refs[i].span });
            i = i + 1;
        }
        out
    }

    /// The diagnostics recorded for a file; none for a file not indexed.
    pub fn diagnostics_for_file(&self, path: &str) -> (r: Vec<IndexedDiagnostic>)
        ensures
            views(r@) == match entry_for(self.snapshot_view().files, path@) {
                Some(f) => f.diagnostics,
                None => Seq::empty(),
            },
    {
        let snapshot = self.indexer.store().snapshot();
        match entry_position(snapshot, path) {
            None => Vec::new(),
            Some(i) => copy_diagnostics(&snapshot.files[i].1.diagnostics),
        }
    }
}

/// A call that changes the open documents: `open_document` or
/// `change_document` storing a text, or `close_document`.
pub enum DocEvent {
    Store { path: Seq<char>, text: Seq<char> },
    Close { path: Seq<char> },
}

/// The documents `after` are the documents `before` with the event
/// applied: the event's path has the stored text, or none after a close,
/// and every other path keeps its text.
pub open spec fn doc_event_effect(
    before: Seq<(Seq<char>, Seq<char>, i64)>,
    after: Seq<(Seq<char>, Seq<char>, i64)>,
    ev: DocEvent,
) -> bool {
    match ev {
        DocEvent::Store { path, text } => {
            &&& doc_text(after, path) == Some(text)
            &&& forall|p: Seq<char>| p != path ==> #[trigger] doc_text(after, p) == doc_text(before, p)
        },
        DocEvent::Close { path } => {
            &&& doc_text(after, path).is_none()
            &&& forall|p: Seq<char>| p != path ==> #[trigger] doc_text(after, p) == doc_text(before, p)
        },
    }
}

/// The text kept for `path` after the events, starting from `initial`:
/// that of the last event on `path`, or `initial` when none touched it.
pub open spec fn text_after_events(
    initial: Option<Seq<char>>,
    events: Seq<DocEvent>,
    path: Seq<char>,
) -> Option<Seq<char>>
    decreases events.len(),
{
    if events.len() == 0 {
        initial
    } else {
        match events.last() {
            DocEvent::Store { path: p, text } => if p == path {
                Some(text)
            } else {
                text_after_events(initial, events.drop_last(), path)
            },
            DocEvent::Close { path: p } => if p == path {
                None
            } else {
                text_after_events(initial, events.drop_last(), path)
            },
        }
    }
}

/// Over a history of opens, changes and closes, the text a session keeps
/// for a path, which `format_document` formats, is the text of the last
/// open or change of that path, or none if it was closed after that (or
/// never opened): `docs[i + 1]` are the documents after `events[i]`.
pub proof fn lemma_documents_follow_history(
    docs: Seq<Seq<(Seq<char>, Seq<char>, i64)>>,
    events: Seq<DocEvent>,
    path: Seq<char>,
)
    requires
        docs.len() == events.len() + 1,
        forall|i: int| 0 <= i < events.len() ==> #[trigger] doc_event_effect(docs[i], docs[i + 1], events[i]),
    ensures
        doc_text(docs.last(), path) == text_after_events(doc_text(docs[0], path), events, path),
    decreases events.len(),
{
    if events.len() > 0 {
        let n = events.len() - 1;
        assert forall|i: int| 0 <= i < events.drop_last().len() implies #[trigger] doc_event_effect(
            docs.drop_last()[i],
            docs.drop_last()[i + 1],
            events.drop_last()[i],
        ) by {
            assert(doc_event_effect(docs[i], docs[i + 1], events[i]));
        }
        lemma_documents_follow_history(docs.drop_last(), events.drop_last(), path);
        assert(doc_event_effect(docs[n], docs[n + 1], events[n]));
        assert(docs.drop_last().last() == docs[n]);
        match events[n] {
            DocEvent::Store { path: p, text } => {
                if p != path {
                    assert(doc_text(docs[n + 1], path) == doc_text(docs[n], path));
                }
            },
            DocEvent::Close { path: p } => {
                if p != path {
                    assert(doc_text(docs[n + 1], path) == doc_text(docs[n], path));
                }
            },
        }
    }
}

impl LspSession {
    /// The formatted text of an open document.
    pub fn format_document(&self, path: &str) -> (r: Option<String>)
        ensures
            match doc_text(self.docs_view(), path@) {
                None => r.is_none(),
                Some(t) => r.is_some() && r.unwrap()@ == format_spec(t),
            },
    {
        match self.doc_position(path) {
            None => None,
            Some(i) => Some(format_source(self.open_docs[i].text.as_str())),
        }
    }
}

fn copy_diagnostics(v: &Vec<IndexedDiagnostic>) -> (r: Vec<IndexedDiagnostic>)
    ensures
        views(r@) == views(v@),
{
    let mut out: Vec<IndexedDiagnostic> = Vec::new();
    let mut i: usize = 0;
    while i < v.len()
        invariant
            i <= v@.len(),
            views(out@) == views(v@).take(i as int),
        decreases v.len() - i,
    {
        let d = &v[i];
        let ghost before = views(out@);
        out.push(
            IndexedDiagnostic {
                code: d.code.clone(),
                severity: d.severity,
                message: d.message.clone(),
                span: d.span,
            },
        );
        assert(views(out@) =~= before.push(v@[i as int]@));
        assert(views(v@).take(i + 1) =~= views(v@).take(i as int).push(v@[i as int]@));
        i = i + 1;
    }
    assert(views(v@).take(v@.len() as int) =~= views(v@));
    out
}


pub open spec fn symbol_kind_name_spec(kind: SymbolKind) -> Seq<char> {
    match kind {
        SymbolKind::Function => "function"@,
        SymbolKind::Param => "param"@,
        SymbolKind::Local => "local"@,
        SymbolKind::Contract => "contract"@,
        SymbolKind::Effect => "effect"@,
    }
}

/// The name of a symbol kind as shown in symbol lists.
pub fn symbol_kind_name(kind: SymbolKind) -> (r: &'static str)
    ensures
        r@ == symbol_kind_name_spec(kind),
{
    match kind {
        SymbolKind::Function => "function",
        SymbolKind::Param => "param",
        SymbolKind::Local => "local",
        SymbolKind::Contract => "contract",
        SymbolKind::Effect => "effect",
    }
}

pub struct SymbolEntryView {
    pub name: Seq<char>,
    pub kind: Seq<char>,
    pub file: Seq<char>,
    pub span: IndexSpan,
}

impl View for DocumentSymbolEntry {
    type V = SymbolEntryView;

    open spec fn view(&self) -> SymbolEntryView {
        SymbolEntryView { name: self.name@, kind: self.kind@, file: self.file@, span: self.span }
    }
}

impl View for WorkspaceSymbolEntry {
    type V = SymbolEntryView;

    open spec fn view(&self) -> SymbolEntryView {
        SymbolEntryView { name: self.name@, kind: self.kind@, file: self.file@, span: self.span }
    }
}

/// The list entry of a symbol.
pub open spec fn entry_of(s: SymbolView) -> SymbolEntryView {
    SymbolEntryView { name: s.name, kind: symbol_kind_name_spec(s.kind), file: s.file, span: s.span }
}

pub open spec fn entries_of(syms: Seq<SymbolView>) -> Seq<SymbolEntryView> {
    syms.map_values(|s: SymbolView| entry_of(s))
}

pub open spec fn document_symbol_key(e: SymbolEntryView) -> Seq<KeyAtom> {
    seq![
        KeyAtom::Num(e.span.line_start as int),
        KeyAtom::Num(e.span.col_start as int),
        KeyAtom::Text(e.name),
    ]
}

pub open spec fn workspace_symbol_key(e: SymbolEntryView) -> Seq<KeyAtom> {
    seq![
        KeyAtom::Text(e.name),
        KeyAtom::Text(e.file),
        KeyAtom::Num(e.span.line_start as int),
        KeyAtom::Num(e.span.col_start as int),
    ]
}

/// Document symbols by position, then name.
pub struct DocumentSymbolOrder;

impl TotalPreorder<DocumentSymbolEntry> for DocumentSymbolOrder {
    open spec fn le(a: SymbolEntryView, b: SymbolEntryView) -> bool {
        key_le(document_symbol_key(a), document_symbol_key(b))
    }

    proof fn lemma_total(a: SymbolEntryView, b: SymbolEntryView) {
        lemma_key_le_total(document_symbol_key(a), document_symbol_key(b));
    }

    proof fn lemma_transitive(a: SymbolEntryView, b: SymbolEntryView, c: SymbolEntryView) {
        lemma_key_le_transitive(document_symbol_key(a), document_symbol_key(b), document_symbol_key(c));
    }

    fn le_exec(a: &DocumentSymbolEntry, b: &DocumentSymbolEntry) -> (r: bool) {
        let ka = vec![
            KeyPart::Num(a.span.line_start as u64),
            KeyPart::Num(a.span.col_start as u64),
            KeyPart::Text(a.name.as_str()),
        ];
        let kb = vec![
            KeyPart::Num(b.span.line_start as u64),
            KeyPart::Num(b.span.col_start as u64),
            KeyPart::Text(b.name.as_str()),
        ];
        assert(views(ka@) =~= document_symbol_key(a@));
        assert(views(kb@) =~= document_symbol_key(b@));
        !key_less(kb.as_slice(), ka.as_slice())
    }
}

/// Workspace symbols by name, file, then position.
pub struct WorkspaceSymbolOrder;

impl TotalPreorder<WorkspaceSymbolEntry> for WorkspaceSymbolOrder {
    open spec fn le(a: SymbolEntryView, b: SymbolEntryView) -> bool {
        key_le(workspace_symbol_key(a), workspace_symbol_key(b))
    }

    proof fn lemma_total(a: SymbolEntryView, b: SymbolEntryView) {
        lemma_key_le_total(workspace_symbol_key(a), workspace_symbol_key(b));
    }

    proof fn lemma_transitive(a: SymbolEntryView, b: SymbolEntryView, c: SymbolEntryView) {
        lemma_key_le_transitive(
            workspace_symbol_key(a),
            workspace_symbol_key(b),
            workspace_symbol_key(c),
        );
    }

    fn le_exec(a: &WorkspaceSymbolEntry, b: &WorkspaceSymbolEntry) -> (r: bool) {
        let ka = vec![
            KeyPart::Text(a.name.as_str()),
            KeyPart::Text(a.file.as_str()),
            KeyPart::Num(a.span.line_start as u64),
            KeyPart::Num(a.span.col_start as u64),
        ];
        let kb = vec![
            KeyPart::Text(b.name.as_str()),
            KeyPart::Text(b.file.as_str()),
            KeyPart::Num(b.span.line_start as u64),
            KeyPart::Num(b.span.col_start as u64),
        ];
        assert(views(ka@) =~= workspace_symbol_key(a@));
        assert(views(kb@) =~= workspace_symbol_key(b@));
        !key_less(kb.as_slice(), ka.as_slice())
    }
}

/// A workspace symbol matches when the query is empty or its name holds
/// the query, both in lower case.
pub open spec fn symbol_matches(s: SymbolView, query: Seq<char>) -> bool {
    lowercase(query).len() == 0 || contains_sub(lowercase(s.name), lowercase(query))
}

/// The first metadata record of the function with id `id`.
pub open spec fn first_meta_with_id(metas: Seq<FunctionMetaView>, id: crate::indexer::model::SymbolId) -> Option<
    FunctionMetaView,
>
    decreases metas.len(),
{
    if metas.len() == 0 {
        None
    } else if metas[0].symbol_id == id {
        Some(metas[0])
    } else {
        first_meta_with_id(metas.drop_first(), id)
    }
}

proof fn lemma_first_meta_append(a: Seq<FunctionMetaView>, b: Seq<FunctionMetaView>, id: crate::indexer::model::SymbolId)
    ensures
        first_meta_with_id(a + b, id) == if first_meta_with_id(a, id).is_some() {
            first_meta_with_id(a, id)
        } else {
            first_meta_with_id(b, id)
        },
    decreases a.len(),
{
    if a.len() == 0 {
        assert(a + b =~= b);
    } else {
        assert((a + b).drop_first() =~= a.drop_first() + b);
        lemma_first_meta_append(a.drop_first(), b, id);
    }
}

pub struct ContractMetadataView {
    pub function_name: Seq<char>,
    pub file: Seq<char>,
    pub intent_text: Option<Seq<char>>,
    pub effects_declared: Seq<Seq<char>>,
    pub effects_observed: Seq<Seq<char>>,
    pub has_examples: bool,
    pub is_public: bool,
}

impl View for ContractMetadata {
    type V = ContractMetadataView;

    open spec fn view(&self) -> ContractMetadataView {
        ContractMetadataView {
            function_name: self.function_name@,
            file: self.file@,
            intent_text: opt_text(self.intent_text),
            effects_declared: views(self.effects_declared@),
            effects_observed: views(self.effects_observed@),
            has_examples: self.has_examples,
            is_public: self.is_public,
        }
    }
}

pub open spec fn contract_of(m: FunctionMetaView) -> ContractMetadataView {
    ContractMetadataView {
        function_name: m.function_name,
        file: m.file,
        intent_text: m.intent_text,
        effects_declared: m.effects_declared,
        effects_observed: m.effects_observed,
        has_examples: m.has_examples,
        is_public: m.is_public,
    }
}

pub struct CodeActionView {
    pub title: Seq<char>,
    pub kind: Seq<char>,
    pub code: Seq<char>,
}

impl View for CodeActionSuggestion {
    type V = CodeActionView;

    open spec fn view(&self) -> CodeActionView {
        CodeActionView { title: self.title@, kind: self.kind@, code: self.code@ }
    }
}

/// The title of the fix suggested for a diagnostic code.
pub open spec fn action_title(code: Seq<char>) -> Seq<char> {
    if code == "E2001"@ {
        "Create local binding for unknown identifier"@
    } else if code == "E1001"@ {
        "Check syntax and close unmatched delimiters"@
    } else {
        "Review diagnostic and apply deterministic fix"@
    }
}

/// One suggestion per distinct (title, code), in the order the
/// diagnostics first call for them.
pub open spec fn actions_for(diags: Seq<IndexedDiagnosticView>) -> Seq<CodeActionView>
    decreases diags.len(),
{
    if diags.len() == 0 {
        Seq::empty()
    } else {
        let prev = actions_for(diags.drop_last());
        let d = diags.last();
        let a = CodeActionView { title: action_title(d.code), kind: "quickfix"@, code: d.code };
        if exists|k: int| 0 <= k < prev.len() && #[trigger] prev[k].title == a.title && prev[k].code == a.code {
            prev
        } else {
            prev.push(a)
        }
    }
}

fn action_title_exec(code: &str) -> (r: &'static str)
    ensures
        r@ == action_title(code@),
{
    if str_eq(code, "E2001") {
        "Create local binding for unknown identifier"
    } else if str_eq(code, "E1001") {
        "Check syntax and close unmatched delimiters"
    } else {
        "Review diagnostic and apply deterministic fix"
    }
}

impl LspSession {
    /// Records the index of a document that was opened or changed, and its
    /// text; gives back the document's diagnostics. An index with the hash
    /// already stored for the file leaves the index as it was; any other is
    /// stored (normalized) under the file's name.
    pub fn open_document(
        &mut self,
        path: String,
        source: &str,
        version: Option<i64>,
        file_index: FileIndex,
    ) -> (r: Vec<IndexedDiagnostic>)
        requires
            old(self).wf(),
        ensures
            final(self).wf(),
            views(r@) == file_index@.diagnostics,
            doc_text(final(self).docs_view(), path@) == Some(source@),
            final(self).store_root() == old(self).store_root(),
            final(self).recovered() == old(self).recovered(),
            doc_event_effect(
                old(self).docs_view(),
                final(self).docs_view(),
                DocEvent::Store { path: path@, text: source@ },
            ),
            doc_version(final(self).docs_view(), path@) == Some(
                match version {
                    Some(v) => v,
                    None => 0i64,
                },
            ),
            forall|p: Seq<char>|
                p != path@ ==> #[trigger] doc_text(final(self).docs_view(), p) == doc_text(
                    old(self).docs_view(),
                    p,
                ),
            forall|p: Seq<char>|
                p != path@ ==> #[trigger] doc_version(final(self).docs_view(), p) == doc_version(
                    old(self).docs_view(),
                    p,
                ),
            (match entry_for(old(self).snapshot_view().files, file_index@.file) {
                Some(e) => e.file_hash == file_index@.file_hash,
                None => false,
            }) ==> final(self).snapshot_view() == old(self).snapshot_view(),
            !(match entry_for(old(self).snapshot_view().files, file_index@.file) {
                Some(e) => e.file_hash == file_index@.file_hash,
                None => false,
            }) ==> final(self).snapshot_view().schema_version == old(self).snapshot_view().schema_version
                && crate::indexer::model::entries_normalized(
                crate::indexer::store::map_insert(
                    old(self).snapshot_view().files,
                    file_index@.file,
                    file_index@,
                ),
                final(self).snapshot_view().files,
            ),
    {
        let ghost old_docs = self.docs_view();
        let diagnostics = copy_diagnostics(&file_index.diagnostics);
        let mut telemetry = crate::indexer::incremental::IncrementalTelemetry {
            files_reindexed: 0,
            invalidation_fanout: 0,
            incremental_update_latency_ms: 0,
            cache_hits: 0,
            cache_misses: 0,
        };
        self.indexer.record_file_index(file_index, &mut telemetry);
        let v = match version {
            Some(v) => v,
            None => 0,
        };
        let doc = OpenDocument { path, text: to_owned_string(source), version: v };
        let ghost pv = doc.path@;
        self.open_docs.insert(0, doc);
        assert(self.docs_view()[0].0 == pv);
        assert(self.docs_view()[0].1 == source@);
        assert(self.docs_view()[0].2 == v);
        assert(self.docs_view().drop_first() =~= old_docs);
        diagnostics
    }

    /// The same as `open_document`.
    pub fn change_document(
        &mut self,
        path: String,
        source: &str,
        version: Option<i64>,
        file_index: FileIndex,
    ) -> (r: Vec<IndexedDiagnostic>)
        requires
            old(self).wf(),
        ensures
            final(self).wf(),
            views(r@) == file_index@.diagnostics,
            doc_text(final(self).docs_view(), path@) == Some(source@),
            final(self).store_root() == old(self).store_root(),
            final(self).recovered() == old(self).recovered(),
            doc_event_effect(
                old(self).docs_view(),
                final(self).docs_view(),
                DocEvent::Store { path: path@, text: source@ },
            ),
            doc_version(final(self).docs_view(), path@) == Some(
                match version {
                    Some(v) => v,
                    None => 0i64,
                },
            ),
            forall|p: Seq<char>|
                p != path@ ==> #[trigger] doc_text(final(self).docs_view(), p) == doc_text(
                    old(self).docs_view(),
                    p,
                ),
            forall|p: Seq<char>|
                p != path@ ==> #[trigger] doc_version(final(self).docs_view(), p) == doc_version(
                    old(self).docs_view(),
                    p,
                ),
            (match entry_for(old(self).snapshot_view().files, file_index@.file) {
                Some(e) => e.file_hash == file_index@.file_hash,
                None => false,
            }) ==> final(self).snapshot_view() == old(self).snapshot_view(),
            !(match entry_for(old(self).snapshot_view().files, file_index@.file) {
                Some(e) => e.file_hash == file_index@.file_hash,
                None => false,
            }) ==> final(self).snapshot_view().schema_version == old(self).snapshot_view().schema_version
                && crate::indexer::model::entries_normalized(
                crate::indexer::store::map_insert(
                    old(self).snapshot_view().files,
                    file_index@.file,
                    file_index@,
                ),
                final(self).snapshot_view().files,
            ),
    {
        self.open_document(path, source, version, file_index)
    }

    /// The symbols of a file, ordered by position and name.
    pub fn document_symbols(&self, path: &str) -> (r: Vec<DocumentSymbolEntry>)
        ensures
            match entry_for(self.snapshot_view().files, path@) {
                None => r@.len() == 0,
                Some(f) => is_stable_sort_of::<DocumentSymbolEntry, DocumentSymbolOrder>(
                    entries_of(f.symbols),
                    views(r@),
                ),
            },
    {
        let snapshot = self.indexer.store().snapshot();
        let i = match entry_position(snapshot, path) {
            None => {
                return Vec::new();
            },
            Some(i) => i,
        };
        let fi = &snapshot.files[i].1;
        let ghost f = fi@;
        let mut out: Vec<DocumentSymbolEntry> = Vec::new();
        let mut j: usize = 0;
        while j < fi.symbols.len()
            invariant
                f == fi@,
                j <= f.symbols.len(),
                views(out@) == entries_of(f.symbols.take(j as int)),
            decreases fi.symbols.len() - j,
        {
            let s = &fi.symbols[j];
            assert(f.symbols[j as int] == s@);
            let ghost before = views(out@);
            out.push(
                DocumentSymbolEntry {
                    name: s.name.clone(),
                    kind: to_owned_string(symbol_kind_name(s.kind)),
                    file: s.file.clone(),
                    span: s.span,
                },
            );
            assert(views(out@) =~= before.push(entry_of(s@)));
            assert(f.symbols.take(j + 1) =~= f.symbols.take(j as int).push(s@));
            assert(entries_of(f.symbols.take(j + 1)) =~= entries_of(f.symbols.take(j as int)).push(
                entry_of(s@),
            ));
            j = j + 1;
        }
        assert(f.symbols.take(f.symbols.len() as int) =~= f.symbols);
        stable_sort::<DocumentSymbolEntry, DocumentSymbolOrder>(out)
    }

    /// The symbols of the workspace whose name holds the query (ignoring
    /// case; every symbol for an empty query), by name, file and position.
    pub fn workspace_symbols(&self, query: &str) -> (r: Vec<WorkspaceSymbolEntry>)
        ensures
            is_stable_sort_of::<WorkspaceSymbolEntry, WorkspaceSymbolOrder>(
                entries_of(
                    crate::indexer::queries::keep(
                        concat_files(self.snapshot_view().files, file_symbols()),
                        |s: SymbolView| symbol_matches(s, query@),
                    ),
                ),
                views(r@),
            ),
            query@.len() == 0 ==> forall|s: SymbolView| #[trigger] symbol_matches(s, query@),
    {
        let snapshot = self.indexer.store().snapshot();
        let query_lower = to_lowercase(query);
        let ghost files = snapshot@.files;
        let ghost p = |s: SymbolView| symbol_matches(s, query@);
        let mut out: Vec<WorkspaceSymbolEntry> = Vec::new();
        let mut i: usize = 0;
        assert(files.take(0) =~= Seq::<(Seq<char>, FileIndexView)>::empty());
        while i < snapshot.files.len()
            invariant
                files == snapshot@.files,
                i <= files.len(),
                query_lower@ == lowercase(query@),
                p == (|s: SymbolView| symbol_matches(s, query@)),
                views(out@) == entries_of(
                    crate::indexer::queries::keep(concat_files(files.take(i as int), file_symbols()), p),
                ),
            decreases snapshot.files.len() - i,
        {
            let fi = &snapshot.files[i].1;
            assert(files[i as int].1 == fi@);
            proof {
                crate::indexer::queries::lemma_concat_step(files, file_symbols(), p, i as int);
            }
            let ghost base_k = crate::indexer::queries::keep(concat_files(files.take(i as int), file_symbols()), p);
            let mut j: usize = 0;
            assert(fi@.symbols.take(0) =~= Seq::<SymbolView>::empty());
            assert(crate::indexer::queries::keep(fi@.symbols.take(0), p) =~= Seq::<SymbolView>::empty());
            assert(base_k + crate::indexer::queries::keep(fi@.symbols.take(0), p) =~= base_k);
            while j < fi.symbols.len()
                invariant
                    j <= fi@.symbols.len(),
                    query_lower@ == lowercase(query@),
                    p == (|s: SymbolView| symbol_matches(s, query@)),
                    views(out@) == entries_of(base_k + crate::indexer::queries::keep(fi@.symbols.take(j as int), p)),
                decreases fi.symbols.len() - j,
            {
                let s = &fi.symbols[j];
                assert(fi@.symbols[j as int] == s@);
                proof {
                    crate::indexer::queries::lemma_keep_step(fi@.symbols, p, j as int);
                }
                let hit = query_lower.as_str().is_empty() || contains_str(
                    to_lowercase(s.name.as_str()).as_str(),
                    query_lower.as_str(),
                );
                if hit {
                    let ghost prev = views(out@);
                    out.push(
                        WorkspaceSymbolEntry {
                            name: s.name.clone(),
                            kind: to_owned_string(symbol_kind_name(s.kind)),
                            file: s.file.clone(),
                            span: s.span,
                        },
                    );
                    let ghost kk = crate::indexer::queries::keep(fi@.symbols.take(j as int), p);
                    assert(base_k + kk.push(s@) =~= (base_k + kk).push(s@));
                    assert(entries_of((base_k + kk).push(s@)) =~= entries_of(base_k + kk).push(entry_of(s@)));
                    assert(views(out@) =~= prev.push(entry_of(s@)));
                }
                j = j + 1;
            }
            assert(fi@.symbols.take(fi@.symbols.len() as int) =~= fi@.symbols);
            i = i + 1;
        }
        assert(files.take(files.len() as int) =~= files);
        stable_sort::<WorkspaceSymbolEntry, WorkspaceSymbolOrder>(out)
    }

    /// The contract metadata of the function at a position.
    pub fn hover_contract_metadata(&self, path: &str, line: usize, col: usize) -> (r: Option<ContractMetadata>)
        requires
            position_spans_defined(self.snapshot_view(), path@, line as int, col as int),
        ensures
            match symbol_at_spec(self.snapshot_view(), path@, line as int, col as int) {
                None => r.is_none(),
                Some(id) => match first_meta_with_id(
                    concat_files(self.snapshot_view().files, file_function_meta()),
                    id,
                ) {
                    None => r.is_none(),
                    Some(m) => r.is_some() && r.unwrap()@ == contract_of(m),
                },
            },
    {
        let snapshot = self.indexer.store().snapshot();
        let id = match symbol_at_position(snapshot, path, line, col) {
            None => {
                return None;
            },
            Some(id) => id,
        };
        let ghost files = snapshot@.files;
        let mut i: usize = 0;
        assert(files.take(0) =~= Seq::<(Seq<char>, FileIndexView)>::empty());
        while i < snapshot.files.len()
            invariant
                files == snapshot@.files,
                files == self.snapshot_view().files,
                i <= files.len(),
                first_meta_with_id(concat_files(files.take(i as int), file_function_meta()), id).is_none(),
                Some(id) == symbol_at_spec(self.snapshot_view(), path@, line as int, col as int),
            decreases snapshot.files.len() - i,
        {
            let fi = &snapshot.files[i].1;
            assert(files[i as int].1 == fi@);
            assert(files.take(i + 1).drop_last() =~= files.take(i as int));
            assert(files.take(i + 1).last() == files[i as int]);
            let ghost base = concat_files(files.take(i as int), file_function_meta());
            proof {
                lemma_first_meta_append(base, fi@.function_meta, id);
            }
            let mut j: usize = 0;
            assert(fi@.function_meta.skip(0) =~= fi@.function_meta);
            while j < fi.function_meta.len()
                invariant
                    files == snapshot@.files,
                    files == self.snapshot_view().files,
                    i < files.len(),
                    files[i as int].1 == fi@,
                    base == concat_files(files.take(i as int), file_function_meta()),
                    first_meta_with_id(base, id).is_none(),
                    first_meta_with_id(base + fi@.function_meta, id) == first_meta_with_id(
                        fi@.function_meta,
                        id,
                    ),
                    concat_files(files.take(i + 1), file_function_meta()) == base + fi@.function_meta,
                    Some(id) == symbol_at_spec(self.snapshot_view(), path@, line as int, col as int),
                    j <= fi@.function_meta.len(),
                    first_meta_with_id(fi@.function_meta, id) == first_meta_with_id(
                        fi@.function_meta.skip(j as int),
                        id,
                    ),
                decreases fi.function_meta.len() - j,
            {
                let m = &fi.function_meta[j];
                assert(fi@.function_meta.skip(j as int)[0] == m@);
                if m.symbol_id.0 == id.0 {
                    proof {
                        assert(files =~= files.take(i + 1) + files.skip(i + 1));
                        crate::indexer::queries::lemma_concat_files_append(
                            files.take(i + 1),
                            files.skip(i + 1),
                            file_function_meta(),
                        );
                        lemma_first_meta_append(
                            concat_files(files.take(i + 1), file_function_meta()),
                            concat_files(files.skip(i + 1), file_function_meta()),
                            id,
                        );
                    }
                    return Some(
                        ContractMetadata {
                            function_name: m.function_name.clone(),
                            file: m.file.clone(),
                            intent_text: copy_opt_string(&m.intent_text),
                            effects_declared: copy_strings(&m.effects_declared),
                            effects_observed: copy_strings(&m.effects_observed),
                            has_examples: m.has_examples,
                            is_public: m.is_public,
                        },
                    );
                }
                assert(fi@.function_meta.skip(j as int).drop_first() =~= fi@.function_meta.skip(j + 1));
                j = j + 1;
            }
            assert(fi@.function_meta.skip(fi@.function_meta.len() as int) =~= Seq::<FunctionMetaView>::empty());
            i = i + 1;
        }
        assert(files.take(files.len() as int) =~= files);
        None
    }

    /// One quick fix per distinct diagnostic code of a file, in the order
    /// the diagnostics call for them.
    pub fn code_actions(&self, path: &str) -> (r: Vec<CodeActionSuggestion>)
        ensures
            views(r@) == actions_for(
                match entry_for(self.snapshot_view().files, path@) {
                    Some(f) => f.diagnostics,
                    None => Seq::empty(),
                },
            ),
    {
        let diagnostics = self.diagnostics_for_file(path);
        let ghost dv = views(diagnostics@);
        let mut out: Vec<CodeActionSuggestion> = Vec::new();
        let mut i: usize = 0;
        assert(dv.take(0) =~= Seq::<IndexedDiagnosticView>::empty());
        while i < diagnostics.len()
            invariant
                dv == views(diagnostics@),
                i <= dv.len(),
                views(out@) == actions_for(dv.take(i as int)),
            decreases diagnostics.len() - i,
        {
            let d = &diagnostics[i];
            assert(dv[i as int] == d@);
            assert(dv.take(i + 1).drop_last() =~= dv.take(i as int));
            assert(dv.take(i + 1).last() == d@);
            let title = action_title_exec(d.code.as_str());
            let ghost prev = views(out@);
            let mut seen = false;
            let mut k: usize = 0;
            while k < out.len()
                invariant
                    prev == views(out@),
                    k <= prev.len(),
                    seen == exists|q: int| 0 <= q < k && #[trigger] prev[q].title == title@ && prev[q].code == d@.code,
                decreases out.len() - k,
            {
                assert(prev[k as int] == out@[k as int]@);
                assert(prev[k as int].title == out@[k as int].title@);
                if str_eq(out[k].title.as_str(), title) && str_eq(out[k].code.as_str(), d.code.as_str()) {
                    seen = true;
                }
                k = k + 1;
            }
            if !seen {
                out.push(
                    CodeActionSuggestion {
                        title: to_owned_string(title),
                        kind: to_owned_string("quickfix"),
                        code: d.code.clone(),
                    },
                );
                assert(views(out@) =~= prev.push(
                    CodeActionView { title: action_title(d@.code), kind: "quickfix"@, code: d@.code },
                ));
            }
            i = i + 1;
        }
        assert(dv.take(dv.len() as int) =~= dv);
        out
    }
}


/// A new name must start with an ASCII letter or `_` and go on with ASCII
/// letters, digits and `_`.
pub open spec fn is_valid_identifier_spec(t: Seq<char>) -> bool {
    &&& t.len() > 0
    &&& crate::lexer::is_ident_start_spec(t[0])
    &&& forall|i: int| 1 <= i < t.len() ==> crate::lexer::is_ident_continue_spec(#[trigger] t[i])
}

/// Whether `text` can be a new name.
pub fn is_valid_identifier(text: &str) -> (r: bool)
    ensures
        r == is_valid_identifier_spec(text@),
{
    let cs = crate::text::chars_of(text);
    if cs.len() == 0 {
        return false;
    }
    let first = cs[0];
    if !(('a' <= first && first <= 'z') || ('A' <= first && first <= 'Z') || first == '_') {
        return false;
    }
    let mut i: usize = 1;
    while i < cs.len()
        invariant
            cs@ == text@,
            1 <= i <= cs@.len(),
            forall|k: int| 1 <= k < i ==> crate::lexer::is_ident_continue_spec(#[trigger] cs@[k]),
        decreases cs.len() - i,
    {
        let c = cs[i];
        if !(('a' <= c && c <= 'z') || ('A' <= c && c <= 'Z') || c == '_' || ('0' <= c && c <= '9')) {
            return false;
        }
        i = i + 1;
    }
    true
}

pub struct RenameEditView {
    pub file: Seq<char>,
    pub span: IndexSpan,
    pub new_text: Seq<char>,
}

impl View for RenameEdit {
    type V = RenameEditView;

    open spec fn view(&self) -> RenameEditView {
        RenameEditView { file: self.file@, span: self.span, new_text: self.new_text@ }
    }
}

pub open spec fn rename_edit_key(e: RenameEditView) -> Seq<KeyAtom> {
    seq![KeyAtom::Text(e.file)] + crate::indexer::model::span_atoms(e.span)
}

/// Edits by file and span.
pub struct RenameEditOrder;

impl TotalPreorder<RenameEdit> for RenameEditOrder {
    open spec fn le(a: RenameEditView, b: RenameEditView) -> bool {
        key_le(rename_edit_key(a), rename_edit_key(b))
    }

    proof fn lemma_total(a: RenameEditView, b: RenameEditView) {
        lemma_key_le_total(rename_edit_key(a), rename_edit_key(b));
    }

    proof fn lemma_transitive(a: RenameEditView, b: RenameEditView, c: RenameEditView) {
        lemma_key_le_transitive(rename_edit_key(a), rename_edit_key(b), rename_edit_key(c));
    }

    fn le_exec(a: &RenameEdit, b: &RenameEdit) -> (r: bool) {
        let ka = vec![
            KeyPart::Text(a.file.as_str()),
            KeyPart::Num(a.span.line_start as u64),
            KeyPart::Num(a.span.col_start as u64),
            KeyPart::Num(a.span.line_end as u64),
            KeyPart::Num(a.span.col_end as u64),
        ];
        let kb = vec![
            KeyPart::Text(b.file.as_str()),
            KeyPart::Num(b.span.line_start as u64),
            KeyPart::Num(b.span.col_start as u64),
            KeyPart::Num(b.span.line_end as u64),
            KeyPart::Num(b.span.col_end as u64),
        ];
        assert(views(ka@) =~= rename_edit_key(a@));
        assert(views(kb@) =~= rename_edit_key(b@));
        !key_less(kb.as_slice(), ka.as_slice())
    }
}

/// The edits in order with repeated locations (file and span) dropped;
/// the first one stays.
pub open spec fn dedup_locations(edits: Seq<RenameEditView>) -> Seq<RenameEditView>
    decreases edits.len(),
{
    if edits.len() == 0 {
        edits
    } else {
        let prev = dedup_locations(edits.drop_last());
        let e = edits.last();
        if exists|k: int| 0 <= k < prev.len() && #[trigger] prev[k].file == e.file && prev[k].span == e.span {
            prev
        } else {
            prev.push(e)
        }
    }
}

/// The rename candidates: the definition (if any) and then the references.
pub open spec fn rename_candidates(
    def: Option<SymbolView>,
    refs: Seq<crate::indexer::model::ReferenceView>,
    new_name: Seq<char>,
) -> Seq<RenameEditView> {
    (match def {
        Some(d) => seq![RenameEditView { file: d.file, span: d.span, new_text: new_name }],
        None => Seq::empty(),
    }) + refs.map_values(
        |r: crate::indexer::model::ReferenceView| RenameEditView { file: r.file, span: r.span, new_text: new_name },
    )
}

impl LspSession {
    /// The edits that rename the symbol at a position: its definition and
    /// references, each location once, ordered by file and span. `None` for
    /// an invalid new name, no symbol there, or nothing to edit.
    pub fn rename(&self, path: &str, line: usize, col: usize, new_name: &str) -> (r: Option<RenameResult>)
        requires
            is_valid_identifier_spec(new_name@) ==> position_spans_defined(
                self.snapshot_view(),
                path@,
                line as int,
                col as int,
            ),
        ensures
            !is_valid_identifier_spec(new_name@) ==> r.is_none(),
            is_valid_identifier_spec(new_name@) ==> match symbol_at_spec(
                self.snapshot_view(),
                path@,
                line as int,
                col as int,
            ) {
                None => r.is_none(),
                Some(id) => exists|refs: Seq<crate::indexer::model::ReferenceView>|
                    #![trigger is_stable_sort_of::<
                        crate::indexer::model::Reference,
                        crate::indexer::model::ReferenceOrder,
                    >(references_to(self.snapshot_view(), id), refs)]
                    {
                        let cands = dedup_locations(
                            rename_candidates(
                                first_with_id(concat_files(self.snapshot_view().files, file_symbols()), id),
                                refs,
                                new_name@,
                            ),
                        );
                        &&& is_stable_sort_of::<
                            crate::indexer::model::Reference,
                            crate::indexer::model::ReferenceOrder,
                        >(references_to(self.snapshot_view(), id), refs)
                        &&& (cands.len() == 0 ==> r.is_none())
                        &&& (cands.len() > 0 ==> r.is_some() && is_stable_sort_of::<
                            RenameEdit,
                            RenameEditOrder,
                        >(cands, views(r.unwrap().edits@)))
                    },
            },
    {
        if !is_valid_identifier(new_name) {
            return None;
        }
        let snapshot = self.indexer.store().snapshot();
        let id = match symbol_at_position(snapshot, path, line, col) {
            None => {
                return None;
            },
            Some(id) => id,
        };
        let def = crate::indexer::queries::definition_of_id(snapshot, id);
        let refs = crate::indexer::queries::find_references(snapshot, id);
        let ghost rv = views(refs@);
        let ghost defv = match &def {
            Some(d) => Some(d@),
            None => None,
        };
        let ghost cands = rename_candidates(defv, rv, new_name@);
        let mut all: Vec<RenameEdit> = Vec::new();
        match &def {
            Some(d) => {
                all.push(RenameEdit { file: d.file.clone(), span: d.span, new_text: to_owned_string(new_name) });
            },
            None => {},
        }
        let base = all.len();
        assert(views(all@) =~= cands.take(base as int));
        let mut i: usize = 0;
        while i < refs.len()
            invariant
                rv == views(refs@),
                cands == rename_candidates(defv, rv, new_name@),
                base <= 1,
                base == (if defv.is_some() { 1int } else { 0int }),
                i <= rv.len(),
                cands.len() == base + rv.len(),
                views(all@) == cands.take(base + i),
            decreases refs.len() - i,
        {
            let ghost before = views(all@);
            all.push(RenameEdit { file: refs[i].file.clone(), span: refs[i].span, new_text: to_owned_string(new_name) });
            assert(rv[i as int] == refs@[i as int]@);
            assert(cands[base + i] == RenameEditView { file: rv[i as int].file, span: rv[i as int].span, new_text: new_name@ });
            assert(cands.take(base + i + 1) =~= cands.take(base + i).push(cands[base + i]));
            assert(views(all@) =~= before.push(cands[base + i]));
            i = i + 1;
        }
        assert(cands.take(cands.len() as int) =~= cands);
        let edits = dedup_edits(all);
        if edits.len() == 0 {
            return None;
        }
        Some(RenameResult { edits: stable_sort::<RenameEdit, RenameEditOrder>(edits) })
    }
}

fn dedup_edits(all: Vec<RenameEdit>) -> (r: Vec<RenameEdit>)
    ensures
        views(r@) == dedup_locations(views(all@)),
{
    let ghost av = views(all@);
    let mut out: Vec<RenameEdit> = Vec::new();
    let mut i: usize = 0;
    assert(av.take(0) =~= Seq::<RenameEditView>::empty());
    while i < all.len()
        invariant
            av == views(all@),
            i <= av.len(),
            views(out@) == dedup_locations(av.take(i as int)),
        decreases all.len() - i,
    {
        let e = &all[i];
        assert(av[i as int] == e@);
        assert(av.take(i + 1).drop_last() =~= av.take(i as int));
        assert(av.take(i + 1).last() == e@);
        let ghost prev = views(out@);
        let mut seen = false;
        let mut k: usize = 0;
        while k < out.len()
            invariant
                prev == views(out@),
                k <= prev.len(),
                seen == exists|q: int| 0 <= q < k && #[trigger] prev[q].file == e@.file && prev[q].span == e@.span,
            decreases out.len() - k,
        {
            assert(prev[k as int] == out@[k as int]@);
            assert(prev[k as int].file == out@[k as int].file@);
            if str_eq(out[k].file.as_str(), e.file.as_str()) && out[k].span == e.span {
                seen = true;
            }
            k = k + 1;
        }
        if !seen {
            out.push(RenameEdit { file: e.file.clone(), span: e.span, new_text: e.new_text.clone() });
            assert(views(out@) =~= prev.push(e@));
        }
        i = i + 1;
    }
    assert(av.take(av.len() as int) =~= av);
    out
}


pub struct CompletionEntryView {
    pub label: Seq<char>,
    pub kind: Seq<char>,
    pub detail: Option<Seq<char>>,
}

impl View for CompletionEntry {
    type V = CompletionEntryView;

    open spec fn view(&self) -> CompletionEntryView {
        CompletionEntryView { label: self.label@, kind: self.kind@, detail: opt_text(self.detail) }
    }
}

/// The keywords offered as completions, in the order they are offered.
pub open spec fn completion_keywords() -> Seq<Seq<char>> {
    seq![
        "module"@, "import"@, "type"@, "pub"@, "async"@, "mut"@, "const"@, "return"@, "if"@,
        "else"@, "for"@, "in"@, "while"@, "repeat"@, "match"@, "case"@, "default"@, "select"@,
        "after"@, "closed"@, "go"@, "thread"@, "break"@, "continue"@, "await"@, "none"@,
        "true"@, "false"@,
    ]
}

/// The builtin type names offered as completions, in order.
pub open spec fn completion_types() -> Seq<Seq<char>> {
    seq![
        "Int"@, "Float"@, "Bool"@, "Str"@, "Char"@, "List"@, "Map"@, "Chan"@, "Result"@,
        "Option"@,
    ]
}

/// The completion kind of an indexed symbol.
pub open spec fn symbol_completion_kind(kind: SymbolKind) -> Seq<char> {
    match kind {
        SymbolKind::Function => "function"@,
        SymbolKind::Param => "variable"@,
        SymbolKind::Local => "variable"@,
        SymbolKind::Contract => "contract"@,
        SymbolKind::Effect => "effect"@,
    }
}

pub open spec fn keyword_entry(w: Seq<char>) -> CompletionEntryView {
    CompletionEntryView { label: w, kind: "keyword"@, detail: Some("language keyword"@) }
}

pub open spec fn type_entry(w: Seq<char>) -> CompletionEntryView {
    CompletionEntryView { label: w, kind: "type"@, detail: Some("builtin type"@) }
}

pub open spec fn symbol_entry(s: SymbolView) -> CompletionEntryView {
    CompletionEntryView {
        label: s.name,
        kind: symbol_completion_kind(s.kind),
        detail: Some("indexed symbol"@),
    }
}

/// Every completion candidate in the order it is considered: keywords,
/// builtin types, then the indexed symbols file by file.
pub open spec fn completion_candidates(
    snapshot: crate::indexer::model::IndexSnapshotView,
) -> Seq<CompletionEntryView> {
    completion_keywords().map_values(|w: Seq<char>| keyword_entry(w)) + completion_types().map_values(
        |w: Seq<char>| type_entry(w),
    ) + concat_files(snapshot.files, file_symbols()).map_values(|s: SymbolView| symbol_entry(s))
}

/// A candidate is offered when there is no prefix or its label starts with it.
pub open spec fn offered(e: CompletionEntryView, prefix: Seq<char>) -> bool {
    prefix.len() == 0 || crate::mir::starts_with(e.label, prefix)
}

/// The entries in order with repeated labels dropped; the first one stays.
pub open spec fn first_by_label(entries: Seq<CompletionEntryView>) -> Seq<CompletionEntryView>
    decreases entries.len(),
{
    if entries.len() == 0 {
        entries
    } else {
        let prev = first_by_label(entries.drop_last());
        let e = entries.last();
        if exists|k: int| 0 <= k < prev.len() && #[trigger] prev[k].label == e.label {
            prev
        } else {
            prev.push(e)
        }
    }
}

/// The identifier text before the cursor in the open document at `path`;
/// empty when the document is not open or the position is not in it.
pub open spec fn completion_prefix(
    docs: Seq<(Seq<char>, Seq<char>, i64)>,
    path: Seq<char>,
    line: int,
    col: int,
) -> Seq<char> {
    match doc_text(docs, path) {
        Some(t) => match crate::lsp::position::identifier_prefix(t, line, col) {
            Some(p) => p,
            None => Seq::empty(),
        },
        None => Seq::empty(),
    }
}

/// Completion entries by label.
pub struct CompletionLabelOrder;

impl TotalPreorder<CompletionEntry> for CompletionLabelOrder {
    open spec fn le(a: CompletionEntryView, b: CompletionEntryView) -> bool {
        crate::order::str_le(a.label, b.label)
    }

    proof fn lemma_total(a: CompletionEntryView, b: CompletionEntryView) {
        crate::order::lemma_str_le_total(a.label, b.label);
    }

    proof fn lemma_transitive(a: CompletionEntryView, b: CompletionEntryView, c: CompletionEntryView) {
        crate::order::lemma_str_le_transitive(a.label, b.label, c.label);
    }

    fn le_exec(a: &CompletionEntry, b: &CompletionEntry) -> (r: bool) {
        !crate::order::str_less(b.label.as_str(), a.label.as_str())
    }
}

fn completion_entry(label: &str, kind: &str, detail: &str) -> (r: CompletionEntry)
    ensures
        r@ == (CompletionEntryView { label: label@, kind: kind@, detail: Some(detail@) }),
{
    CompletionEntry {
        label: to_owned_string(label),
        kind: to_owned_string(kind),
        detail: Some(to_owned_string(detail)),
    }
}

fn symbol_completion_kind_exec(kind: SymbolKind) -> (r: &'static str)
    ensures
        r@ == symbol_completion_kind(kind),
{
    match kind {
        SymbolKind::Function => "function",
        SymbolKind::Param => "variable",
        SymbolKind::Local => "variable",
        SymbolKind::Contract => "contract",
        SymbolKind::Effect => "effect",
    }
}

fn completion_candidate_list(snapshot: &crate::indexer::model::IndexSnapshot) -> (r: Vec<
    CompletionEntry,
>)
    ensures
        views(r@) == completion_candidates(snapshot@),
{
    let keywords: Vec<&str> = vec![
        "module", "import", "type", "pub", "async", "mut", "const", "return", "if", "else", "for",
        "in", "while", "repeat", "match", "case", "default", "select", "after", "closed", "go",
        "thread", "break", "continue", "await", "none", "true", "false",
    ];
    let types: Vec<&str> = vec![
        "Int", "Float", "Bool", "Str", "Char", "List", "Map", "Chan", "Result", "Option",
    ];
    assert(views(keywords@) =~= completion_keywords());
    assert(views(types@) =~= completion_types());
    let ghost kw = completion_keywords().map_values(|w: Seq<char>| keyword_entry(w));
    let ghost ty = completion_types().map_values(|w: Seq<char>| type_entry(w));
    let mut out: Vec<CompletionEntry> = Vec::new();
    let mut i: usize = 0;
    while i < keywords.len()
        invariant
            views(keywords@) == completion_keywords(),
            kw == completion_keywords().map_values(|w: Seq<char>| keyword_entry(w)),
            i <= keywords@.len(),
            views(out@) == kw.take(i as int),
        decreases keywords.len() - i,
    {
        let e = completion_entry(keywords[i], "keyword", "language keyword");
        let ghost before = views(out@);
        out.push(e);
        assert(views(keywords@)[i as int] == keywords@[i as int]@);
        assert(views(out@) =~= before.push(kw[i as int]));
        assert(kw.take(i + 1) =~= kw.take(i as int).push(kw[i as int]));
        i = i + 1;
    }
    assert(kw.take(kw.len() as int) =~= kw);
    let mut i: usize = 0;
    while i < types.len()
        invariant
            views(types@) == completion_types(),
            ty == completion_types().map_values(|w: Seq<char>| type_entry(w)),
            i <= types@.len(),
            views(out@) == kw + ty.take(i as int),
        decreases types.len() - i,
    {
        let e = completion_entry(types[i], "type", "builtin type");
        let ghost before = views(out@);
        out.push(e);
        assert(views(types@)[i as int] == types@[i as int]@);
        assert(views(out@) =~= before.push(ty[i as int]));
        assert(kw + ty.take(i + 1) =~= (kw + ty.take(i as int)).push(ty[i as int]));
        i = i + 1;
    }
    assert(ty.take(ty.len() as int) =~= ty);
    let ghost files = snapshot@.files;
    let ghost f = |s: SymbolView| symbol_entry(s);
    let mut i: usize = 0;
    assert(files.take(0) =~= Seq::<(Seq<char>, FileIndexView)>::empty());
    assert(concat_files(files.take(0), file_symbols()).map_values(f) =~= Seq::<CompletionEntryView>::empty());
    assert(kw + ty + Seq::<CompletionEntryView>::empty() =~= kw + ty);
    while i < snapshot.files.len()
        invariant
            files == snapshot@.files,
            f == (|s: SymbolView| symbol_entry(s)),
            i <= files.len(),
            views(out@) == kw + ty + concat_files(files.take(i as int), file_symbols()).map_values(f),
        decreases snapshot.files.len() - i,
    {
        let fi = &snapshot.files[i].1;
        assert(files[i as int].1 == fi@);
        let ghost base = kw + ty + concat_files(files.take(i as int), file_symbols()).map_values(f);
        let mut j: usize = 0;
        assert(fi@.symbols.take(0).map_values(f) =~= Seq::<CompletionEntryView>::empty());
        assert(base + fi@.symbols.take(0).map_values(f) =~= base);
        while j < fi.symbols.len()
            invariant
                fi@ == files[i as int].1,
                f == (|s: SymbolView| symbol_entry(s)),
                j <= fi@.symbols.len(),
                views(out@) == base + fi@.symbols.take(j as int).map_values(f),
            decreases fi.symbols.len() - j,
        {
            let s = &fi.symbols[j];
            assert(fi@.symbols[j as int] == s@);
            let e = completion_entry(s.name.as_str(), symbol_completion_kind_exec(s.kind), "indexed symbol");
            let ghost before = views(out@);
            out.push(e);
            assert(views(out@) =~= before.push(f(s@)));
            assert(fi@.symbols.take(j + 1).map_values(f) =~= fi@.symbols.take(j as int).map_values(f).push(
                f(s@),
            ));
            assert(base + fi@.symbols.take(j + 1).map_values(f) =~= (base + fi@.symbols.take(
                j as int,
            ).map_values(f)).push(f(s@)));
            j = j + 1;
        }
        assert(fi@.symbols.take(fi@.symbols.len() as int) =~= fi@.symbols);
        assert(files.take(i + 1).drop_last() =~= files.take(i as int));
        assert(files.take(i + 1).last() == files[i as int]);
        assert(concat_files(files.take(i + 1), file_symbols()) == concat_files(files.take(i as int), file_symbols())
            + fi@.symbols);
        assert((concat_files(files.take(i as int), file_symbols()) + fi@.symbols).map_values(f)
            =~= concat_files(files.take(i as int), file_symbols()).map_values(f) + fi@.symbols.map_values(f));
        assert(kw + ty + concat_files(files.take(i + 1), file_symbols()).map_values(f) =~= base
            + fi@.symbols.map_values(f));
        i = i + 1;
    }
    assert(files.take(files.len() as int) =~= files);
    out
}

fn offered_exec(label: &str, prefix: &str) -> (r: bool)
    ensures
        r == (prefix@.len() == 0 || crate::mir::starts_with(label@, prefix@)),
{
    if prefix.is_empty() {
        return true;
    }
    let cs = crate::text::chars_of(label);
    crate::mir::starts_with_str(cs.as_slice(), prefix)
}

fn has_label(picked: &Vec<CompletionEntry>, label: &str) -> (r: bool)
    ensures
        r == exists|k: int| 0 <= k < picked@.len() && #[trigger] views(picked@)[k].label == label@,
{
    let ghost pv = views(picked@);
    let mut k: usize = 0;
    while k < picked.len()
        invariant
            pv == views(picked@),
            k <= pv.len(),
            forall|q: int| 0 <= q < k ==> #[trigger] pv[q].label != label@,
        decreases picked.len() - k,
    {
        assert(pv[k as int] == picked@[k as int]@);
        if str_eq(picked[k].label.as_str(), label) {
            assert(pv[k as int].label == label@);
            return true;
        }
        k = k + 1;
    }
    false
}

/// The candidates that `prefix` offers, each label once (the first
/// candidate with it).
fn pick_offered(cands: &Vec<CompletionEntry>, prefix: &str) -> (r: Vec<CompletionEntry>)
    ensures
        views(r@) == first_by_label(
            crate::indexer::queries::keep(views(cands@), |e: CompletionEntryView| offered(e, prefix@)),
        ),
{
    let ghost cv = views(cands@);
    let ghost p = |e: CompletionEntryView| offered(e, prefix@);
    let mut picked: Vec<CompletionEntry> = Vec::new();
    let mut k: usize = 0;
    assert(cv.take(0) =~= Seq::<CompletionEntryView>::empty());
    while k < cands.len()
        invariant
            cv == views(cands@),
            p == (|e: CompletionEntryView| offered(e, prefix@)),
            k <= cv.len(),
            views(picked@) == first_by_label(crate::indexer::queries::keep(cv.take(k as int), p)),
        decreases cands.len() - k,
    {
        let e = &cands[k];
        assert(cv[k as int] == e@);
        proof {
            crate::indexer::queries::lemma_keep_step(cv, p, k as int);
        }
        if offered_exec(e.label.as_str(), prefix) {
            let ghost kept = crate::indexer::queries::keep(cv.take(k as int), p);
            assert(kept.push(e@).drop_last() =~= kept);
            assert(kept.push(e@).last() == e@);
            if !has_label(&picked, e.label.as_str()) {
                let ghost before = views(picked@);
                picked.push(
                    CompletionEntry {
                        label: e.label.clone(),
                        kind: e.kind.clone(),
                        detail: copy_opt_string(&e.detail),
                    },
                );
                assert(views(picked@) =~= before.push(e@));
            }
        }
        k = k + 1;
    }
    assert(cv.take(cv.len() as int) =~= cv);
    picked
}

impl LspSession {
    /// The index store behind the session.
    pub fn store(&self) -> (r: &IndexStore)
        ensures
            r.snapshot_view() == self.snapshot_view(),
            r.root_view() == self.store_root(),
            r.recovered_view() == self.recovered(),
    {
        self.indexer.store()
    }

    /// Whether the spans of `path` at (line, col) have a computable area,
    /// as the position queries need.
    pub fn position_spans_ok(&self, path: &str, line: usize, col: usize) -> (r: bool)
        ensures
            r == position_spans_defined(self.snapshot_view(), path@, line as int, col as int),
    {
        crate::indexer::queries::check_position_spans_defined(
            self.indexer.store().snapshot(),
            path,
            line,
            col,
        )
    }

    /// Whether `completion` can be asked at this position: in an open
    /// document, the position must not fall inside a character.
    pub open spec fn completion_position_ok_spec(&self, path: Seq<char>, line: int, col: int) -> bool {
        match doc_text(self.docs_view(), path) {
            Some(t) => crate::lsp::position::position_on_char_boundary(t, line, col),
            None => true,
        }
    }

    /// Tests `completion_position_ok_spec`.
    pub fn completion_position_ok(&self, path: &str, line: usize, col: usize) -> (r: bool)
        ensures
            r == self.completion_position_ok_spec(path@, line as int, col as int),
    {
        match self.doc_position(path) {
            None => true,
            Some(i) => crate::lsp::position::position_on_boundary(self.open_docs[i].text.as_str(), line, col),
        }
    }

    /// Completions at a position: keywords, builtin types and indexed
    /// symbols whose label starts with the identifier text before the
    /// cursor, each label once (the first candidate with it), by label.
    pub fn completion(&self, path: &str, line: usize, col: usize) -> (r: Vec<CompletionEntry>)
        requires
            self.completion_position_ok_spec(path@, line as int, col as int),
        ensures
            is_stable_sort_of::<CompletionEntry, CompletionLabelOrder>(
                first_by_label(
                    crate::indexer::queries::keep(
                        completion_candidates(self.snapshot_view()),
                        |e: CompletionEntryView|
                            offered(e, completion_prefix(self.docs_view(), path@, line as int, col as int)),
                    ),
                ),
                views(r@),
            ),
    {
        let prefix = match self.doc_position(path) {
            None => String::new(),
            Some(i) => match crate::lsp::position::identifier_prefix_at_position(
                self.open_docs[i].text.as_str(),
                line,
                col,
            ) {
                Some(p) => p,
                None => String::new(),
            },
        };
        assert(prefix@ == completion_prefix(self.docs_view(), path@, line as int, col as int));
        let cands = completion_candidate_list(self.indexer.store().snapshot());
        let picked = pick_offered(&cands, prefix.as_str());
        stable_sort::<CompletionEntry, CompletionLabelOrder>(picked)
    }
}

} // verus!
