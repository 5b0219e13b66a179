use vstd::prelude::*;

use crate::indexer::model::{
    span_area, span_area_defined, span_contains, EffectMismatch, EffectMismatchOrder,
    EffectMismatchView, FileIndexView, FunctionMeta, FunctionMetaOrder, FunctionMetaView,
    IndexSnapshot, IndexSnapshotView, Reference, ReferenceOrder, ReferenceView, Symbol, SymbolId,
    SymbolQueryOrder, SymbolView,
};
use crate::order::{is_stable_sort_of, stable_sort, views};
use crate::text::{contains_sub, contains_str, lowercase, str_eq, to_lowercase};

verus! {

/// The items of `s` that satisfy `p`, in order.
pub open spec fn keep<A>(s: Seq<A>, p: spec_fn(A) -> bool) -> Seq<A>
    decreases s.len(),
{
    if s.len() == 0 {
        s
    } else if p(s.last()) {
        keep(s.drop_last(), p).push(s.last())
    } else {
        keep(s.drop_last(), p)
    }
}

pub proof fn lemma_keep_append<A>(a: Seq<A>, b: Seq<A>, p: spec_fn(A) -> bool)
    ensures
        keep(a + b, p) == keep(a, p) + keep(b, p),
    decreases b.len(),
{
    if b.len() == 0 {
        assert(a + b =~= a);
        assert(keep(a, p) + keep(b, p) =~= keep(a, p));
    } else {
        lemma_keep_append(a, b.drop_last(), p);
        assert((a + b).drop_last() =~= a + b.drop_last());
        assert((a + b).last() == b.last());
        if p(b.last()) {
            assert(keep(a, p) + keep(b.drop_last(), p).push(b.last()) =~= (keep(a, p) + keep(
                b.drop_last(),
                p,
            )).push(b.last()));
        }
    }
}

/// What `f` gives for each file, one file after the other, in key order.
pub open spec fn concat_files<A>(
    files: Seq<(Seq<char>, FileIndexView)>,
    f: spec_fn(FileIndexView) -> Seq<A>,
) -> Seq<A>
    decreases files.len(),
{
    if files.len() == 0 {
        Seq::empty()
    } else {
        concat_files(files.drop_last(), f) + f(files.last().1)
    }
}

pub proof fn lemma_concat_step<A>(
    files: Seq<(Seq<char>, FileIndexView)>,
    f: spec_fn(FileIndexView) -> Seq<A>,
    p: spec_fn(A) -> bool,
    i: int,
)
    requires
        0 <= i < files.len(),
    ensures
        keep(concat_files(files.take(i + 1), f), p) == keep(concat_files(files.take(i), f), p)
            + keep(f(files[i].1), p),
{
    assert(files.take(i + 1).drop_last() =~= files.take(i));
    assert(files.take(i + 1).last() == files[i]);
    lemma_keep_append(concat_files(files.take(i), f), f(files[i].1), p);
}

pub proof fn lemma_keep_step<A>(s: Seq<A>, p: spec_fn(A) -> bool, j: int)
    requires
        0 <= j < s.len(),
    ensures
        keep(s.take(j + 1), p) == if p(s[j]) {
            keep(s.take(j), p).push(s[j])
        } else {
            keep(s.take(j), p)
        },
{
    assert(s.take(j + 1).drop_last() =~= s.take(j));
    assert(s.take(j + 1).last() == s[j]);
}

pub open spec fn file_symbols() -> spec_fn(FileIndexView) -> Seq<SymbolView> {
    |f: FileIndexView| f.symbols
}

pub open spec fn file_references() -> spec_fn(FileIndexView) -> Seq<ReferenceView> {
    |f: FileIndexView| f.references
}

pub open spec fn file_function_meta() -> spec_fn(FileIndexView) -> Seq<FunctionMetaView> {
    |f: FileIndexView| f.function_meta
}

pub open spec fn file_effect_mismatches() -> spec_fn(FileIndexView) -> Seq<EffectMismatchView> {
    |f: FileIndexView| f.effect_mismatches
}

/// The symbols named `name`, over all files.
pub open spec fn symbols_named(snapshot: IndexSnapshotView, name: Seq<char>) -> Seq<SymbolView> {
    keep(concat_files(snapshot.files, file_symbols()), |s: SymbolView| s.name == name)
}

/// Every symbol called `name`, ordered by file, span, name and id.
pub fn find_symbol(snapshot: &IndexSnapshot, name: &str) -> (r: Vec<Symbol>)
    ensures
        is_stable_sort_of::<Symbol, SymbolQueryOrder>(symbols_named(snapshot@, name@), views(r@)),
{
    let ghost files = snapshot@.files;
    let ghost p = |s: SymbolView| s.name == name@;
    let mut out: Vec<Symbol> = Vec::new();
    let mut i: usize = 0;
    assert(files.take(0) =~= Seq::<(Seq<char>, FileIndexView)>::empty());
    while i < snapshot.files.len()
        invariant
            files == snapshot@.files,
            i <= files.len(),
            p == (|s: SymbolView| s.name == name@),
            views(out@) == keep(concat_files(files.take(i as int), file_symbols()), p),
        decreases snapshot.files.len() - i,
    {
        let fi = &snapshot.files[i].1;
        assert(files[i as int].1 == fi@);
        proof {
            lemma_concat_step(files, file_symbols(), p, i as int);
        }
        let ghost base = views(out@);
        let mut j: usize = 0;
        assert(fi@.symbols.take(0) =~= Seq::<SymbolView>::empty());
        while j < fi.symbols.len()
            invariant
                j <= fi.symbols@.len(),
                p == (|s: SymbolView| s.name == name@),
                views(out@) == base + keep(fi@.symbols.take(j as int), p),
            decreases fi.symbols.len() - j,
        {
            let s = &fi.symbols[j];
            assert(fi@.symbols[j as int] == s@);
            proof {
                lemma_keep_step(fi@.symbols, p, j as int);
            }
            if str_eq(s.name.as_str(), name) {
                let ghost prev = views(out@);
                out.push(s.copy());
                assert(views(out@) =~= prev.push(s@));
                assert(base + keep(fi@.symbols.take(j as int), p).push(s@) =~= prev.push(s@));
            }
            j = j + 1;
        }
        assert(fi@.symbols.take(fi@.symbols.len() as int) =~= fi@.symbols);
        i = i + 1;
    }
    assert(files.take(files.len() as int) =~= files);
    stable_sort::<Symbol, SymbolQueryOrder>(out)
}


/// The references to `id`, over all files.
pub open spec fn references_to(snapshot: IndexSnapshotView, id: SymbolId) -> Seq<ReferenceView> {
    keep(concat_files(snapshot.files, file_references()), |r: ReferenceView| r.symbol_id == id)
}

/// Every reference to `symbol_id`, ordered by file, span and id.
pub fn find_references(snapshot: &IndexSnapshot, symbol_id: SymbolId) -> (r: Vec<Reference>)
    ensures
        is_stable_sort_of::<Reference, ReferenceOrder>(
            references_to(snapshot@, symbol_id),
            views(r@),
        ),
{
    let ghost files = snapshot@.files;
    let ghost p = |r: ReferenceView| r.symbol_id == symbol_id;
    let mut out: Vec<Reference> = Vec::new();
    let mut i: usize = 0;
    assert(files.take(0) =~= Seq::<(Seq<char>, FileIndexView)>::empty());
    while i < snapshot.files.len()
        invariant
            files == snapshot@.files,
            i <= files.len(),
            p == (|r: ReferenceView| r.symbol_id == symbol_id),
            views(out@) == keep(concat_files(files.take(i as int), file_references()), p),
        decreases snapshot.files.len() - i,
    {
        let fi = &snapshot.files[i].1;
        assert(files[i as int].1 == fi@);
        proof {
            lemma_concat_step(files, file_references(), p, i as int);
        }
        let ghost base = views(out@);
        let mut j: usize = 0;
        assert(fi@.references.take(0) =~= Seq::<ReferenceView>::empty());
        while j < fi.references.len()
            invariant
                j <= fi.references@.len(),
                p == (|r: ReferenceView| r.symbol_id == symbol_id),
                views(out@) == base + keep(fi@.references.take(j as int), p),
            decreases fi.references.len() - j,
        {
            let r = &fi.references[j];
            assert(fi@.references[j as int] == r@);
            proof {
                lemma_keep_step(fi@.references, p, j as int);
            }
            if r.symbol_id.0 == symbol_id.0 {
                let ghost prev = views(out@);
                out.push(r.copy());
                assert(views(out@) =~= prev.push(r@));
                assert(base + keep(fi@.references.take(j as int), p).push(r@) =~= prev.push(r@));
            }
            j = j + 1;
        }
        assert(fi@.references.take(fi@.references.len() as int) =~= fi@.references);
        i = i + 1;
    }
    assert(files.take(files.len() as int) =~= files);
    stable_sort::<Reference, ReferenceOrder>(out)
}

/// The intent of `m` holds `query`, both taken in lower case.
pub open spec fn intent_matches(m: FunctionMetaView, query: Seq<char>) -> bool {
    match m.intent_text {
        Some(t) => contains_sub(lowercase(t), lowercase(query)),
        None => false,
    }
}

/// The functions whose intent holds the query, ignoring case.
pub fn find_by_intent(snapshot: &IndexSnapshot, text_query: &str) -> (r: Vec<FunctionMeta>)
    ensures
        is_stable_sort_of::<FunctionMeta, FunctionMetaOrder>(
            keep(
                concat_files(snapshot@.files, file_function_meta()),
                |m: FunctionMetaView| intent_matches(m, text_query@),
            ),
            views(r@),
        ),
        text_query@.len() == 0 ==> forall|m: FunctionMetaView|
            #[trigger] intent_matches(m, text_query@) == (m.intent_text is Some),
{
    let query_lower = to_lowercase(text_query);
    proof {
        if text_query@.len() == 0 {
            assert forall|m: FunctionMetaView|
                #[trigger] intent_matches(m, text_query@) == (m.intent_text is Some) by {
                if let Some(t) = m.intent_text {
                    let q = lowercase(text_query@);
                    assert(lowercase(t).subrange(0int, 0int + q.len()) =~= q);
                }
            }
        }
    }
    let ghost files = snapshot@.files;
    let ghost p = |m: FunctionMetaView| intent_matches(m, text_query@);
    let mut out: Vec<FunctionMeta> = Vec::new();
    let mut i: usize = 0;
    assert(files.take(0) =~= Seq::<(Seq<char>, FileIndexView)>::empty());
    while i < snapshot.files.len()
        invariant
            files == snapshot@.files,
            i <= files.len(),
            query_lower@ == lowercase(text_query@),
            p == (|m: FunctionMetaView| intent_matches(m, text_query@)),
            views(out@) == keep(concat_files(files.take(i as int), file_function_meta()), p),
        decreases snapshot.files.len() - i,
    {
        let fi = &snapshot.files[i].1;
        assert(files[i as int].1 == fi@);
        proof {
            lemma_concat_step(files, file_function_meta(), p, i as int);
        }
        let ghost base = views(out@);
        let mut j: usize = 0;
        assert(fi@.function_meta.take(0) =~= Seq::<FunctionMetaView>::empty());
        while j < fi.function_meta.len()
            invariant
                j <= fi.function_meta@.len(),
                query_lower@ == lowercase(text_query@),
                p == (|m: FunctionMetaView| intent_matches(m, text_query@)),
                views(out@) == base + keep(fi@.function_meta.take(j as int), p),
            decreases fi.function_meta.len() - j,
        {
            let m = &fi.function_meta[j];
            assert(fi@.function_meta[j as int] == m@);
            proof {
                lemma_keep_step(fi@.function_meta, p, j as int);
            }
            let hit = match &m.intent_text {
                Some(t) => contains_str(to_lowercase(t.as_str()).as_str(), query_lower.as_str()),
                None => false,
            };
            if hit {
                let ghost prev = views(out@);
                out.push(m.copy());
                assert(views(out@) =~= prev.push(m@));
                assert(base + keep(fi@.function_meta.take(j as int), p).push(m@) =~= prev.push(m@));
            }
            j = j + 1;
        }
        assert(fi@.function_meta.take(fi@.function_meta.len() as int) =~= fi@.function_meta);
        i = i + 1;
    }
    assert(files.take(files.len() as int) =~= files);
    stable_sort::<FunctionMeta, FunctionMetaOrder>(out)
}

/// The functions without examples (only the public ones when asked).
pub open spec fn lacks_examples(m: FunctionMetaView, public_only: bool) -> bool {
    !m.has_examples && (!public_only || m.is_public)
}

/// The functions that have no examples, public ones only when `public_only`.
pub fn list_missing_examples(snapshot: &IndexSnapshot, public_only: bool) -> (r: Vec<FunctionMeta>)
    ensures
        is_stable_sort_of::<FunctionMeta, FunctionMetaOrder>(
            keep(
                concat_files(snapshot@.files, file_function_meta()),
                |m: FunctionMetaView| lacks_examples(m, public_only),
            ),
            views(r@),
        ),
{
    let ghost files = snapshot@.files;
    let ghost p = |m: FunctionMetaView| lacks_examples(m, public_only);
    let mut out: Vec<FunctionMeta> = Vec::new();
    let mut i: usize = 0;
    assert(files.take(0) =~= Seq::<(Seq<char>, FileIndexView)>::empty());
    while i < snapshot.files.len()
        invariant
            files == snapshot@.files,
            i <= files.len(),
            p == (|m: FunctionMetaView| lacks_examples(m, public_only)),
            views(out@) == keep(concat_files(files.take(i as int), file_function_meta()), p),
        decreases snapshot.files.len() - i,
    {
        let fi = &snapshot.files[i].1;
        assert(files[i as int].1 == fi@);
        proof {
            lemma_concat_step(files, file_function_meta(), p, i as int);
        }
        let ghost base = views(out@);
        let mut j: usize = 0;
        assert(fi@.function_meta.take(0) =~= Seq::<FunctionMetaView>::empty());
        while j < fi.function_meta.len()
            invariant
                j <= fi.function_meta@.len(),
                p == (|m: FunctionMetaView| lacks_examples(m, public_only)),
                views(out@) == base + keep(fi@.function_meta.take(j as int), p),
            decreases fi.function_meta.len() - j,
        {
            let m = &fi.function_meta[j];
            assert(fi@.function_meta[j as int] == m@);
            proof {
                lemma_keep_step(fi@.function_meta, p, j as int);
            }
            if !m.has_examples && (!public_only || m.is_public) {
                let ghost prev = views(out@);
                out.push(m.copy());
                assert(views(out@) =~= prev.push(m@));
                assert(base + keep(fi@.function_meta.take(j as int), p).push(m@) =~= prev.push(m@));
            }
            j = j + 1;
        }
        assert(fi@.function_meta.take(fi@.function_meta.len() as int) =~= fi@.function_meta);
        i = i + 1;
    }
    assert(files.take(files.len() as int) =~= files);
    stable_sort::<FunctionMeta, FunctionMetaOrder>(out)
}

/// Every recorded effect mismatch, ordered by file and function name.
pub fn effect_mismatches(snapshot: &IndexSnapshot) -> (r: Vec<EffectMismatch>)
    ensures
        is_stable_sort_of::<EffectMismatch, EffectMismatchOrder>(
            concat_files(snapshot@.files, file_effect_mismatches()),
            views(r@),
        ),
{
    let ghost files = snapshot@.files;
    let mut out: Vec<EffectMismatch> = Vec::new();
    let mut i: usize = 0;
    assert(files.take(0) =~= Seq::<(Seq<char>, FileIndexView)>::empty());
    while i < snapshot.files.len()
        invariant
            files == snapshot@.files,
            i <= files.len(),
            views(out@) == concat_files(files.take(i as int), file_effect_mismatches()),
        decreases snapshot.files.len() - i,
    {
        let fi = &snapshot.files[i].1;
        assert(files[i as int].1 == fi@);
        assert(files.take(i + 1).drop_last() =~= files.take(i as int));
        assert(files.take(i + 1).last() == files[i as int]);
        let ghost base = views(out@);
        let mut j: usize = 0;
        while j < fi.effect_mismatches.len()
            invariant
                j <= fi.effect_mismatches@.len(),
                views(out@) == base + fi@.effect_mismatches.take(j as int),
            decreases fi.effect_mismatches.len() - j,
        {
            let m = &fi.effect_mismatches[j];
            assert(fi@.effect_mismatches[j as int] == m@);
            let ghost prev = views(out@);
            out.push(m.copy());
            assert(views(out@) =~= prev.push(m@));
            assert(fi@.effect_mismatches.take(j + 1) =~= fi@.effect_mismatches.take(j as int).push(
                m@,
            ));
            assert(views(out@) =~= base + fi@.effect_mismatches.take(j + 1));
            j = j + 1;
        }
        assert(fi@.effect_mismatches.take(fi@.effect_mismatches.len() as int)
            =~= fi@.effect_mismatches);
        i = i + 1;
    }
    assert(files.take(files.len() as int) =~= files);
    stable_sort::<EffectMismatch, EffectMismatchOrder>(out)
}

/// The index of the first entry keyed `key`.
pub open spec fn entry_for(files: Seq<(Seq<char>, FileIndexView)>, key: Seq<char>) -> Option<
    FileIndexView,
>
    decreases files.len(),
{
    if files.len() == 0 {
        None
    } else if files[0].0 == key {
        Some(files[0].1)
    } else {
        entry_for(files.drop_first(), key)
    }
}

/// Where the entry keyed `key` stands in the snapshot.
pub fn entry_position(snapshot: &IndexSnapshot, key: &str) -> (r: Option<usize>)
    ensures
        match r {
            Some(i) => i < snapshot@.files.len() && entry_for(snapshot@.files, key@) == Some(
                snapshot@.files[i as int].1,
            ) && snapshot@.files[i as int].0 == key@,
            None => entry_for(snapshot@.files, key@).is_none(),
        },
{
    let ghost files = snapshot@.files;
    let mut i: usize = 0;
    assert(files.skip(0) =~= files);
    while i < snapshot.files.len()
        invariant
            files == snapshot@.files,
            i <= files.len(),
            entry_for(files, key@) == entry_for(files.skip(i as int), key@),
        decreases snapshot.files.len() - i,
    {
        assert(files.skip(i as int)[0] == files[i as int]);
        assert(files[i as int].0 == snapshot.files@[i as int].0@);
        if str_eq(snapshot.files[i].0.as_str(), key) {
            return Some(i);
        }
        assert(files.skip(i as int).drop_first() =~= files.skip(i + 1));
        i = i + 1;
    }
    None
}

/// The area of every span of `file` that contains the position (line,
/// col) is computable: the position queries measure those spans.
pub open spec fn position_spans_defined(
    snapshot: IndexSnapshotView,
    file: Seq<char>,
    line: int,
    col: int,
) -> bool {
    match entry_for(snapshot.files, file) {
        None => true,
        Some(f) => {
            &&& forall|k: int|
                0 <= k < f.references.len() && span_contains(#[trigger] f.references[k].span, line, col)
                    ==> span_area_defined(f.references[k].span)
            &&& forall|k: int|
                0 <= k < f.symbols.len() && span_contains(#[trigger] f.symbols[k].span, line, col)
                    ==> span_area_defined(f.symbols[k].span)
        },
    }
}

fn span_area_ok(sp: crate::indexer::model::IndexSpan) -> (r: bool)
    ensures
        r == span_area_defined(sp),
{
    (sp.line_end < sp.line_start || sp.line_end - sp.line_start < usize::MAX) && (sp.col_end
        < sp.col_start || sp.col_end - sp.col_start < usize::MAX)
}

/// Tests `position_spans_defined`.
pub fn check_position_spans_defined(snapshot: &IndexSnapshot, file: &str, line: usize, col: usize) -> (r:
    bool)
    ensures
        r == position_spans_defined(snapshot@, file@, line as int, col as int),
{
    let i = match entry_position(snapshot, file) {
        None => {
            return true;
        },
        Some(i) => i,
    };
    let fi = &snapshot.files[i].1;
    let ghost f = fi@;
    assert(snapshot@.files[i as int].1 == f);
    let mut k: usize = 0;
    while k < fi.references.len()
        invariant
            f == fi@,
            entry_for(snapshot@.files, file@) == Some(f),
            k <= f.references.len(),
            forall|j: int|
                0 <= j < k && span_contains(#[trigger] f.references[j].span, line as int, col as int)
                    ==> span_area_defined(f.references[j].span),
        decreases fi.references.len() - k,
    {
        let sp = fi.references[k].span;
        assert(f.references[k as int].span == sp);
        if sp.contains(line, col) && !span_area_ok(sp) {
            assert(span_contains(f.references[k as int].span, line as int, col as int));
            assert(!position_spans_defined(snapshot@, file@, line as int, col as int));
            return false;
        }
        k = k + 1;
    }
    let mut k: usize = 0;
    while k < fi.symbols.len()
        invariant
            f == fi@,
            entry_for(snapshot@.files, file@) == Some(f),
            k <= f.symbols.len(),
            forall|j: int|
                0 <= j < k && span_contains(#[trigger] f.symbols[j].span, line as int, col as int)
                    ==> span_area_defined(f.symbols[j].span),
            forall|j: int|
                0 <= j < f.references.len() && span_contains(
                    #[trigger] f.references[j].span,
                    line as int,
                    col as int,
                ) ==> span_area_defined(f.references[j].span),
        decreases fi.symbols.len() - k,
    {
        let sp = fi.symbols[k].span;
        assert(f.symbols[k as int].span == sp);
        if sp.contains(line, col) && !span_area_ok(sp) {
            assert(span_contains(f.symbols[k as int].span, line as int, col as int));
            assert(!position_spans_defined(snapshot@, file@, line as int, col as int));
            return false;
        }
        k = k + 1;
    }
    true
}

/// The index of the first reference of least area.
pub open spec fn first_min_area(refs: Seq<ReferenceView>) -> int
    decreases refs.len(),
{
    if refs.len() <= 1 {
        0
    } else {
        let m = first_min_area(refs.drop_last());
        if span_area(refs.last().span) < span_area(refs[m].span) {
            refs.len() - 1
        } else {
            m
        }
    }
}

/// The index of the symbol least by (area, id), the first of them.
pub open spec fn best_symbol(cands: Seq<SymbolView>) -> int
    decreases cands.len(),
{
    if cands.len() <= 1 {
        0
    } else {
        let m = best_symbol(cands.drop_last());
        let a = span_area(cands.last().span);
        let b = span_area(cands[m].span);
        if a < b || (a == b && cands.last().id.0 < cands[m].id.0) {
            cands.len() - 1
        } else {
            m
        }
    }
}

pub proof fn lemma_first_min_area_range(refs: Seq<ReferenceView>)
    ensures
        refs.len() > 0 ==> 0 <= first_min_area(refs) < refs.len(),
    decreases refs.len(),
{
    if refs.len() > 1 {
        lemma_first_min_area_range(refs.drop_last());
    }
}

pub proof fn lemma_best_symbol_range(cands: Seq<SymbolView>)
    ensures
        cands.len() > 0 ==> 0 <= best_symbol(cands) < cands.len(),
    decreases cands.len(),
{
    if cands.len() > 1 {
        lemma_best_symbol_range(cands.drop_last());
    }
}

/// The symbol at a position: the reference of least area there, the
/// first such; failing that, the symbol of least area there (least id
/// among equals).
pub open spec fn symbol_at_spec(
    snapshot: IndexSnapshotView,
    file: Seq<char>,
    line: int,
    col: int,
) -> Option<SymbolId> {
    match entry_for(snapshot.files, file) {
        None => None,
        Some(f) => {
            let refs = keep(f.references, |r: ReferenceView| span_contains(r.span, line, col));
            if refs.len() > 0 {
                Some(refs[first_min_area(refs)].symbol_id)
            } else {
                let cands = keep(f.symbols, |s: SymbolView| span_contains(s.span, line, col));
                if cands.len() == 0 {
                    None
                } else {
                    Some(cands[best_symbol(cands)].id)
                }
            }
        },
    }
}

pub proof fn lemma_keep_all<A>(s: Seq<A>, p: spec_fn(A) -> bool)
    ensures
        forall|k: int| 0 <= k < keep(s, p).len() ==> p(#[trigger] keep(s, p)[k]),
        forall|k: int|
            0 <= k < keep(s, p).len() ==> exists|j: int| 0 <= j < s.len() && s[j] == #[trigger] keep(s, p)[k],
    decreases s.len(),
{
    if s.len() > 0 {
        lemma_keep_all(s.drop_last(), p);
        let d = s.drop_last();
        assert forall|k: int| 0 <= k < keep(s, p).len() implies exists|j: int|
            0 <= j < s.len() && s[j] == #[trigger] keep(s, p)[k] by {
            if k < keep(d, p).len() {
                let j = choose|j: int| 0 <= j < d.len() && d[j] == keep(d, p)[k];
                assert(s[j] == d[j]);
            } else {
                assert(s[s.len() - 1] == keep(s, p)[k]);
            }
        }
    }
}

/// The symbol id at a position of a file: see `symbol_at_spec`.
pub fn symbol_at_position(snapshot: &IndexSnapshot, file: &str, line: usize, col: usize) -> (r:
    Option<SymbolId>)
    requires
        position_spans_defined(snapshot@, file@, line as int, col as int),
    ensures
        r == symbol_at_spec(snapshot@, file@, line as int, col as int),
{
    let pos = entry_position(snapshot, file);
    let i = match pos {
        None => {
            return None;
        },
        Some(i) => i,
    };
    let fi = &snapshot.files[i].1;
    let ghost f = fi@;
    assert(snapshot@.files[i as int].1 == f);
    let ghost pr = |r: ReferenceView| span_contains(r.span, line as int, col as int);
    let ghost ps = |s: SymbolView| span_contains(s.span, line as int, col as int);
    // references at the position: the first of least area
    let mut best_ref: Option<usize> = None;
    let mut j: usize = 0;
    assert(f.references.take(0) =~= Seq::<ReferenceView>::empty());
    while j < fi.references.len()
        invariant
            f == fi@,
            j <= f.references.len(),
            pr == (|r: ReferenceView| span_contains(r.span, line as int, col as int)),
            forall|k: int|
                0 <= k < f.references.len() && span_contains(
                    #[trigger] f.references[k].span,
                    line as int,
                    col as int,
                ) ==> span_area_defined(f.references[k].span),
            match best_ref {
                Some(b) => span_contains(f.references[b as int].span, line as int, col as int),
                None => true,
            },
            match best_ref {
                None => keep(f.references.take(j as int), pr).len() == 0,
                Some(b) => b < j && keep(f.references.take(j as int), pr).len() > 0 && f.references[b as int]
                    == keep(f.references.take(j as int), pr)[first_min_area(
                    keep(f.references.take(j as int), pr),
                )],
            },
        decreases fi.references.len() - j,
    {
        let r = &fi.references[j];
        assert(f.references[j as int] == r@);
        proof {
            lemma_keep_step(f.references, pr, j as int);
        }
        let ghost prevk = keep(f.references.take(j as int), pr);
        if r.span.contains(line, col) {
            let ghost nk = prevk.push(r@);
            assert(nk.drop_last() =~= prevk);
            assert(span_area_defined(f.references[j as int].span));
            match best_ref {
                None => {
                    best_ref = Some(j);
                },
                Some(b) => {
                    let rb = &fi.references[b];
                    assert(f.references[b as int] == rb@);
                    assert(span_area_defined(f.references[b as int].span));
                    proof {
                        lemma_first_min_area_range(prevk);
                    }
                    if r.span.area() < rb.span.area() {
                        best_ref = Some(j);
                    }
                },
            }
        }
        j = j + 1;
    }
    assert(f.references.take(f.references.len() as int) =~= f.references);
    if let Some(b) = best_ref {
        return Some(fi.references[b].symbol_id);
    }
    // otherwise the symbols at the position: least by (area, id)
    let mut best_sym: Option<usize> = None;
    let mut j: usize = 0;
    assert(f.symbols.take(0) =~= Seq::<SymbolView>::empty());
    while j < fi.symbols.len()
        invariant
            f == fi@,
            j <= f.symbols.len(),
            ps == (|s: SymbolView| span_contains(s.span, line as int, col as int)),
            forall|k: int|
                0 <= k < f.symbols.len() && span_contains(#[trigger] f.symbols[k].span, line as int, col as int)
                    ==> span_area_defined(f.symbols[k].span),
            match best_sym {
                Some(b) => span_contains(f.symbols[b as int].span, line as int, col as int),
                None => true,
            },
            match best_sym {
                None => keep(f.symbols.take(j as int), ps).len() == 0,
                Some(b) => b < j && keep(f.symbols.take(j as int), ps).len() > 0 && f.symbols[b as int]
                    == keep(f.symbols.take(j as int), ps)[best_symbol(
                    keep(f.symbols.take(j as int), ps),
                )],
            },
        decreases fi.symbols.len() - j,
    {
        let s = &fi.symbols[j];
        assert(f.symbols[j as int] == s@);
        proof {
            lemma_keep_step(f.symbols, ps, j as int);
        }
        let ghost prevk = keep(f.symbols.take(j as int), ps);
        if s.span.contains(line, col) {
            let ghost nk = prevk.push(s@);
            assert(nk.drop_last() =~= prevk);
            assert(span_area_defined(f.symbols[j as int].span));
            match best_sym {
                None => {
                    best_sym = Some(j);
                },
                Some(b) => {
                    let sb = &fi.symbols[b];
                    assert(f.symbols[b as int] == sb@);
                    assert(span_area_defined(f.symbols[b as int].span));
                    proof {
                        lemma_best_symbol_range(prevk);
                    }
                    let a = s.span.area();
                    let ab = sb.span.area();
                    if a < ab || (a == ab && s.id.0 < sb.id.0) {
                        best_sym = Some(j);
                    }
                },
            }
        }
        j = j + 1;
    }
    assert(f.symbols.take(f.symbols.len() as int) =~= f.symbols);
    match best_sym {
        Some(b) => Some(fi.symbols[b].id),
        None => None,
    }
}

pub proof fn lemma_concat_files_append<A>(
    a: Seq<(Seq<char>, FileIndexView)>,
    b: Seq<(Seq<char>, FileIndexView)>,
    f: spec_fn(FileIndexView) -> Seq<A>,
)
    ensures
        concat_files(a + b, f) == concat_files(a, f) + concat_files(b, f),
    decreases b.len(),
{
    if b.len() == 0 {
        assert(a + b =~= a);
        assert(concat_files(a, f) + concat_files(b, f) =~= concat_files(a, f));
    } else {
        lemma_concat_files_append(a, b.drop_last(), f);
        assert((a + b).drop_last() =~= a + b.drop_last());
        assert((a + b).last() == b.last());
        assert(concat_files(a, f) + (concat_files(b.drop_last(), f) + f(b.last().1)) =~= (concat_files(
            a,
            f,
        ) + concat_files(b.drop_last(), f)) + f(b.last().1));
    }
}

/// The first symbol with id `id`, over all files.
pub open spec fn first_with_id(syms: Seq<SymbolView>, id: SymbolId) -> Option<SymbolView>
    decreases syms.len(),
{
    if syms.len() == 0 {
        None
    } else if syms[0].id == id {
        Some(syms[0])
    } else {
        first_with_id(syms.drop_first(), id)
    }
}

proof fn lemma_first_with_id_append(a: Seq<SymbolView>, b: Seq<SymbolView>, id: SymbolId)
    ensures
        first_with_id(a + b, id) == if first_with_id(a, id).is_some() {
            first_with_id(a, id)
        } else {
            first_with_id(b, id)
        },
    decreases a.len(),
{
    if a.len() == 0 {
        assert(a + b =~= b);
    } else {
        assert((a + b).drop_first() =~= a.drop_first() + b);
        lemma_first_with_id_append(a.drop_first(), b, id);
    }
}

/// The symbol that defines what stands at a position: the first stored
/// symbol (files in key order) with the id that `symbol_at_spec` finds.
pub open spec fn definition_at_spec(
    snapshot: IndexSnapshotView,
    file: Seq<char>,
    line: int,
    col: int,
) -> Option<SymbolView> {
    match symbol_at_spec(snapshot, file, line, col) {
        None => None,
        Some(id) => first_with_id(concat_files(snapshot.files, file_symbols()), id),
    }
}

/// The references at a position are the references of the symbol there:
/// a stable sort of what `references_for_position` sorts is the stable
/// sort that `find_references` gives for the symbol `symbol_at_spec` finds.
pub proof fn lemma_references_at_position(
    snapshot: IndexSnapshotView,
    file: Seq<char>,
    line: int,
    col: int,
    at_position: Seq<ReferenceView>,
    of_symbol: Seq<ReferenceView>,
)
    requires
        symbol_at_spec(snapshot, file, line, col) is Some,
        is_stable_sort_of::<Reference, ReferenceOrder>(
            references_to(snapshot, symbol_at_spec(snapshot, file, line, col)->0),
            at_position,
        ),
        is_stable_sort_of::<Reference, ReferenceOrder>(
            references_to(snapshot, symbol_at_spec(snapshot, file, line, col)->0),
            of_symbol,
        ),
    ensures
        at_position == of_symbol,
{
    crate::order::lemma_stable_sort_unique::<Reference, ReferenceOrder>(
        references_to(snapshot, symbol_at_spec(snapshot, file, line, col)->0),
        at_position,
        of_symbol,
    );
}

/// The definition of the symbol at a position.
pub fn definition_for_position(snapshot: &IndexSnapshot, file: &str, line: usize, col: usize) -> (r:
    Option<Symbol>)
    requires
        position_spans_defined(snapshot@, file@, line as int, col as int),
    ensures
        match r {
            Some(s) => definition_at_spec(snapshot@, file@, line as int, col as int) == Some(s@),
            None => definition_at_spec(snapshot@, file@, line as int, col as int).is_none(),
        },
{
    let id = match symbol_at_position(snapshot, file, line, col) {
        None => {
            return None;
        },
        Some(id) => id,
    };
    let ghost files = snapshot@.files;
    let mut i: usize = 0;
    assert(files.take(0) =~= Seq::<(Seq<char>, FileIndexView)>::empty());
    while i < snapshot.files.len()
        invariant
            files == snapshot@.files,
            i <= files.len(),
            first_with_id(concat_files(files.take(i as int), file_symbols()), id).is_none(),
            id == symbol_at_spec(snapshot@, file@, line as int, col as int).unwrap(),
            symbol_at_spec(snapshot@, file@, line as int, col as int).is_some(),
        decreases snapshot.files.len() - i,
    {
        let fi = &snapshot.files[i].1;
        assert(files[i as int].1 == fi@);
        assert(files.take(i + 1).drop_last() =~= files.take(i as int));
        assert(files.take(i + 1).last() == files[i as int]);
        let ghost base = concat_files(files.take(i as int), file_symbols());
        proof {
            lemma_first_with_id_append(base, fi@.symbols, id);
        }
        let mut j: usize = 0;
        assert(fi@.symbols.skip(0) =~= fi@.symbols);
        while j < fi.symbols.len()
            invariant
                files == snapshot@.files,
                i < files.len(),
                files[i as int].1 == fi@,
                base == concat_files(files.take(i as int), file_symbols()),
                first_with_id(base, id).is_none(),
                first_with_id(base + fi@.symbols, id) == first_with_id(fi@.symbols, id),
                concat_files(files.take(i + 1), file_symbols()) == base + fi@.symbols,
                id == symbol_at_spec(snapshot@, file@, line as int, col as int).unwrap(),
                symbol_at_spec(snapshot@, file@, line as int, col as int).is_some(),
                j <= fi@.symbols.len(),
                first_with_id(fi@.symbols, id) == first_with_id(fi@.symbols.skip(j as int), id),
            decreases fi.symbols.len() - j,
        {
            let s = &fi.symbols[j];
            assert(fi@.symbols.skip(j as int)[0] == s@);
            if s.id.0 == id.0 {
                proof {
                    assert(files =~= files.take(i + 1) + files.skip(i + 1));
                    lemma_concat_files_append(files.take(i + 1), files.skip(i + 1), file_symbols());
                    lemma_first_with_id_append(
                        concat_files(files.take(i + 1), file_symbols()),
                        concat_files(files.skip(i + 1), file_symbols()),
                        id,
                    );
                }
                return Some(s.copy());
            }
            assert(fi@.symbols.skip(j as int).drop_first() =~= fi@.symbols.skip(j + 1));
            j = j + 1;
        }
        assert(fi@.symbols.skip(fi@.symbols.len() as int) =~= Seq::<SymbolView>::empty());
        i = i + 1;
    }
    assert(files.take(files.len() as int) =~= files);
    None
}

/// The references to the symbol at a position; none when there is no symbol.
pub fn references_for_position(snapshot: &IndexSnapshot, file: &str, line: usize, col: usize) -> (r:
    Vec<Reference>)
    requires
        position_spans_defined(snapshot@, file@, line as int, col as int),
    ensures
        match symbol_at_spec(snapshot@, file@, line as int, col as int) {
            None => r@.len() == 0,
            Some(id) => is_stable_sort_of::<Reference, ReferenceOrder>(
                references_to(snapshot@, id),
                views(r@),
            ),
        },
{
    match symbol_at_position(snapshot, file, line, col) {
        None => Vec::new(),
        Some(id) => find_references(snapshot, id),
    }
}

/// Orders symbols by file, span, name and id (stable).
pub fn sort_symbols(symbols: Vec<Symbol>) -> (r: Vec<Symbol>)
    ensures
        is_stable_sort_of::<Symbol, SymbolQueryOrder>(views(symbols@), views(r@)),
{
    stable_sort::<Symbol, SymbolQueryOrder>(symbols)
}


/// The first symbol (over all files, in order) with id `id`.
pub fn definition_of_id(snapshot: &IndexSnapshot, id: SymbolId) -> (r: Option<Symbol>)
    ensures
        match r {
            Some(s) => first_with_id(concat_files(snapshot@.files, file_symbols()), id) == Some(s@),
            None => first_with_id(concat_files(snapshot@.files, file_symbols()), id).is_none(),
        },
{
    let ghost files = snapshot@.files;
    let mut i: usize = 0;
    assert(files.take(0) =~= Seq::<(Seq<char>, FileIndexView)>::empty());
    while i < snapshot.files.len()
        invariant
            files == snapshot@.files,
            i <= files.len(),
            first_with_id(concat_files(files.take(i as int), file_symbols()), id).is_none(),
        decreases snapshot.files.len() - i,
    {
        let fi = &snapshot.files[i].1;
        assert(files[i as int].1 == fi@);
        assert(files.take(i + 1).drop_last() =~= files.take(i as int));
        assert(files.take(i + 1).last() == files[i as int]);
        let ghost base = concat_files(files.take(i as int), file_symbols());
        proof {
            lemma_first_with_id_append(base, fi@.symbols, id);
        }
        let mut j: usize = 0;
        assert(fi@.symbols.skip(0) =~= fi@.symbols);
        while j < fi.symbols.len()
            invariant
                files == snapshot@.files,
                i < files.len(),
                files[i as int].1 == fi@,
                base == concat_files(files.take(i as int), file_symbols()),
                first_with_id(base, id).is_none(),
                first_with_id(base + fi@.symbols, id) == first_with_id(fi@.symbols, id),
                concat_files(files.take(i + 1), file_symbols()) == base + fi@.symbols,
                j <= fi@.symbols.len(),
                first_with_id(fi@.symbols, id) == first_with_id(fi@.symbols.skip(j as int), id),
            decreases fi.symbols.len() - j,
        {
            let s = &fi.symbols[j];
            assert(fi@.symbols.skip(j as int)[0] == s@);
            if s.id.0 == id.0 {
                proof {
                    assert(files =~= files.take(i + 1) + files.skip(i + 1));
                    lemma_concat_files_append(files.take(i + 1), files.skip(i + 1), file_symbols());
                    lemma_first_with_id_append(
                        concat_files(files.take(i + 1), file_symbols()),
                        concat_files(files.skip(i + 1), file_symbols()),
                        id,
                    );
                }
                return Some(s.copy());
            }
            assert(fi@.symbols.skip(j as int).drop_first() =~= fi@.symbols.skip(j + 1));
            j = j + 1;
        }
        assert(fi@.symbols.skip(fi@.symbols.len() as int) =~= Seq::<SymbolView>::empty());
        i = i + 1;
    }
    assert(files.take(files.len() as int) =~= files);
    None
}

} // verus!
