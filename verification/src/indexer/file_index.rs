//! The index of one source file: its function symbols, each function's
//! parameters, contract annotations, locals and references, the metadata
//! and effect mismatches of its functions, its diagnostics and the names it
//! depends on.

use vstd::prelude::*;

use crate::ast::{Contract, Declaration, ExampleCase, FileAst, FunctionDecl, Param, Stmt};
use crate::diagnostics::{Diagnostic, DiagnosticView, Severity, Span};
use crate::hir::{HirFunction, HirProgram};
use crate::indexer::extract::{
    effect_mismatch_of, effect_mismatch_spec, hex_number, hir_function_named, stable_hash_hex,
    stable_hash_spec, stable_symbol_id, symbol_id_text,
};
use crate::indexer::model::{
    copy_opt_string, copy_strings, file_index_normalized, opt_text, EffectMismatch,
    EffectMismatchView, FileIndex, FileIndexView, FunctionMeta, FunctionMetaView, IndexSpan,
    IndexedDiagnostic, IndexedDiagnosticView, IndexedSeverity, indexed_severity_of, Reference,
    Symbol, SymbolId, SymbolKind, SymbolView,
};
use crate::indexer::refs::{collect_expr_refs, id_entries, index_span_of, symbol_of, symbol_of_exec};
use crate::indexer::stmt_refs::{
    cases_binders, collect_stmt_refs, context_of, lemma_stmts_binders_prefix, state_of, stmt_binders,
    stmts_binders,
    stmts_scan, with_expr, ScanContext, ScanState,
};
use crate::order::views;
use crate::text::{push_str, str_eq, to_owned_string};

verus! {

/// The id `stable_symbol_id` gives.
pub open spec fn symbol_id_of(
    file: Seq<char>,
    name: Seq<char>,
    kind: SymbolKind,
    group: Seq<char>,
    ordinal: int,
) -> SymbolId {
    SymbolId(
        hex_number(stable_hash_spec(symbol_id_text(file, name, kind, group, ordinal as nat)).take(16))
            as u64,
    )
}

/// The state after the parameters of a function: each is a symbol (at the
/// function's span) and a local, the later first.
pub open spec fn bind_params(c: ScanContext, st: ScanState, params: Seq<Param>, fspan: Span) -> ScanState
    decreases params.len(),
{
    if params.len() == 0 {
        st
    } else {
        let prev = bind_params(c, st, params.drop_last(), fspan);
        let p = params.last();
        let id = symbol_id_of(
            c.file,
            c.function + "::"@ + p.name@,
            SymbolKind::Param,
            "param"@,
            params.len() - 1,
        );
        ScanState {
            locals: seq![(p.name@, id)] + prev.locals,
            symbols: prev.symbols.push(
                SymbolView {
                    id,
                    name: p.name@,
                    kind: SymbolKind::Param,
                    module: c.module,
                    file: c.file,
                    span: index_span_of(fspan),
                },
            ),
            ..prev
        }
    }
}

/// The state with one more contract symbol.
pub open spec fn add_contract_symbol(
    c: ScanContext,
    st: ScanState,
    qualified: Seq<char>,
    kind: SymbolKind,
    group: Seq<char>,
    k: int,
    name: Seq<char>,
    span: Span,
) -> ScanState {
    ScanState {
        symbols: st.symbols.push(
            SymbolView {
                id: symbol_id_of(c.file, qualified, kind, group, k),
                name,
                kind,
                module: c.module,
                file: c.file,
                span: index_span_of(span),
            },
        ),
        ..st
    }
}

/// The state after the cases of an `@examples` contract: each call, then
/// its expected value.
pub open spec fn examples_scan(c: ScanContext, st: ScanState, cases: Seq<ExampleCase>) -> ScanState
    decreases cases.len(),
{
    if cases.len() == 0 {
        st
    } else {
        let prev = examples_scan(c, st, cases.drop_last());
        with_expr(c, with_expr(c, prev, cases.last().call), cases.last().expected)
    }
}

/// The state after the `k`-th contract annotation: `@intent` gives a
/// symbol named by its text, `@examples` a symbol and the references of its
/// cases, `@require` and `@ensure` a symbol and the references of their
/// expression, `@effect` a symbol named by the effect; `@native` nothing.
pub open spec fn contract_scan(c: ScanContext, st: ScanState, k: int, ct: Contract) -> ScanState {
    match ct {
        Contract::Intent { text, span } => add_contract_symbol(
            c,
            st,
            c.function + "::@intent"@,
            SymbolKind::Contract,
            "intent"@,
            k,
            text@,
            span,
        ),
        Contract::Examples { cases, span } => examples_scan(
            c,
            add_contract_symbol(
                c,
                st,
                c.function + "::@examples"@,
                SymbolKind::Contract,
                "examples"@,
                k,
                "@examples"@,
                span,
            ),
            cases@,
        ),
        Contract::Require { expr, span } => with_expr(
            c,
            add_contract_symbol(
                c,
                st,
                c.function + "::@contract"@,
                SymbolKind::Contract,
                "prepost"@,
                k,
                "@contract"@,
                span,
            ),
            expr,
        ),
        Contract::Ensure { expr, span } => with_expr(
            c,
            add_contract_symbol(
                c,
                st,
                c.function + "::@contract"@,
                SymbolKind::Contract,
                "prepost"@,
                k,
                "@contract"@,
                span,
            ),
            expr,
        ),
        Contract::Effect { name, span } => add_contract_symbol(
            c,
            st,
            c.function + "::@effect::"@ + name@,
            SymbolKind::Effect,
            "effect"@,
            k,
            name@,
            span,
        ),
        Contract::Native { .. } => st,
    }
}

pub open spec fn contracts_scan(c: ScanContext, st: ScanState, cs: Seq<Contract>) -> ScanState
    decreases cs.len(),
{
    if cs.len() == 0 {
        st
    } else {
        contract_scan(c, contracts_scan(c, st, cs.drop_last()), cs.len() - 1, cs.last())
    }
}

/// The state after indexing a function: with no locals and the first local
/// ordinal, its parameters, its contract annotations, its body and its
/// tail expression, in order.
pub open spec fn function_scan(c: ScanContext, st: ScanState, f: FunctionDecl) -> ScanState {
    let s1 = bind_params(c, ScanState { locals: Seq::empty(), seq: 0, ..st }, f.params@, f.span);
    let s2 = contracts_scan(c, s1, f.contracts@);
    let s3 = stmts_scan(c, s2, f.body@);
    match f.tail_expr {
        Some(t) => with_expr(c, s3, t),
        None => s3,
    }
}

/// The function declarations of a file, in order.
pub open spec fn functions_of(decls: Seq<Declaration>) -> Seq<FunctionDecl>
    decreases decls.len(),
{
    if decls.len() == 0 {
        Seq::empty()
    } else {
        match decls.last() {
            Declaration::Function(f) => functions_of(decls.drop_last()).push(f),
            _ => functions_of(decls.drop_last()),
        }
    }
}

/// The (name, id) table of the file's functions, the later declaration
/// first; a function's id comes from its position among all declarations.
pub open spec fn function_ids(file: Seq<char>, decls: Seq<Declaration>) -> Seq<(Seq<char>, SymbolId)>
    decreases decls.len(),
{
    if decls.len() == 0 {
        Seq::empty()
    } else {
        let prev = function_ids(file, decls.drop_last());
        match decls.last() {
            Declaration::Function(f) => seq![
                (f.name@, symbol_id_of(file, f.name@, SymbolKind::Function, "decl"@, decls.len() - 1)),
            ] + prev,
            _ => prev,
        }
    }
}

/// The symbols of the file's functions, in declaration order.
pub open spec fn function_symbols(
    file: Seq<char>,
    module: Option<Seq<char>>,
    decls: Seq<Declaration>,
) -> Seq<SymbolView>
    decreases decls.len(),
{
    if decls.len() == 0 {
        Seq::empty()
    } else {
        let prev = function_symbols(file, module, decls.drop_last());
        match decls.last() {
            Declaration::Function(f) => prev.push(
                SymbolView {
                    id: symbol_id_of(file, f.name@, SymbolKind::Function, "decl"@, decls.len() - 1),
                    name: f.name@,
                    kind: SymbolKind::Function,
                    module,
                    file,
                    span: index_span_of(f.span),
                },
            ),
            _ => prev,
        }
    }
}

/// The state after indexing each of `fs` in turn.
pub open spec fn functions_scan(
    file: Seq<char>,
    module: Option<Seq<char>>,
    ids: Seq<(Seq<char>, SymbolId)>,
    st: ScanState,
    fs: Seq<FunctionDecl>,
) -> ScanState
    decreases fs.len(),
{
    if fs.len() == 0 {
        st
    } else {
        function_scan(
            ScanContext { file, module, function: fs.last().name@, functions: ids },
            functions_scan(file, module, ids, st, fs.drop_last()),
            fs.last(),
        )
    }
}

/// `parts` joined with `sep`.
pub open spec fn join_texts(parts: Seq<Seq<char>>, sep: Seq<char>) -> Seq<char>
    decreases parts.len(),
{
    if parts.len() == 0 {
        Seq::empty()
    } else if parts.len() == 1 {
        parts[0]
    } else {
        join_texts(parts.drop_last(), sep) + sep + parts.last()
    }
}

pub open spec fn type_text(t: Option<crate::ast::TypeRef>) -> Seq<char> {
    match t {
        Some(t) => t.raw@,
        None => "Unknown"@,
    }
}

pub open spec fn param_texts(ps: Seq<Param>) -> Seq<Seq<char>> {
    ps.map_values(|p: Param| p.name@ + ":"@ + type_text(p.ty))
}

/// A function's signature: `name(p:T,…)->R`, a missing type written
/// `Unknown`.
pub open spec fn signature_text(f: FunctionDecl) -> Seq<char> {
    f.name@ + "("@ + join_texts(param_texts(f.params@), ","@) + ")->"@ + type_text(f.return_type)
}

/// The text of the first `@intent` annotation.
pub open spec fn first_intent(cs: Seq<Contract>) -> Option<Seq<char>>
    decreases cs.len(),
{
    if cs.len() == 0 {
        None
    } else {
        match cs[0] {
            Contract::Intent { text, .. } => Some(text@),
            _ => first_intent(cs.subrange(1, cs.len() as int)),
        }
    }
}

pub open spec fn has_examples_spec(cs: Seq<Contract>) -> bool {
    exists|k: int| 0 <= k < cs.len() && cs[k] is Examples
}

/// What the index records of a function.
pub open spec fn function_meta_spec(
    file: Seq<char>,
    f: FunctionDecl,
    id: SymbolId,
    hir: HirProgram,
) -> FunctionMetaView {
    let effects = match hir_function_named(hir.functions@, f.name@) {
        Some(h) => (views(h.effects_declared@), views(h.effects_observed@)),
        None => (Seq::empty(), Seq::empty()),
    };
    FunctionMetaView {
        symbol_id: id,
        function_name: f.name@,
        file,
        signature_hash: stable_hash_spec(signature_text(f)),
        effects_declared: effects.0,
        effects_observed: effects.1,
        intent_text: first_intent(f.contracts@),
        has_examples: has_examples_spec(f.contracts@),
        is_public: f.is_public,
    }
}

pub open spec fn id_or_zero(o: Option<SymbolId>) -> SymbolId {
    match o {
        Some(id) => id,
        None => SymbolId(0),
    }
}

pub open spec fn metas_spec(
    file: Seq<char>,
    fs: Seq<FunctionDecl>,
    ids: Seq<(Seq<char>, SymbolId)>,
    hir: HirProgram,
) -> Seq<FunctionMetaView> {
    fs.map_values(|f: FunctionDecl| function_meta_spec(file, f, id_or_zero(symbol_of(ids, f.name@)), hir))
}

pub open spec fn mismatches_spec(file: Seq<char>, fs: Seq<FunctionDecl>, hir: HirProgram) -> Seq<
    EffectMismatchView,
>
    decreases fs.len(),
{
    if fs.len() == 0 {
        Seq::empty()
    } else {
        let prev = mismatches_spec(file, fs.drop_last(), hir);
        match effect_mismatch_spec(fs.last().name@, file, hir) {
            Some(m) => prev.push(m),
            None => prev,
        }
    }
}

pub open spec fn indexed_diagnostic_of(d: DiagnosticView) -> IndexedDiagnosticView {
    IndexedDiagnosticView {
        code: d.code,
        severity: indexed_severity_of(d.severity),
        message: d.message,
        span: index_span_of(d.span),
    }
}

/// The file's index before its lists are put in canonical order.
pub open spec fn raw_file_index(
    file: Seq<char>,
    source: Seq<char>,
    ast: FileAst,
    hir: HirProgram,
    diags: Seq<DiagnosticView>,
) -> FileIndexView {
    let module = opt_text(ast.module);
    let decls = ast.declarations@;
    let ids = function_ids(file, decls);
    let fs = functions_of(decls);
    let st0 = ScanState {
        locals: Seq::empty(),
        seq: 0,
        symbols: function_symbols(file, module, decls),
        references: Seq::empty(),
        deps: views(ast.imports@),
    };
    let st = functions_scan(file, module, ids, st0, fs);
    FileIndexView {
        file,
        file_hash: stable_hash_spec(source),
        symbols: st.symbols,
        references: st.references,
        function_meta: metas_spec(file, fs, ids, hir),
        effect_mismatches: mismatches_spec(file, fs, hir),
        diagnostics: diags.map_values(|d: DiagnosticView| indexed_diagnostic_of(d)),
        dependencies: st.deps,
    }
}

/// Every function body's locals can be numbered in a `u64`.
pub open spec fn binders_fit(decls: Seq<Declaration>) -> bool {
    forall|k: int|
        0 <= k < decls.len() ==> (#[trigger] decls[k] matches Declaration::Function(f) ==> stmts_binders(
            f.body@,
        ) <= u64::MAX)
}

/// A scan state with no locals, the first local ordinal, and the given
/// symbols, references and outside names.
pub open spec fn start_state(
    symbols: Seq<SymbolView>,
    references: Seq<crate::indexer::model::ReferenceView>,
    deps: Seq<Seq<char>>,
) -> ScanState {
    ScanState { locals: Seq::empty(), seq: 0, symbols, references, deps }
}

/// Indexing a function reads only the symbols, references and outside
/// names gathered so far.
pub proof fn lemma_function_scan_reads_lists(c: ScanContext, a: ScanState, b: ScanState, f: FunctionDecl)
    requires
        a.symbols == b.symbols,
        a.references == b.references,
        a.deps == b.deps,
    ensures
        function_scan(c, a, f) == function_scan(c, b, f),
{
    assert(ScanState { locals: Seq::empty(), seq: 0, ..a } == ScanState {
        locals: Seq::empty(),
        seq: 0,
        ..b
    });
}

fn index_span(s: Span) -> (r: IndexSpan)
    ensures
        r == index_span_of(s),
{
    IndexSpan { line_start: s.line_start, col_start: s.col_start, line_end: s.line_end, col_end: s.col_end }
}

fn joined2(a: &str, sep: &str) -> (r: String)
    ensures
        r@ == a@ + sep@,
{
    let mut q = to_owned_string(a);
    push_str(&mut q, sep);
    q
}

fn joined(a: &str, sep: &str, b: &str) -> (r: String)
    ensures
        r@ == a@ + sep@ + b@,
{
    let mut q = to_owned_string(a);
    push_str(&mut q, sep);
    push_str(&mut q, b);
    q
}

/// Appends the symbol of a contract annotation (see `add_contract_symbol`).
fn push_contract_symbol(
    file: &str,
    module: &Option<String>,
    qualified: &str,
    kind: SymbolKind,
    group: &str,
    k: usize,
    name: &str,
    span: Span,
    symbols: &mut Vec<Symbol>,
)
    ensures
        views(final(symbols)@) == views(old(symbols)@).push(
            SymbolView {
                id: symbol_id_of(file@, qualified@, kind, group@, k as int),
                name: name@,
                kind,
                module: opt_text(*module),
                file: file@,
                span: index_span_of(span),
            },
        ),
{
    let id = SymbolId(stable_symbol_id(file, qualified, kind, group, k as u64));
    let sym = Symbol {
        id,
        name: to_owned_string(name),
        kind,
        module: copy_opt_string(module),
        file: to_owned_string(file),
        span: index_span(span),
    };
    let ghost before = views(symbols@);
    symbols.push(sym);
    assert(views(symbols@) =~= before.push(sym@));
}

/// Indexes the `k`-th contract annotation of the function `func_name`
/// (see `contract_scan`).
fn index_contract(
    ct: &Contract,
    k: usize,
    file: &str,
    module: &Option<String>,
    func_name: &str,
    locals: &Vec<(String, SymbolId)>,
    function_symbol_ids: &Vec<(String, SymbolId)>,
    symbols: &mut Vec<Symbol>,
    references: &mut Vec<Reference>,
    dependencies: &mut Vec<String>,
)
    ensures
        state_of(locals@, 0, final(symbols)@, final(references)@, final(dependencies)@)
            == contract_scan(
            context_of(file@, *module, func_name@, function_symbol_ids@),
            state_of(locals@, 0, old(symbols)@, old(references)@, old(dependencies)@),
            k as int,
            *ct,
        ),
{
    let ghost c = context_of(file@, *module, func_name@, function_symbol_ids@);
    assert(c.module == opt_text(*module));
    match ct {
        Contract::Intent { text, span } => {
            let q = joined2(func_name, "::@intent");
            push_contract_symbol(file, module, q.as_str(), SymbolKind::Contract, "intent", k, text.as_str(), *span, symbols);
        },
        Contract::Examples { cases, span } => {
            let q = joined2(func_name, "::@examples");
            push_contract_symbol(file, module, q.as_str(), SymbolKind::Contract, "examples", k, "@examples", *span, symbols);
            let ghost st1 = state_of(locals@, 0, symbols@, references@, dependencies@);
            let mut i: usize = 0;
            while i < cases.len()
                invariant
                    i <= cases@.len(),
                    c == context_of(file@, *module, func_name@, function_symbol_ids@),
                    state_of(locals@, 0, symbols@, references@, dependencies@) == examples_scan(
                        c,
                        st1,
                        cases@.take(i as int),
                    ),
                decreases cases.len() - i,
            {
                assert(cases@.take(i + 1).drop_last() =~= cases@.take(i as int));
                collect_expr_refs(&cases[i].call, file, locals, function_symbol_ids, references, dependencies);
                collect_expr_refs(&cases[i].expected, file, locals, function_symbol_ids, references, dependencies);
                i = i + 1;
            }
            assert(cases@.take(cases@.len() as int) =~= cases@);
        },
        Contract::Require { expr, span } => {
            let q = joined2(func_name, "::@contract");
            push_contract_symbol(file, module, q.as_str(), SymbolKind::Contract, "prepost", k, "@contract", *span, symbols);
            collect_expr_refs(expr, file, locals, function_symbol_ids, references, dependencies);
        },
        Contract::Ensure { expr, span } => {
            let q = joined2(func_name, "::@contract");
            push_contract_symbol(file, module, q.as_str(), SymbolKind::Contract, "prepost", k, "@contract", *span, symbols);
            collect_expr_refs(expr, file, locals, function_symbol_ids, references, dependencies);
        },
        Contract::Effect { name, span } => {
            let q = joined(func_name, "::@effect::", name.as_str());
            push_contract_symbol(file, module, q.as_str(), SymbolKind::Effect, "effect", k, name.as_str(), *span, symbols);
        },
        Contract::Native { .. } => {},
    }
}

/// Indexes a function (see `function_scan`): its parameters, contract
/// annotations, body and tail expression, appending what it finds to the
/// file's symbols, references and outside names.
pub fn index_function(
    file: &str,
    module: &Option<String>,
    func: &FunctionDecl,
    function_symbol_ids: &Vec<(String, SymbolId)>,
    symbols: &mut Vec<Symbol>,
    references: &mut Vec<Reference>,
    dependencies: &mut Vec<String>,
)
    requires
        stmts_binders(func.body@) <= u64::MAX,
    ensures
        ({
            let st = function_scan(
                context_of(file@, *module, func.name@, function_symbol_ids@),
                start_state(views(old(symbols)@), views(old(references)@), views(old(dependencies)@)),
                *func,
            );
            &&& views(final(symbols)@) == st.symbols
            &&& views(final(references)@) == st.references
            &&& views(final(dependencies)@) == st.deps
        }),
{
    let ghost c = context_of(file@, *module, func.name@, function_symbol_ids@);
    let ghost st0 = start_state(views(symbols@), views(references@), views(dependencies@));
    let mut locals: Vec<(String, SymbolId)> = Vec::new();
    assert(id_entries(locals@) =~= Seq::<(Seq<char>, SymbolId)>::empty());
    assert(state_of(locals@, 0, symbols@, references@, dependencies@) =~= ScanState {
        locals: Seq::empty(),
        seq: 0,
        ..st0
    });
    assert(func.params@.take(0) =~= Seq::<Param>::empty());
    let mut i: usize = 0;
    while i < func.params.len()
        invariant
            i <= func.params@.len(),
            c == context_of(file@, *module, func.name@, function_symbol_ids@),
            state_of(locals@, 0, symbols@, references@, dependencies@) == bind_params(
                c,
                ScanState { locals: Seq::empty(), seq: 0, ..st0 },
                func.params@.take(i as int),
                func.span,
            ),
        decreases func.params.len() - i,
    {
        let p = &func.params[i];
        let q = joined(func.name.as_str(), "::", p.name.as_str());
        let id = SymbolId(stable_symbol_id(file, q.as_str(), SymbolKind::Param, "param", i as u64));
        let ghost l0 = locals@;
        let ghost s0 = views(symbols@);
        locals.insert(0, (to_owned_string(p.name.as_str()), id));
        let sym = Symbol {
            id,
            name: to_owned_string(p.name.as_str()),
            kind: SymbolKind::Param,
            module: copy_opt_string(module),
            file: to_owned_string(file),
            span: index_span(func.span),
        };
        symbols.push(sym);
        proof {
            let t = func.params@.take(i + 1);
            assert(t.drop_last() =~= func.params@.take(i as int));
            assert(t.last() == func.params@[i as int]);
            assert(id_entries(locals@) =~= seq![(p.name@, id)] + id_entries(l0));
            assert(views(symbols@) =~= s0.push(sym@));
            assert(c.module == opt_text(*module));
        }
        i = i + 1;
    }
    assert(func.params@.take(func.params@.len() as int) =~= func.params@);
    let ghost s1 = state_of(locals@, 0, symbols@, references@, dependencies@);
    assert(func.contracts@.take(0) =~= Seq::<Contract>::empty());
    let mut k: usize = 0;
    while k < func.contracts.len()
        invariant
            k <= func.contracts@.len(),
            c == context_of(file@, *module, func.name@, function_symbol_ids@),
            s1.locals == id_entries(locals@),
            state_of(locals@, 0, symbols@, references@, dependencies@) == contracts_scan(
                c,
                s1,
                func.contracts@.take(k as int),
            ),
        decreases func.contracts.len() - k,
    {
        let t = Ghost(func.contracts@.take(k + 1));
        assert(t@.drop_last() =~= func.contracts@.take(k as int));
        index_contract(
            &func.contracts[k],
            k,
            file,
            module,
            func.name.as_str(),
            &locals,
            function_symbol_ids,
            symbols,
            references,
            dependencies,
        );
        k = k + 1;
    }
    assert(func.contracts@.take(func.contracts@.len() as int) =~= func.contracts@);
    let ghost s2 = state_of(locals@, 0, symbols@, references@, dependencies@);
    let mut seq: u64 = 0;
    let mut j: usize = 0;
    assert(func.body@.take(0) =~= Seq::<crate::ast::Stmt>::empty());
    while j < func.body.len()
        invariant
            j <= func.body@.len(),
            stmts_binders(func.body@) <= u64::MAX,
            c == context_of(file@, *module, func.name@, function_symbol_ids@),
            seq == stmts_binders(func.body@.take(j as int)),
            state_of(locals@, seq, symbols@, references@, dependencies@) == stmts_scan(
                c,
                s2,
                func.body@.take(j as int),
            ),
        decreases func.body.len() - j,
    {
        proof {
            let t = func.body@.take(j + 1);
            assert(t.drop_last() =~= func.body@.take(j as int));
            assert(t.last() == func.body@[j as int]);
            lemma_stmts_binders_prefix(func.body@, j + 1);
        }
        collect_stmt_refs(
            &func.body[j],
            file,
            module,
            func.name.as_str(),
            &mut locals,
            &mut seq,
            function_symbol_ids,
            symbols,
            references,
            dependencies,
        );
        j = j + 1;
    }
    assert(func.body@.take(func.body@.len() as int) =~= func.body@);
    match &func.tail_expr {
        Some(t) => {
            collect_expr_refs(t, file, &locals, function_symbol_ids, references, dependencies);
        },
        None => {},
    }
}

fn type_text_exec(t: &Option<crate::ast::TypeRef>) -> (r: &str)
    ensures
        r@ == type_text(*t),
{
    match t {
        Some(t) => t.raw.as_str(),
        None => "Unknown",
    }
}

/// The first function of `hir` named `name`, by position.
fn find_hir_function(hir: &HirProgram, name: &str) -> (r: Option<usize>)
    ensures
        match r {
            Some(i) => i < hir.functions@.len() && hir_function_named(hir.functions@, name@) == Some(
                hir.functions@[i as int],
            ),
            None => hir_function_named(hir.functions@, name@).is_none(),
        },
{
    let ghost fs = hir.functions@;
    let mut i: usize = 0;
    assert(fs.subrange(0, fs.len() as int) =~= fs);
    while i < hir.functions.len()
        invariant
            fs == hir.functions@,
            i <= fs.len(),
            hir_function_named(fs, name@) == hir_function_named(fs.subrange(i as int, fs.len() as int), name@),
        decreases hir.functions.len() - i,
    {
        let ghost t = fs.subrange(i as int, fs.len() as int);
        assert(t[0] == fs[i as int]);
        assert(t.subrange(1, t.len() as int) =~= fs.subrange(i + 1, fs.len() as int));
        if str_eq(hir.functions[i].name.as_str(), name) {
            return Some(i);
        }
        i = i + 1;
    }
    None
}

/// What the index records of a function (see `function_meta_spec`): its
/// signature's hash, its first `@intent`, whether it has `@examples`, and
/// the effects the checked program gives it.
pub fn build_function_meta(file: &str, func: &FunctionDecl, symbol_id: SymbolId, hir: &HirProgram) -> (r:
    FunctionMeta)
    ensures
        r@ == function_meta_spec(file@, *func, symbol_id, *hir),
{
    let ghost ps = func.params@;
    let mut sig = joined2(func.name.as_str(), "(");
    let mut i: usize = 0;
    assert(param_texts(ps.take(0)) =~= Seq::<Seq<char>>::empty());
    while i < func.params.len()
        invariant
            ps == func.params@,
            i <= ps.len(),
            sig@ == func.name@ + "("@ + join_texts(param_texts(ps.take(i as int)), ","@),
        decreases func.params.len() - i,
    {
        let p = &func.params[i];
        let ghost before = sig@;
        if i > 0 {
            push_str(&mut sig, ",");
        }
        push_str(&mut sig, p.name.as_str());
        push_str(&mut sig, ":");
        push_str(&mut sig, type_text_exec(&p.ty));
        proof {
            let t = param_texts(ps.take(i + 1));
            assert(t =~= param_texts(ps.take(i as int)).push(p.name@ + ":"@ + type_text(p.ty)));
            assert(t.drop_last() =~= param_texts(ps.take(i as int)));
            if i == 0 {
                assert(sig@ =~= func.name@ + "("@ + t[0]);
            } else {
                assert(sig@ =~= func.name@ + "("@ + (join_texts(t.drop_last(), ","@) + ","@ + t.last()));
            }
        }
        i = i + 1;
    }
    assert(ps.take(ps.len() as int) =~= ps);
    push_str(&mut sig, ")->");
    push_str(&mut sig, type_text_exec(&func.return_type));
    assert(sig@ =~= signature_text(*func));
    let signature_hash = stable_hash_hex(sig.as_str());
    let ghost cs = func.contracts@;
    let mut intent_text: Option<String> = None;
    let mut k: usize = 0;
    assert(cs.subrange(0, cs.len() as int) =~= cs);
    while k < func.contracts.len()
        invariant_except_break
            intent_text is None,
            first_intent(cs) == first_intent(cs.subrange(k as int, cs.len() as int)),
        invariant
            cs == func.contracts@,
            k <= cs.len(),
        ensures
            opt_text(intent_text) == first_intent(cs),
        decreases func.contracts.len() - k,
    {
        let ghost t = cs.subrange(k as int, cs.len() as int);
        assert(t[0] == cs[k as int]);
        assert(t.subrange(1, t.len() as int) =~= cs.subrange(k + 1, cs.len() as int));
        match &func.contracts[k] {
            Contract::Intent { text, .. } => {
                intent_text = Some(to_owned_string(text.as_str()));
                break;
            },
            _ => {},
        }
        k = k + 1;
    }
    let mut has_examples = false;
    let mut e: usize = 0;
    while e < func.contracts.len()
        invariant_except_break
            !has_examples,
            forall|q: int| 0 <= q < e ==> !(cs[q] is Examples),
        invariant
            cs == func.contracts@,
            e <= cs.len(),
        ensures
            has_examples == has_examples_spec(cs),
        decreases func.contracts.len() - e,
    {
        if let Contract::Examples { .. } = &func.contracts[e] {
            has_examples = true;
            assert(cs[e as int] is Examples);
            break;
        }
        e = e + 1;
    }
    let (effects_declared, effects_observed) = match find_hir_function(hir, func.name.as_str()) {
        Some(h) => (
            copy_strings(&hir.functions[h].effects_declared),
            copy_strings(&hir.functions[h].effects_observed),
        ),
        None => {
            let d: Vec<String> = Vec::new();
            let o: Vec<String> = Vec::new();
            assert(views(d@) =~= Seq::<Seq<char>>::empty());
            assert(views(o@) =~= Seq::<Seq<char>>::empty());
            (d, o)
        },
    };
    let r = FunctionMeta {
        symbol_id,
        function_name: to_owned_string(func.name.as_str()),
        file: to_owned_string(file),
        signature_hash,
        effects_declared,
        effects_observed,
        intent_text,
        has_examples,
        is_public: func.is_public,
    };
    assert(r@.effects_declared == function_meta_spec(file@, *func, symbol_id, *hir).effects_declared);
    r
}

fn indexed_severity(s: Severity) -> (r: IndexedSeverity)
    ensures
        r == indexed_severity_of(s),
{
    match s {
        Severity::Error => IndexedSeverity::Error,
        Severity::Warning => IndexedSeverity::Warning,
        Severity::Info => IndexedSeverity::Info,
    }
}

/// Builds the index of a source file from its path, text, syntax tree,
/// checked program and diagnostics: the symbols of its functions, then
/// each function's parameters, contract annotations, locals and
/// references; the metadata and effect mismatches of its functions; its
/// diagnostics; its imports and the outside names it uses; all in
/// canonical order (see `raw_file_index` and `file_index_normalized`).
pub fn build_file_index(
    file: &str,
    source: &str,
    ast: &FileAst,
    hir: &HirProgram,
    diagnostics: &Vec<Diagnostic>,
) -> (r: FileIndex)
    requires
        binders_fit(ast.declarations@),
    ensures
        file_index_normalized(raw_file_index(file@, source@, *ast, *hir, views(diagnostics@)), r@),
{
    let ghost decls = ast.declarations@;
    let ghost module = opt_text(ast.module);
    let mut symbols: Vec<Symbol> = Vec::new();
    let mut ids: Vec<(String, SymbolId)> = Vec::new();
    assert(views(symbols@) =~= function_symbols(file@, module, decls.take(0)));
    assert(id_entries(ids@) =~= function_ids(file@, decls.take(0)));
    let mut i: usize = 0;
    while i < ast.declarations.len()
        invariant
            decls == ast.declarations@,
            module == opt_text(ast.module),
            i <= decls.len(),
            views(symbols@) == function_symbols(file@, module, decls.take(i as int)),
            id_entries(ids@) == function_ids(file@, decls.take(i as int)),
        decreases ast.declarations.len() - i,
    {
        proof {
            let t = decls.take(i + 1);
            assert(t.drop_last() =~= decls.take(i as int));
            assert(t.last() == decls[i as int]);
        }
        match &ast.declarations[i] {
            Declaration::Function(f) => {
                let id = SymbolId(stable_symbol_id(file, f.name.as_str(), SymbolKind::Function, "decl", i as u64));
                let ghost l0 = ids@;
                let ghost s0 = views(symbols@);
                ids.insert(0, (to_owned_string(f.name.as_str()), id));
                let sym = Symbol {
                    id,
                    name: to_owned_string(f.name.as_str()),
                    kind: SymbolKind::Function,
                    module: copy_opt_string(&ast.module),
                    file: to_owned_string(file),
                    span: index_span(f.span),
                };
                symbols.push(sym);
                assert(id_entries(ids@) =~= seq![(f.name@, id)] + id_entries(l0));
                assert(views(symbols@) =~= s0.push(sym@));
            },
            _ => {},
        }
        i = i + 1;
    }
    assert(decls.take(decls.len() as int) =~= decls);
    let ghost fids = id_entries(ids@);
    let mut references: Vec<Reference> = Vec::new();
    let mut dependencies = copy_strings(&ast.imports);
    let mut metas: Vec<FunctionMeta> = Vec::new();
    let mut mismatches: Vec<EffectMismatch> = Vec::new();
    let ghost st0 = ScanState {
        locals: Seq::empty(),
        seq: 0,
        symbols: views(symbols@),
        references: Seq::empty(),
        deps: views(ast.imports@),
    };
    assert(views(references@) =~= Seq::<crate::indexer::model::ReferenceView>::empty());
    assert(functions_of(decls.take(0)) =~= Seq::<FunctionDecl>::empty());
    assert(views(metas@) =~= metas_spec(file@, functions_of(decls.take(0)), fids, *hir));
    assert(views(mismatches@) =~= mismatches_spec(file@, functions_of(decls.take(0)), *hir));
    let mut j: usize = 0;
    while j < ast.declarations.len()
        invariant
            decls == ast.declarations@,
            module == opt_text(ast.module),
            fids == id_entries(ids@),
            binders_fit(decls),
            j <= decls.len(),
            ({
                let st = functions_scan(file@, module, fids, st0, functions_of(decls.take(j as int)));
                &&& views(symbols@) == st.symbols
                &&& views(references@) == st.references
                &&& views(dependencies@) == st.deps
            }),
            views(metas@) == metas_spec(file@, functions_of(decls.take(j as int)), fids, *hir),
            views(mismatches@) == mismatches_spec(file@, functions_of(decls.take(j as int)), *hir),
        decreases ast.declarations.len() - j,
    {
        proof {
            let t = decls.take(j + 1);
            assert(t.drop_last() =~= decls.take(j as int));
            assert(t.last() == decls[j as int]);
        }
        match &ast.declarations[j] {
            Declaration::Function(f) => {
                let ghost fs0 = functions_of(decls.take(j as int));
                let ghost prev = functions_scan(file@, module, fids, st0, fs0);
                assert(stmts_binders(f.body@) <= u64::MAX) by {
                    assert(decls[j as int] matches Declaration::Function(g) ==> stmts_binders(g.body@) <= u64::MAX);
                }
                let ghost before = start_state(views(symbols@), views(references@), views(dependencies@));
                index_function(file, &ast.module, f, &ids, &mut symbols, &mut references, &mut dependencies);
                proof {
                    let c = ScanContext { file: file@, module, function: f.name@, functions: fids };
                    assert(context_of(file@, ast.module, f.name@, ids@) == c);
                    lemma_function_scan_reads_lists(c, prev, before, *f);
                    let fs1 = functions_of(decls.take(j + 1));
                    assert(fs1 =~= fs0.push(*f));
                    assert(fs1.drop_last() =~= fs0);
                }
                let id = match symbol_of_exec(&ids, f.name.as_str()) {
                    Some(id) => id,
                    None => SymbolId(0),
                };
                let meta = build_function_meta(file, f, id, hir);
                let ghost m0 = views(metas@);
                metas.push(meta);
                proof {
                    let fs1 = functions_of(decls.take(j + 1));
                    assert(views(metas@) =~= m0.push(meta@));
                    assert(metas_spec(file@, fs1, fids, *hir) =~= metas_spec(
                        file@,
                        functions_of(decls.take(j as int)),
                        fids,
                        *hir,
                    ).push(meta@));
                }
                match effect_mismatch_of(f.name.as_str(), file, hir) {
                    Some(m) => {
                        let ghost x0 = views(mismatches@);
                        mismatches.push(m);
                        assert(views(mismatches@) =~= x0.push(m@));
                    },
                    None => {},
                }
            },
            _ => {},
        }
        j = j + 1;
    }
    let mut indexed: Vec<IndexedDiagnostic> = Vec::new();
    let ghost dv = views(diagnostics@);
    let mut k: usize = 0;
    while k < diagnostics.len()
        invariant
            dv == views(diagnostics@),
            k <= dv.len(),
            views(indexed@) == dv.take(k as int).map_values(|d: DiagnosticView| indexed_diagnostic_of(d)),
        decreases diagnostics.len() - k,
    {
        let d = &diagnostics[k];
        let item = IndexedDiagnostic {
            code: to_owned_string(d.code.as_str()),
            severity: indexed_severity(d.severity),
            message: to_owned_string(d.message.as_str()),
            span: index_span(d.span),
        };
        let ghost x0 = views(indexed@);
        indexed.push(item);
        assert(views(indexed@) =~= x0.push(item@));
        assert(dv.take(k + 1).map_values(|d: DiagnosticView| indexed_diagnostic_of(d)) =~= dv.take(
            k as int,
        ).map_values(|d: DiagnosticView| indexed_diagnostic_of(d)).push(indexed_diagnostic_of(dv[k as int])));
        k = k + 1;
    }
    assert(dv.take(dv.len() as int) =~= dv);
    let mut file_index = FileIndex {
        file: to_owned_string(file),
        file_hash: stable_hash_hex(source),
        symbols,
        references,
        function_meta: metas,
        effect_mismatches: mismatches,
        diagnostics: indexed,
        dependencies,
    };
    assert(file_index@ == raw_file_index(file@, source@, *ast, *hir, views(diagnostics@)));
    file_index.normalize();
    file_index
}

/// `n`, or one past the largest `u64` where `n` is larger.
pub open spec fn capped(n: nat) -> u128 {
    if n > u64::MAX + 1 {
        (u64::MAX + 1) as u128
    } else {
        n as u128
    }
}

fn add_capped(a: u128, b: u128) -> (r: u128)
    requires
        a <= u64::MAX + 1,
        b <= u64::MAX + 1,
    ensures
        r == capped((a + b) as nat),
{
    if a + b > 0x1_0000_0000_0000_0000u128 {
        0x1_0000_0000_0000_0000u128
    } else {
        a + b
    }
}

proof fn lemma_capped_add(x: nat, y: nat)
    ensures
        capped((capped(x) + capped(y)) as nat) == capped(x + y),
{
}

/// How many locals the statements bind, capped at the largest `u64`.
fn stmts_binders_capped(body: &Vec<Stmt>) -> (r: u128)
    ensures
        r == capped(stmts_binders(body@)),
    decreases body, 0int,
{
    let mut total: u128 = 0;
    let mut i: usize = 0;
    assert(body@.take(0) =~= Seq::<Stmt>::empty());
    while i < body.len()
        invariant
            i <= body@.len(),
            total == capped(stmts_binders(body@.take(i as int))),
        decreases body.len() - i,
    {
        proof {
            let t = body@.take(i + 1);
            assert(t.drop_last() =~= body@.take(i as int));
            assert(t.last() == body@[i as int]);
            assert(decreases_to!(body => body@[i as int]));
        }
        let n = stmt_binders_capped(&body[i]);
        proof {
            lemma_capped_add(stmts_binders(body@.take(i as int)), stmt_binders(body@[i as int]));
        }
        total = add_capped(total, n);
        i = i + 1;
    }
    assert(body@.take(body@.len() as int) =~= body@);
    total
}

/// How many locals a statement binds, capped at the largest `u64`.
fn stmt_binders_capped(s: &Stmt) -> (r: u128)
    ensures
        r == capped(stmt_binders(*s)),
    decreases s, 1int,
{
    match s {
        Stmt::Binding { .. } => 1,
        Stmt::For { body, .. } => {
            let n = stmts_binders_capped(body);
            proof {
                lemma_capped_add(1, stmts_binders(body@));
            }
            add_capped(1, n)
        },
        Stmt::If { then_body, else_body, .. } => {
            let a = stmts_binders_capped(then_body);
            let b = stmts_binders_capped(else_body);
            proof {
                lemma_capped_add(stmts_binders(then_body@), stmts_binders(else_body@));
            }
            add_capped(a, b)
        },
        Stmt::While { body, .. } => stmts_binders_capped(body),
        Stmt::Repeat { body, .. } => stmts_binders_capped(body),
        Stmt::Select { cases, .. } => {
            let mut total: u128 = 0;
            let mut i: usize = 0;
            assert(cases@.take(0) =~= Seq::<crate::ast::SelectCase>::empty());
            while i < cases.len()
                invariant
                    i <= cases@.len(),
                    total == capped(cases_binders(cases@.take(i as int))),
                decreases cases.len() - i,
            {
                proof {
                    let t = cases@.take(i + 1);
                    assert(t.drop_last() =~= cases@.take(i as int));
                    assert(t.last() == cases@[i as int]);
                }
                if let crate::ast::SelectPattern::Receive { .. } = &cases[i].pattern {
                    total = add_capped(total, 1);
                }
                i = i + 1;
            }
            assert(cases@.take(cases@.len() as int) =~= cases@);
            total
        },
        _ => 0,
    }
}

/// Whether every function body's locals can be numbered in a `u64`
/// (`binders_fit`), as `build_file_index` needs.
pub fn locals_fit(ast: &FileAst) -> (r: bool)
    ensures
        r == binders_fit(ast.declarations@),
{
    let ghost decls = ast.declarations@;
    let mut i: usize = 0;
    while i < ast.declarations.len()
        invariant
            decls == ast.declarations@,
            i <= decls.len(),
            forall|k: int|
                0 <= k < i ==> (#[trigger] decls[k] matches Declaration::Function(f)
                    ==> stmts_binders(f.body@) <= u64::MAX),
        decreases ast.declarations.len() - i,
    {
        match &ast.declarations[i] {
            Declaration::Function(f) => {
                if stmts_binders_capped(&f.body) > 0xffff_ffff_ffff_ffffu128 {
                    assert(decls[i as int] matches Declaration::Function(g) && stmts_binders(g.body@)
                        > u64::MAX);
                    return false;
                }
            },
            _ => {},
        }
        i = i + 1;
    }
    true
}

} // verus!
