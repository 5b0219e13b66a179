use vstd::prelude::*;

use crate::ast::{Expr, MatchArm, SelectCase, SelectPattern, Stmt};
use crate::diagnostics::Span;
use crate::indexer::extract::{hex_number, stable_hash_spec, stable_symbol_id, symbol_id_text};
use crate::indexer::model::{IndexSpan, Reference, ReferenceView, Symbol, SymbolId, SymbolKind, SymbolView};
use crate::indexer::refs::{
    collect_expr_refs, expr_deps, expr_refs, id_entries, index_span_of, symbol_of, symbol_of_exec,
};
use crate::order::views;
use crate::text::{push_str, to_owned_string};

verus! {

/// What the scan of a function body has gathered so far: the locals in
/// scope (the newest first), the ordinal of the next local, and the
/// symbols, references and outside names found.
pub struct ScanState {
    pub locals: Seq<(Seq<char>, SymbolId)>,
    pub seq: int,
    pub symbols: Seq<SymbolView>,
    pub references: Seq<ReferenceView>,
    pub deps: Seq<Seq<char>>,
}

/// The function being scanned and its file.
pub struct ScanContext {
    pub file: Seq<char>,
    pub module: Option<Seq<char>>,
    pub function: Seq<char>,
    pub functions: Seq<(Seq<char>, SymbolId)>,
}

/// The id of a local named `name` of the function, from its group and
/// ordinal.
pub open spec fn local_symbol_id(c: ScanContext, name: Seq<char>, group: Seq<char>, ordinal: int) -> SymbolId {
    SymbolId(
        hex_number(
            stable_hash_spec(
                symbol_id_text(c.file, c.function + "::"@ + name, SymbolKind::Local, group, ordinal as nat),
            ).take(16),
        ) as u64,
    )
}

/// The state after scanning the expression `e`.
pub open spec fn with_expr(c: ScanContext, st: ScanState, e: Expr) -> ScanState {
    ScanState {
        references: st.references + expr_refs(e, c.file, st.locals, c.functions),
        deps: st.deps + expr_deps(e, st.locals, c.functions),
        ..st
    }
}

/// The state after binding a local: a new symbol, in scope from now on.
pub open spec fn bind_local(
    c: ScanContext,
    st: ScanState,
    name: Seq<char>,
    group: Seq<char>,
    span: Span,
) -> ScanState {
    let id = local_symbol_id(c, name, group, st.seq);
    ScanState {
        locals: seq![(name, id)] + st.locals,
        seq: st.seq + 1,
        symbols: st.symbols.push(
            SymbolView {
                id,
                name,
                kind: SymbolKind::Local,
                module: c.module,
                file: c.file,
                span: index_span_of(span),
            },
        ),
        ..st
    }
}

/// The state after scanning a statement: bindings, loop variables and
/// select bindings become locals; every expression is scanned, in source
/// order; a `closed` select pattern refers to its local.
pub open spec fn stmt_scan(c: ScanContext, st: ScanState, s: Stmt) -> ScanState
    decreases s, 1int,
{
    match s {
        Stmt::Binding { name, expr, span, .. } => bind_local(c, with_expr(c, st, expr), name@, "binding"@, span),
        Stmt::Assignment { target, expr, .. } => with_expr(c, with_expr(c, st, target), expr),
        Stmt::Return { expr, .. } => with_expr(c, st, expr),
        Stmt::ExprStmt { expr, .. } => with_expr(c, st, expr),
        Stmt::Go { expr, .. } => with_expr(c, st, expr),
        Stmt::Thread { expr, .. } => with_expr(c, st, expr),
        Stmt::For { var, iter, body, span, .. } => stmts_scan(
            c,
            bind_local(c, with_expr(c, st, iter), var@, "for-var"@, span),
            body@,
        ),
        Stmt::If { cond, then_body, else_body, .. } => stmts_scan(
            c,
            stmts_scan(c, with_expr(c, st, cond), then_body@),
            else_body@,
        ),
        Stmt::While { cond, body, .. } => stmts_scan(c, with_expr(c, st, cond), body@),
        Stmt::Repeat { count, body, .. } => stmts_scan(c, with_expr(c, st, count), body@),
        Stmt::Select { cases, .. } => cases_scan(c, st, cases@),
        Stmt::Break { .. } => st,
        Stmt::Continue { .. } => st,
        Stmt::Match { scrutinee, arms, default_action, .. } => {
            let s1 = arms_scan(c, with_expr(c, st, scrutinee), arms@);
            match default_action {
                Some(e) => with_expr(c, s1, e),
                None => s1,
            }
        },
    }
}

/// The state after scanning a block, in order.
pub open spec fn stmts_scan(c: ScanContext, st: ScanState, s: Seq<Stmt>) -> ScanState
    decreases s, 0int,
{
    if s.len() == 0 {
        st
    } else {
        stmt_scan(c, stmts_scan(c, st, s.drop_last()), s.last())
    }
}

/// The state after scanning a select case: its pattern, then its action.
pub open spec fn case_scan(c: ScanContext, st: ScanState, k: SelectCase) -> ScanState
    decreases k, 1int,
{
    let s1 = match k.pattern {
        SelectPattern::Receive { binding, expr } => bind_local(
            c,
            with_expr(c, st, expr),
            binding@,
            "select-binding"@,
            k.span,
        ),
        SelectPattern::Closed { ident } => match symbol_of(st.locals, ident@) {
            Some(id) => ScanState {
                references: st.references.push(
                    ReferenceView { symbol_id: id, file: c.file, span: index_span_of(k.span) },
                ),
                ..st
            },
            None => st,
        },
        _ => st,
    };
    with_expr(c, s1, k.action)
}

pub open spec fn cases_scan(c: ScanContext, st: ScanState, s: Seq<SelectCase>) -> ScanState
    decreases s, 0int,
{
    if s.len() == 0 {
        st
    } else {
        case_scan(c, cases_scan(c, st, s.drop_last()), s.last())
    }
}

pub open spec fn arms_scan(c: ScanContext, st: ScanState, s: Seq<MatchArm>) -> ScanState
    decreases s, 0int,
{
    if s.len() == 0 {
        st
    } else {
        let p = arms_scan(c, st, s.drop_last());
        with_expr(c, with_expr(c, p, s.last().pattern), s.last().action)
    }
}

/// How many locals a statement binds.
pub open spec fn stmt_binders(s: Stmt) -> nat
    decreases s, 1int,
{
    match s {
        Stmt::Binding { name: _, expr: _, span: _, .. } => 1,
        Stmt::For { var: _, iter: _, body, span: _, .. } => 1 + stmts_binders(body@),
        Stmt::If { cond: _, then_body, else_body, .. } => stmts_binders(then_body@) + stmts_binders(else_body@),
        Stmt::While { cond: _, body, .. } => stmts_binders(body@),
        Stmt::Repeat { count: _, body, .. } => stmts_binders(body@),
        Stmt::Select { cases, .. } => cases_binders(cases@),
        _ => 0,
    }
}

pub open spec fn stmts_binders(s: Seq<Stmt>) -> nat
    decreases s, 0int,
{
    if s.len() == 0 {
        0
    } else {
        stmts_binders(s.drop_last()) + stmt_binders(s.last())
    }
}

pub open spec fn cases_binders(s: Seq<SelectCase>) -> nat
    decreases s.len(),
{
    if s.len() == 0 {
        0
    } else {
        cases_binders(s.drop_last()) + if s.last().pattern is Receive {
            1nat
        } else {
            0nat
        }
    }
}

/// The scan state that the mutable accumulators hold.
pub open spec fn state_of(
    locals: Seq<(String, SymbolId)>,
    seq: u64,
    symbols: Seq<Symbol>,
    references: Seq<Reference>,
    deps: Seq<String>,
) -> ScanState {
    ScanState {
        locals: id_entries(locals),
        seq: seq as int,
        symbols: views(symbols),
        references: views(references),
        deps: views(deps),
    }
}

/// The scan context of a function of a file.
pub open spec fn context_of(
    file: Seq<char>,
    module: Option<String>,
    function: Seq<char>,
    functions: Seq<(String, SymbolId)>,
) -> ScanContext {
    ScanContext {
        file,
        module: match module {
            Some(m) => Some(m@),
            None => None,
        },
        function,
        functions: id_entries(functions),
    }
}

pub proof fn lemma_stmts_binders_prefix(s: Seq<Stmt>, j: int)
    requires
        0 <= j <= s.len(),
    ensures
        stmts_binders(s.take(j)) <= stmts_binders(s),
    decreases s.len(),
{
    if j < s.len() {
        assert(s.drop_last().take(j) =~= s.take(j));
        lemma_stmts_binders_prefix(s.drop_last(), j);
    } else {
        assert(s.take(j) =~= s);
    }
}

proof fn lemma_cases_binders_prefix(s: Seq<SelectCase>, j: int)
    requires
        0 <= j <= s.len(),
    ensures
        cases_binders(s.take(j)) <= cases_binders(s),
    decreases s.len(),
{
    if j < s.len() {
        assert(s.drop_last().take(j) =~= s.take(j));
        lemma_cases_binders_prefix(s.drop_last(), j);
    } else {
        assert(s.take(j) =~= s);
    }
}

fn copy_module(module: &Option<String>) -> (r: Option<String>)
    ensures
        match (r, *module) {
            (Some(a), Some(b)) => a@ == b@,
            (None, None) => true,
            _ => false,
        },
{
    match module {
        Some(m) => Some(to_owned_string(m.as_str())),
        None => None,
    }
}

#[verifier::rlimit(50)]
fn bind_local_exec(
    name: &str,
    group: &str,
    span: Span,
    file: &str,
    module: &Option<String>,
    func_name: &str,
    functions: &Vec<(String, SymbolId)>,
    locals: &mut Vec<(String, SymbolId)>,
    local_seq: &mut u64,
    symbols: &mut Vec<Symbol>,
    references: &Vec<Reference>,
    dependencies: &Vec<String>,
)
    requires
        *old(local_seq) < u64::MAX,
    ensures
        state_of(final(locals)@, *final(local_seq), final(symbols)@, references@, dependencies@)
            == bind_local(
            context_of(file@, *module, func_name@, functions@),
            state_of(old(locals)@, *old(local_seq), old(symbols)@, references@, dependencies@),
            name@,
            group@,
            span,
        ),
{
    let ghost c = context_of(file@, *module, func_name@, functions@);
    let ghost st = state_of(locals@, *local_seq, symbols@, references@, dependencies@);
    let mut qualified = to_owned_string(func_name);
    push_str(&mut qualified, "::");
    push_str(&mut qualified, name);
    let id = SymbolId(stable_symbol_id(file, qualified.as_str(), SymbolKind::Local, group, *local_seq));
    assert(id == local_symbol_id(c, name@, group@, st.seq));
    let ghost l0 = locals@;
    locals.insert(0, (to_owned_string(name), id));
    assert(id_entries(locals@) =~= seq![(name@, id)] + id_entries(l0));
    *local_seq = *local_seq + 1;
    let ghost s0 = symbols@;
    symbols.push(
        Symbol {
            id,
            name: to_owned_string(name),
            kind: SymbolKind::Local,
            module: copy_module(module),
            file: to_owned_string(file),
            span: IndexSpan {
                line_start: span.line_start,
                col_start: span.col_start,
                line_end: span.line_end,
                col_end: span.col_end,
            },
        },
    );
    assert(views(symbols@) =~= views(s0).push(
        SymbolView {
            id,
            name: name@,
            kind: SymbolKind::Local,
            module: c.module,
            file: c.file,
            span: index_span_of(span),
        },
    ));
}

fn scan_expr(
    e: &Expr,
    file: &str,
    locals: &Vec<(String, SymbolId)>,
    function_symbol_ids: &Vec<(String, SymbolId)>,
    references: &mut Vec<Reference>,
    dependencies: &mut Vec<String>,
)
    ensures
        views(final(references)@) == views(old(references)@) + expr_refs(
            *e,
            file@,
            id_entries(locals@),
            id_entries(function_symbol_ids@),
        ),
        views(final(dependencies)@) == views(old(dependencies)@) + expr_deps(
            *e,
            id_entries(locals@),
            id_entries(function_symbol_ids@),
        ),
{
    collect_expr_refs(e, file, locals, function_symbol_ids, references, dependencies);
}

/// Scans a statement of the function `func_name` (see `stmt_scan`):
/// records the locals it binds as symbols, brings them into scope, and
/// appends the references and outside names of its expressions.
pub fn collect_stmt_refs(
    stmt: &Stmt,
    file: &str,
    module: &Option<String>,
    func_name: &str,
    locals: &mut Vec<(String, SymbolId)>,
    local_seq: &mut u64,
    function_symbol_ids: &Vec<(String, SymbolId)>,
    symbols: &mut Vec<Symbol>,
    references: &mut Vec<Reference>,
    dependencies: &mut Vec<String>,
)
    requires
        *old(local_seq) + stmt_binders(*stmt) <= u64::MAX,
    ensures
        state_of(final(locals)@, *final(local_seq), final(symbols)@, final(references)@, final(dependencies)@) == stmt_scan(context_of(file@, *module, func_name@, function_symbol_ids@), state_of(old(locals)@, *old(local_seq), old(symbols)@, old(references)@, old(dependencies)@), *stmt),
        *final(local_seq) == *old(local_seq) + stmt_binders(*stmt),
    decreases stmt, 1int,
{
    let ghost c = context_of(file@, *module, func_name@, function_symbol_ids@);
    let ghost st0 = state_of(locals@, *local_seq, symbols@, references@, dependencies@);
    match stmt {
        Stmt::Binding { name, expr, span, .. } => {
            scan_expr(expr, file, locals, function_symbol_ids, references, dependencies);
            assert(state_of(locals@, *local_seq, symbols@, references@, dependencies@) == with_expr(c, st0, *expr));
            bind_local_exec(name.as_str(), "binding", *span, file, module, func_name, function_symbol_ids, locals, local_seq, symbols, references, dependencies);
        },
        Stmt::Assignment { target, expr, .. } => {
            scan_expr(target, file, locals, function_symbol_ids, references, dependencies);
            let ghost st1 = state_of(locals@, *local_seq, symbols@, references@, dependencies@);
            assert(st1 == with_expr(c, st0, *target));
            scan_expr(expr, file, locals, function_symbol_ids, references, dependencies);
            assert(state_of(locals@, *local_seq, symbols@, references@, dependencies@) == with_expr(c, st1, *expr));
        },
        Stmt::Return { expr, .. } | Stmt::ExprStmt { expr, .. } | Stmt::Go { expr, .. } | Stmt::Thread { expr, .. } => {
            scan_expr(expr, file, locals, function_symbol_ids, references, dependencies);
            assert(state_of(locals@, *local_seq, symbols@, references@, dependencies@) == with_expr(c, st0, *expr));
        },
        Stmt::For { var, iter, body, span, .. } => {
            scan_expr(iter, file, locals, function_symbol_ids, references, dependencies);
            assert(state_of(locals@, *local_seq, symbols@, references@, dependencies@) == with_expr(c, st0, *iter));
            bind_local_exec(var.as_str(), "for-var", *span, file, module, func_name, function_symbol_ids, locals, local_seq, symbols, references, dependencies);
            collect_stmts_refs(body, file, module, func_name, locals, local_seq, function_symbol_ids, symbols, references, dependencies);
        },
        Stmt::If { cond, then_body, else_body, .. } => {
            scan_expr(cond, file, locals, function_symbol_ids, references, dependencies);
            assert(state_of(locals@, *local_seq, symbols@, references@, dependencies@) == with_expr(c, st0, *cond));
            collect_stmts_refs(then_body, file, module, func_name, locals, local_seq, function_symbol_ids, symbols, references, dependencies);
            collect_stmts_refs(else_body, file, module, func_name, locals, local_seq, function_symbol_ids, symbols, references, dependencies);
        },
        Stmt::While { cond, body, .. } => {
            scan_expr(cond, file, locals, function_symbol_ids, references, dependencies);
            assert(state_of(locals@, *local_seq, symbols@, references@, dependencies@) == with_expr(c, st0, *cond));
            collect_stmts_refs(body, file, module, func_name, locals, local_seq, function_symbol_ids, symbols, references, dependencies);
        },
        Stmt::Repeat { count, body, .. } => {
            scan_expr(count, file, locals, function_symbol_ids, references, dependencies);
            assert(state_of(locals@, *local_seq, symbols@, references@, dependencies@) == with_expr(c, st0, *count));
            collect_stmts_refs(body, file, module, func_name, locals, local_seq, function_symbol_ids, symbols, references, dependencies);
        },
        Stmt::Select { cases, .. } => {
            collect_cases_refs(cases, file, module, func_name, locals, local_seq, function_symbol_ids, symbols, references, dependencies);
        },
        Stmt::Break { .. } | Stmt::Continue { .. } => {},
        Stmt::Match { scrutinee, arms, default_action, .. } => {
            scan_expr(scrutinee, file, locals, function_symbol_ids, references, dependencies);
            let ghost sm = state_of(locals@, *local_seq, symbols@, references@, dependencies@);
            assert(sm == with_expr(c, st0, *scrutinee));
            collect_arms_refs(arms, file, locals, function_symbol_ids, references, dependencies);
            proof {
                lemma_arms_scan(c, sm, arms@);
                assert(state_of(locals@, *local_seq, symbols@, references@, dependencies@) == arms_scan(c, sm, arms@));
            }
            let ghost st1 = state_of(locals@, *local_seq, symbols@, references@, dependencies@);
            match default_action {
                Some(e) => {
                    scan_expr(e, file, locals, function_symbol_ids, references, dependencies);
                    assert(state_of(locals@, *local_seq, symbols@, references@, dependencies@) == with_expr(c, st1, *e));
                },
                None => {},
            }
        },
    }
}

fn collect_stmts_refs(
    stmts: &Vec<Stmt>,
    file: &str,
    module: &Option<String>,
    func_name: &str,
    locals: &mut Vec<(String, SymbolId)>,
    local_seq: &mut u64,
    function_symbol_ids: &Vec<(String, SymbolId)>,
    symbols: &mut Vec<Symbol>,
    references: &mut Vec<Reference>,
    dependencies: &mut Vec<String>,
)
    requires
        *old(local_seq) + stmts_binders(stmts@) <= u64::MAX,
    ensures
        state_of(final(locals)@, *final(local_seq), final(symbols)@, final(references)@, final(dependencies)@) == stmts_scan(context_of(file@, *module, func_name@, function_symbol_ids@), state_of(old(locals)@, *old(local_seq), old(symbols)@, old(references)@, old(dependencies)@), stmts@),
        *final(local_seq) == *old(local_seq) + stmts_binders(stmts@),
    decreases stmts, 0int,
{
    let ghost c = context_of(file@, *module, func_name@, function_symbol_ids@);
    let ghost st0 = state_of(locals@, *local_seq, symbols@, references@, dependencies@);
    let ghost q0 = *local_seq;
    let ghost s = stmts@;
    let mut i: usize = 0;
    assert(s.take(0) =~= Seq::<Stmt>::empty());
    while i < stmts.len()
        invariant
            s == stmts@,
            c == context_of(file@, *module, func_name@, function_symbol_ids@),
            i <= s.len(),
            q0 + stmts_binders(s) <= u64::MAX,
            state_of(locals@, *local_seq, symbols@, references@, dependencies@) == stmts_scan(c, st0, s.take(i as int)),
            *local_seq == q0 + stmts_binders(s.take(i as int)),
        decreases stmts.len() - i,
    {
        assert(s.take(i + 1).drop_last() =~= s.take(i as int));
        assert(s.take(i + 1).last() == s[i as int]);
        proof {
            lemma_stmts_binders_prefix(s, i + 1);
        }
        collect_stmt_refs(&stmts[i], file, module, func_name, locals, local_seq, function_symbol_ids, symbols, references, dependencies);
        i = i + 1;
    }
    assert(s.take(s.len() as int) =~= s);
}

fn collect_cases_refs(
    cases: &Vec<SelectCase>,
    file: &str,
    module: &Option<String>,
    func_name: &str,
    locals: &mut Vec<(String, SymbolId)>,
    local_seq: &mut u64,
    function_symbol_ids: &Vec<(String, SymbolId)>,
    symbols: &mut Vec<Symbol>,
    references: &mut Vec<Reference>,
    dependencies: &mut Vec<String>,
)
    requires
        *old(local_seq) + cases_binders(cases@) <= u64::MAX,
    ensures
        state_of(final(locals)@, *final(local_seq), final(symbols)@, final(references)@, final(dependencies)@) == cases_scan(context_of(file@, *module, func_name@, function_symbol_ids@), state_of(old(locals)@, *old(local_seq), old(symbols)@, old(references)@, old(dependencies)@), cases@),
        *final(local_seq) == *old(local_seq) + cases_binders(cases@),
{
    let ghost c = context_of(file@, *module, func_name@, function_symbol_ids@);
    let ghost st0 = state_of(locals@, *local_seq, symbols@, references@, dependencies@);
    let ghost q0 = *local_seq;
    let ghost s = cases@;
    let mut i: usize = 0;
    assert(s.take(0) =~= Seq::<SelectCase>::empty());
    while i < cases.len()
        invariant
            s == cases@,
            c == context_of(file@, *module, func_name@, function_symbol_ids@),
            i <= s.len(),
            q0 + cases_binders(s) <= u64::MAX,
            state_of(locals@, *local_seq, symbols@, references@, dependencies@) == cases_scan(c, st0, s.take(i as int)),
            *local_seq == q0 + cases_binders(s.take(i as int)),
        decreases cases.len() - i,
    {
        assert(s.take(i + 1).drop_last() =~= s.take(i as int));
        assert(s.take(i + 1).last() == s[i as int]);
        proof {
            lemma_cases_binders_prefix(s, i + 1);
        }
        let k = &cases[i];
        let ghost st1 = state_of(locals@, *local_seq, symbols@, references@, dependencies@);
        match &k.pattern {
            SelectPattern::Receive { binding, expr } => {
                scan_expr(expr, file, locals, function_symbol_ids, references, dependencies);
                assert(state_of(locals@, *local_seq, symbols@, references@, dependencies@) == with_expr(c, st1, *expr));
                bind_local_exec(binding.as_str(), "select-binding", k.span, file, module, func_name, function_symbol_ids, locals, local_seq, symbols, references, dependencies);
            },
            SelectPattern::Closed { ident } => {
                match symbol_of_exec(locals, ident.as_str()) {
                    Some(id) => {
                        let ghost r0 = views(references@);
                        references.push(
                            Reference {
                                symbol_id: id,
                                file: to_owned_string(file),
                                span: IndexSpan {
                                    line_start: k.span.line_start,
                                    col_start: k.span.col_start,
                                    line_end: k.span.line_end,
                                    col_end: k.span.col_end,
                                },
                            },
                        );
                        assert(views(references@) =~= r0.push(
                            ReferenceView { symbol_id: id, file: file@, span: index_span_of(k.span) },
                        ));
                    },
                    None => {},
                }
            },
            _ => {},
        }
        let ghost st2 = state_of(locals@, *local_seq, symbols@, references@, dependencies@);
        scan_expr(&k.action, file, locals, function_symbol_ids, references, dependencies);
        assert(state_of(locals@, *local_seq, symbols@, references@, dependencies@) == with_expr(c, st2, k.action));
        i = i + 1;
    }
    assert(s.take(s.len() as int) =~= s);
}

/// The references of the arms of a match, in order.
pub open spec fn arms_refs(
    s: Seq<MatchArm>,
    file: Seq<char>,
    locals: Seq<(Seq<char>, SymbolId)>,
    fns: Seq<(Seq<char>, SymbolId)>,
) -> Seq<ReferenceView>
    decreases s.len(),
{
    if s.len() == 0 {
        Seq::empty()
    } else {
        arms_refs(s.drop_last(), file, locals, fns) + expr_refs(s.last().pattern, file, locals, fns)
            + expr_refs(s.last().action, file, locals, fns)
    }
}

/// The outside names of the arms of a match, in order.
pub open spec fn arms_deps(
    s: Seq<MatchArm>,
    locals: Seq<(Seq<char>, SymbolId)>,
    fns: Seq<(Seq<char>, SymbolId)>,
) -> Seq<Seq<char>>
    decreases s.len(),
{
    if s.len() == 0 {
        Seq::empty()
    } else {
        arms_deps(s.drop_last(), locals, fns) + expr_deps(s.last().pattern, locals, fns) + expr_deps(
            s.last().action,
            locals,
            fns,
        )
    }
}

proof fn lemma_arms_scan(c: ScanContext, st: ScanState, s: Seq<MatchArm>)
    ensures
        arms_scan(c, st, s) == (ScanState {
            references: st.references + arms_refs(s, c.file, st.locals, c.functions),
            deps: st.deps + arms_deps(s, st.locals, c.functions),
            ..st
        }),
    decreases s.len(),
{
    if s.len() == 0 {
        assert(st.references + Seq::<ReferenceView>::empty() =~= st.references);
        assert(st.deps + Seq::<Seq<char>>::empty() =~= st.deps);
    } else {
        lemma_arms_scan(c, st, s.drop_last());
        let l = s.last();
        assert(st.references + arms_refs(s.drop_last(), c.file, st.locals, c.functions) + expr_refs(
            l.pattern,
            c.file,
            st.locals,
            c.functions,
        ) + expr_refs(l.action, c.file, st.locals, c.functions) =~= st.references + arms_refs(
            s,
            c.file,
            st.locals,
            c.functions,
        ));
        assert(st.deps + arms_deps(s.drop_last(), st.locals, c.functions) + expr_deps(
            l.pattern,
            st.locals,
            c.functions,
        ) + expr_deps(l.action, st.locals, c.functions) =~= st.deps + arms_deps(
            s,
            st.locals,
            c.functions,
        ));
    }
}

fn collect_arms_refs(
    arms: &Vec<MatchArm>,
    file: &str,
    locals: &Vec<(String, SymbolId)>,
    function_symbol_ids: &Vec<(String, SymbolId)>,
    references: &mut Vec<Reference>,
    dependencies: &mut Vec<String>,
)
    ensures
        views(final(references)@) == views(old(references)@) + arms_refs(
            arms@,
            file@,
            id_entries(locals@),
            id_entries(function_symbol_ids@),
        ),
        views(final(dependencies)@) == views(old(dependencies)@) + arms_deps(
            arms@,
            id_entries(locals@),
            id_entries(function_symbol_ids@),
        ),
{
    let ghost (r0, d0) = (views(references@), views(dependencies@));
    let ghost (l, f) = (id_entries(locals@), id_entries(function_symbol_ids@));
    let ghost s = arms@;
    let mut i: usize = 0;
    assert(s.take(0) =~= Seq::<MatchArm>::empty());
    assert(views(references@) =~= r0 + arms_refs(s.take(0), file@, l, f));
    assert(views(dependencies@) =~= d0 + arms_deps(s.take(0), l, f));
    while i < arms.len()
        invariant
            s == arms@,
            l == id_entries(locals@),
            f == id_entries(function_symbol_ids@),
            i <= s.len(),
            views(references@) == r0 + arms_refs(s.take(i as int), file@, l, f),
            views(dependencies@) == d0 + arms_deps(s.take(i as int), l, f),
        decreases arms.len() - i,
    {
        assert(s.take(i + 1).drop_last() =~= s.take(i as int));
        assert(s.take(i + 1).last() == s[i as int]);
        scan_expr(&arms[i].pattern, file, locals, function_symbol_ids, references, dependencies);
        scan_expr(&arms[i].action, file, locals, function_symbol_ids, references, dependencies);
        i = i + 1;
        assert(views(references@) =~= r0 + arms_refs(s.take(i as int), file@, l, f));
        assert(views(dependencies@) =~= d0 + arms_deps(s.take(i as int), l, f));
    }
    assert(s.take(s.len() as int) =~= s);
}

} // verus!
