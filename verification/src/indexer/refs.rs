use vstd::prelude::*;

use crate::ast::Expr;
use crate::indexer::extract::{is_builtin_ident, is_builtin_spec};
use crate::indexer::model::{IndexSpan, Reference, ReferenceView, SymbolId};
use crate::order::views;
use crate::text::{str_eq, to_owned_string};

verus! {

/// The symbol bound to `name`: the first entry with that name.
pub open spec fn symbol_of(entries: Seq<(Seq<char>, SymbolId)>, name: Seq<char>) -> Option<SymbolId>
    decreases entries.len(),
{
    if entries.len() == 0 {
        None
    } else if entries[0].0 == name {
        Some(entries[0].1)
    } else {
        symbol_of(entries.subrange(1, entries.len() as int), name)
    }
}

/// A table of (name, symbol) entries as plain values.
pub open spec fn id_entries(v: Seq<(String, SymbolId)>) -> Seq<(Seq<char>, SymbolId)> {
    v.map_values(|e: (String, SymbolId)| (e.0@, e.1))
}

/// The index position of a source span.
pub open spec fn index_span_of(s: crate::diagnostics::Span) -> IndexSpan {
    IndexSpan { line_start: s.line_start, col_start: s.col_start, line_end: s.line_end, col_end: s.col_end }
}

/// The symbol an identifier refers to: a local, else a function of the file.
pub open spec fn resolve_ident(
    locals: Seq<(Seq<char>, SymbolId)>,
    functions: Seq<(Seq<char>, SymbolId)>,
    name: Seq<char>,
) -> Option<SymbolId> {
    match symbol_of(locals, name) {
        Some(id) => Some(id),
        None => symbol_of(functions, name),
    }
}

/// The references an expression makes, depth first in source order: each
/// identifier that names a local or a function of the file.
pub open spec fn expr_refs(
    e: Expr,
    file: Seq<char>,
    locals: Seq<(Seq<char>, SymbolId)>,
    functions: Seq<(Seq<char>, SymbolId)>,
) -> Seq<ReferenceView>
    decreases e, 1int,
{
    match e {
        Expr::Ident { name, span, .. } => match resolve_ident(locals, functions, name@) {
            Some(id) => seq![ReferenceView { symbol_id: id, file, span: index_span_of(span) }],
            None => Seq::empty(),
        },
        Expr::Call { callee, args, .. } => expr_refs(*callee, file, locals, functions) + exprs_refs(
            args@,
            file,
            locals,
            functions,
        ),
        Expr::Member { object, .. } => expr_refs(*object, file, locals, functions),
        Expr::Unary { expr, .. } => expr_refs(*expr, file, locals, functions),
        Expr::Async { expr, .. } => expr_refs(*expr, file, locals, functions),
        Expr::Await { expr, .. } => expr_refs(*expr, file, locals, functions),
        Expr::Question { expr, .. } => expr_refs(*expr, file, locals, functions),
        Expr::Old { expr, .. } => expr_refs(*expr, file, locals, functions),
        Expr::Index { object, index, .. } => expr_refs(*object, file, locals, functions) + expr_refs(
            *index,
            file,
            locals,
            functions,
        ),
        Expr::Slice { object, start, end, .. } => expr_refs(*object, file, locals, functions) + match start {
            Some(x) => expr_refs(*x, file, locals, functions),
            None => Seq::empty(),
        } + match end {
            Some(x) => expr_refs(*x, file, locals, functions),
            None => Seq::empty(),
        },
        Expr::Binary { left, right, .. } => expr_refs(*left, file, locals, functions) + expr_refs(
            *right,
            file,
            locals,
            functions,
        ),
        Expr::List { items, .. } => exprs_refs(items@, file, locals, functions),
        Expr::MapLit { entries, .. } => pairs_refs(entries@, file, locals, functions),
        Expr::Constructor { fields, .. } => fields_refs(fields@, file, locals, functions),
        _ => Seq::empty(),
    }
}

pub open spec fn exprs_refs(
    s: Seq<Expr>,
    file: Seq<char>,
    locals: Seq<(Seq<char>, SymbolId)>,
    functions: Seq<(Seq<char>, SymbolId)>,
) -> Seq<ReferenceView>
    decreases s, 0int,
{
    if s.len() == 0 {
        Seq::empty()
    } else {
        exprs_refs(s.drop_last(), file, locals, functions) + expr_refs(s.last(), file, locals, functions)
    }
}

pub open spec fn pairs_refs(
    s: Seq<(Expr, Expr)>,
    file: Seq<char>,
    locals: Seq<(Seq<char>, SymbolId)>,
    functions: Seq<(Seq<char>, SymbolId)>,
) -> Seq<ReferenceView>
    decreases s, 0int,
{
    if s.len() == 0 {
        Seq::empty()
    } else {
        pairs_refs(s.drop_last(), file, locals, functions) + expr_refs(s.last().0, file, locals, functions)
            + expr_refs(s.last().1, file, locals, functions)
    }
}

pub open spec fn fields_refs(
    s: Seq<(String, Expr)>,
    file: Seq<char>,
    locals: Seq<(Seq<char>, SymbolId)>,
    functions: Seq<(Seq<char>, SymbolId)>,
) -> Seq<ReferenceView>
    decreases s, 0int,
{
    if s.len() == 0 {
        Seq::empty()
    } else {
        fields_refs(s.drop_last(), file, locals, functions) + expr_refs(s.last().1, file, locals, functions)
    }
}

/// The names an expression depends on outside the file, depth first in
/// source order: identifiers that name no local, no function of the file
/// and no built-in.
pub open spec fn expr_deps(
    e: Expr,
    locals: Seq<(Seq<char>, SymbolId)>,
    functions: Seq<(Seq<char>, SymbolId)>,
) -> Seq<Seq<char>>
    decreases e, 1int,
{
    match e {
        Expr::Ident { name, span: _, .. } => if resolve_ident(locals, functions, name@) is None
            && !is_builtin_spec(name@) {
            seq![name@]
        } else {
            Seq::empty()
        },
        Expr::Call { callee, args, .. } => expr_deps(*callee, locals, functions) + exprs_deps(
            args@,
            locals,
            functions,
        ),
        Expr::Member { object, .. } => expr_deps(*object, locals, functions),
        Expr::Unary { expr, .. } => expr_deps(*expr, locals, functions),
        Expr::Async { expr, .. } => expr_deps(*expr, locals, functions),
        Expr::Await { expr, .. } => expr_deps(*expr, locals, functions),
        Expr::Question { expr, .. } => expr_deps(*expr, locals, functions),
        Expr::Old { expr, .. } => expr_deps(*expr, locals, functions),
        Expr::Index { object, index, .. } => expr_deps(*object, locals, functions) + expr_deps(
            *index,
            locals,
            functions,
        ),
        Expr::Slice { object, start, end, .. } => expr_deps(*object, locals, functions) + match start {
            Some(x) => expr_deps(*x, locals, functions),
            None => Seq::empty(),
        } + match end {
            Some(x) => expr_deps(*x, locals, functions),
            None => Seq::empty(),
        },
        Expr::Binary { left, right, .. } => expr_deps(*left, locals, functions) + expr_deps(
            *right,
            locals,
            functions,
        ),
        Expr::List { items, .. } => exprs_deps(items@, locals, functions),
        Expr::MapLit { entries, .. } => pairs_deps(entries@, locals, functions),
        Expr::Constructor { fields, .. } => fields_deps(fields@, locals, functions),
        _ => Seq::empty(),
    }
}

pub open spec fn exprs_deps(
    s: Seq<Expr>,
    locals: Seq<(Seq<char>, SymbolId)>,
    functions: Seq<(Seq<char>, SymbolId)>,
) -> Seq<Seq<char>>
    decreases s, 0int,
{
    if s.len() == 0 {
        Seq::empty()
    } else {
        exprs_deps(s.drop_last(), locals, functions) + expr_deps(s.last(), locals, functions)
    }
}

pub open spec fn pairs_deps(
    s: Seq<(Expr, Expr)>,
    locals: Seq<(Seq<char>, SymbolId)>,
    functions: Seq<(Seq<char>, SymbolId)>,
) -> Seq<Seq<char>>
    decreases s, 0int,
{
    if s.len() == 0 {
        Seq::empty()
    } else {
        pairs_deps(s.drop_last(), locals, functions) + expr_deps(s.last().0, locals, functions) + expr_deps(
            s.last().1,
            locals,
            functions,
        )
    }
}

pub open spec fn fields_deps(
    s: Seq<(String, Expr)>,
    locals: Seq<(Seq<char>, SymbolId)>,
    functions: Seq<(Seq<char>, SymbolId)>,
) -> Seq<Seq<char>>
    decreases s, 0int,
{
    if s.len() == 0 {
        Seq::empty()
    } else {
        fields_deps(s.drop_last(), locals, functions) + expr_deps(s.last().1, locals, functions)
    }
}

pub(crate) fn symbol_of_exec(entries: &Vec<(String, SymbolId)>, name: &str) -> (r: Option<SymbolId>)
    ensures
        r == symbol_of(id_entries(entries@), name@),
{
    let ghost s = id_entries(entries@);
    let mut i: usize = 0;
    assert(s.subrange(0, s.len() as int) =~= s);
    while i < entries.len()
        invariant
            s == id_entries(entries@),
            i <= s.len(),
            symbol_of(s, name@) == symbol_of(s.subrange(i as int, s.len() as int), name@),
        decreases entries.len() - i,
    {
        let ghost t = s.subrange(i as int, s.len() as int);
        assert(t[0] == s[i as int]);
        assert(t.subrange(1, t.len() as int) =~= s.subrange(i + 1, s.len() as int));
        if str_eq(entries[i].0.as_str(), name) {
            return Some(entries[i].1);
        }
        i = i + 1;
    }
    None
}

/// Appends to `references` the references `expr` makes (see `expr_refs`)
/// and to `dependencies` the outside names it uses (see `expr_deps`), each
/// occurrence once, in order; repeated dependencies are merged when the
/// file's index is normalized.
pub fn collect_expr_refs(
    expr: &Expr,
    file: &str,
    locals: &Vec<(String, SymbolId)>,
    function_symbol_ids: &Vec<(String, SymbolId)>,
    references: &mut Vec<Reference>,
    dependencies: &mut Vec<String>,
)
    ensures
        views(final(references)@) == views(old(references)@) + expr_refs(
            *expr,
            file@,
            id_entries(locals@),
            id_entries(function_symbol_ids@),
        ),
        views(final(dependencies)@) == views(old(dependencies)@) + expr_deps(
            *expr,
            id_entries(locals@),
            id_entries(function_symbol_ids@),
        ),
    decreases expr, 1int,
{
    let ghost (r0, d0) = (views(references@), views(dependencies@));
    match expr {
        Expr::Ident { name, span, .. } => {
            let found = match symbol_of_exec(locals, name.as_str()) {
                Some(id) => Some(id),
                None => symbol_of_exec(function_symbol_ids, name.as_str()),
            };
            match found {
                Some(id) => {
                    references.push(
                        Reference {
                            symbol_id: id,
                            file: to_owned_string(file),
                            span: IndexSpan {
                                line_start: span.line_start,
                                col_start: span.col_start,
                                line_end: span.line_end,
                                col_end: span.col_end,
                            },
                        },
                    );
                    assert(views(references@) =~= r0 + expr_refs(*expr, file@, id_entries(locals@), id_entries(function_symbol_ids@)));
                    assert(views(dependencies@) =~= d0 + expr_deps(*expr, id_entries(locals@), id_entries(function_symbol_ids@)));
                },
                None => {
                    if !is_builtin_ident(name.as_str()) {
                        dependencies.push(to_owned_string(name.as_str()));
                    }
                    assert(views(references@) =~= r0 + expr_refs(*expr, file@, id_entries(locals@), id_entries(function_symbol_ids@)));
                    assert(views(dependencies@) =~= d0 + expr_deps(*expr, id_entries(locals@), id_entries(function_symbol_ids@)));
                },
            }
        },
        Expr::Call { callee, args, .. } => {
            collect_expr_refs(callee, file, locals, function_symbol_ids, references, dependencies);
            collect_all(args, file, locals, function_symbol_ids, references, dependencies);
            assert(views(references@) =~= r0 + expr_refs(*expr, file@, id_entries(locals@), id_entries(function_symbol_ids@)));
            assert(views(dependencies@) =~= d0 + expr_deps(*expr, id_entries(locals@), id_entries(function_symbol_ids@)));
        },
        Expr::Member { object: x, .. } | Expr::Unary { expr: x, .. } | Expr::Async { expr: x, .. } | Expr::Await {
            expr: x, .. } | Expr::Question { expr: x, .. } | Expr::Old { expr: x, .. } => {
            collect_expr_refs(x, file, locals, function_symbol_ids, references, dependencies);
        },
        Expr::Index { object, index, .. } => {
            collect_expr_refs(object, file, locals, function_symbol_ids, references, dependencies);
            collect_expr_refs(index, file, locals, function_symbol_ids, references, dependencies);
            assert(views(references@) =~= r0 + expr_refs(*expr, file@, id_entries(locals@), id_entries(function_symbol_ids@)));
            assert(views(dependencies@) =~= d0 + expr_deps(*expr, id_entries(locals@), id_entries(function_symbol_ids@)));
        },
        Expr::Slice { object, start, end, .. } => {
            collect_expr_refs(object, file, locals, function_symbol_ids, references, dependencies);
            let ghost (r1, d1) = (views(references@), views(dependencies@));
            match start {
                Some(x) => collect_expr_refs(x, file, locals, function_symbol_ids, references, dependencies),
                None => {},
            }
            let ghost (r2, d2) = (views(references@), views(dependencies@));
            match end {
                Some(x) => collect_expr_refs(x, file, locals, function_symbol_ids, references, dependencies),
                None => {},
            }
            assert(views(references@) =~= r0 + expr_refs(*expr, file@, id_entries(locals@), id_entries(function_symbol_ids@)));
            assert(views(dependencies@) =~= d0 + expr_deps(*expr, id_entries(locals@), id_entries(function_symbol_ids@)));
        },
        Expr::Binary { left, right, .. } => {
            collect_expr_refs(left, file, locals, function_symbol_ids, references, dependencies);
            collect_expr_refs(right, file, locals, function_symbol_ids, references, dependencies);
            assert(views(references@) =~= r0 + expr_refs(*expr, file@, id_entries(locals@), id_entries(function_symbol_ids@)));
            assert(views(dependencies@) =~= d0 + expr_deps(*expr, id_entries(locals@), id_entries(function_symbol_ids@)));
        },
        Expr::List { items, .. } => {
            collect_all(items, file, locals, function_symbol_ids, references, dependencies);
        },
        Expr::MapLit { entries, .. } => {
            collect_pairs(entries, file, locals, function_symbol_ids, references, dependencies);
        },
        Expr::Constructor { fields, .. } => {
            collect_fields(fields, file, locals, function_symbol_ids, references, dependencies);
        },
        _ => {
            assert(views(references@) =~= r0 + expr_refs(*expr, file@, id_entries(locals@), id_entries(function_symbol_ids@)));
            assert(views(dependencies@) =~= d0 + expr_deps(*expr, id_entries(locals@), id_entries(function_symbol_ids@)));
        },
    }
}

fn collect_all(
    items: &Vec<Expr>,
    file: &str,
    locals: &Vec<(String, SymbolId)>,
    function_symbol_ids: &Vec<(String, SymbolId)>,
    references: &mut Vec<Reference>,
    dependencies: &mut Vec<String>,
)
    ensures
        views(final(references)@) == views(old(references)@) + exprs_refs(
            items@,
            file@,
            id_entries(locals@),
            id_entries(function_symbol_ids@),
        ),
        views(final(dependencies)@) == views(old(dependencies)@) + exprs_deps(
            items@,
            id_entries(locals@),
            id_entries(function_symbol_ids@),
        ),
    decreases items, 0int,
{
    let ghost (r0, d0) = (views(references@), views(dependencies@));
    let ghost s = items@;
    let mut i: usize = 0;
    assert(s.take(0) =~= Seq::<Expr>::empty());
    assert(views(references@) =~= r0 + exprs_refs(s.take(0), file@, id_entries(locals@), id_entries(function_symbol_ids@)));
    assert(views(dependencies@) =~= d0 + exprs_deps(s.take(0), id_entries(locals@), id_entries(function_symbol_ids@)));
    while i < items.len()
        invariant
            s == items@,
            i <= s.len(),
            views(references@) == r0 + exprs_refs(s.take(i as int), file@, id_entries(locals@), id_entries(function_symbol_ids@)),
            views(dependencies@) == d0 + exprs_deps(s.take(i as int), id_entries(locals@), id_entries(function_symbol_ids@)),
        decreases items.len() - i,
    {
        assert(s.take(i + 1).drop_last() =~= s.take(i as int));
        assert(s.take(i + 1).last() == s[i as int]);
        collect_expr_refs(&items[i], file, locals, function_symbol_ids, references, dependencies);
        i = i + 1;
        assert(views(references@) =~= r0 + exprs_refs(s.take(i as int), file@, id_entries(locals@), id_entries(function_symbol_ids@)));
        assert(views(dependencies@) =~= d0 + exprs_deps(s.take(i as int), id_entries(locals@), id_entries(function_symbol_ids@)));
    }
    assert(s.take(s.len() as int) =~= s);
}

fn collect_pairs(
    items: &Vec<(Expr, Expr)>,
    file: &str,
    locals: &Vec<(String, SymbolId)>,
    function_symbol_ids: &Vec<(String, SymbolId)>,
    references: &mut Vec<Reference>,
    dependencies: &mut Vec<String>,
)
    ensures
        views(final(references)@) == views(old(references)@) + pairs_refs(
            items@,
            file@,
            id_entries(locals@),
            id_entries(function_symbol_ids@),
        ),
        views(final(dependencies)@) == views(old(dependencies)@) + pairs_deps(
            items@,
            id_entries(locals@),
            id_entries(function_symbol_ids@),
        ),
    decreases items, 0int,
{
    let ghost (r0, d0) = (views(references@), views(dependencies@));
    let ghost s = items@;
    let mut i: usize = 0;
    assert(s.take(0) =~= Seq::<(Expr, Expr)>::empty());
    assert(views(references@) =~= r0 + pairs_refs(s.take(0), file@, id_entries(locals@), id_entries(function_symbol_ids@)));
    assert(views(dependencies@) =~= d0 + pairs_deps(s.take(0), id_entries(locals@), id_entries(function_symbol_ids@)));
    while i < items.len()
        invariant
            s == items@,
            i <= s.len(),
            views(references@) == r0 + pairs_refs(s.take(i as int), file@, id_entries(locals@), id_entries(function_symbol_ids@)),
            views(dependencies@) == d0 + pairs_deps(s.take(i as int), id_entries(locals@), id_entries(function_symbol_ids@)),
        decreases items.len() - i,
    {
        assert(s.take(i + 1).drop_last() =~= s.take(i as int));
        assert(s.take(i + 1).last() == s[i as int]);
        collect_expr_refs(&items[i].0, file, locals, function_symbol_ids, references, dependencies);
        collect_expr_refs(&items[i].1, file, locals, function_symbol_ids, references, dependencies);
        i = i + 1;
        assert(views(references@) =~= r0 + pairs_refs(s.take(i as int), file@, id_entries(locals@), id_entries(function_symbol_ids@)));
        assert(views(dependencies@) =~= d0 + pairs_deps(s.take(i as int), id_entries(locals@), id_entries(function_symbol_ids@)));
    }
    assert(s.take(s.len() as int) =~= s);
}

fn collect_fields(
    items: &Vec<(String, Expr)>,
    file: &str,
    locals: &Vec<(String, SymbolId)>,
    function_symbol_ids: &Vec<(String, SymbolId)>,
    references: &mut Vec<Reference>,
    dependencies: &mut Vec<String>,
)
    ensures
        views(final(references)@) == views(old(references)@) + fields_refs(
            items@,
            file@,
            id_entries(locals@),
            id_entries(function_symbol_ids@),
        ),
        views(final(dependencies)@) == views(old(dependencies)@) + fields_deps(
            items@,
            id_entries(locals@),
            id_entries(function_symbol_ids@),
        ),
    decreases items, 0int,
{
    let ghost (r0, d0) = (views(references@), views(dependencies@));
    let ghost s = items@;
    let mut i: usize = 0;
    assert(s.take(0) =~= Seq::<(String, Expr)>::empty());
    assert(views(references@) =~= r0 + fields_refs(s.take(0), file@, id_entries(locals@), id_entries(function_symbol_ids@)));
    assert(views(dependencies@) =~= d0 + fields_deps(s.take(0), id_entries(locals@), id_entries(function_symbol_ids@)));
    while i < items.len()
        invariant
            s == items@,
            i <= s.len(),
            views(references@) == r0 + fields_refs(s.take(i as int), file@, id_entries(locals@), id_entries(function_symbol_ids@)),
            views(dependencies@) == d0 + fields_deps(s.take(i as int), id_entries(locals@), id_entries(function_symbol_ids@)),
        decreases items.len() - i,
    {
        assert(s.take(i + 1).drop_last() =~= s.take(i as int));
        assert(s.take(i + 1).last() == s[i as int]);
        collect_expr_refs(&items[i].1, file, locals, function_symbol_ids, references, dependencies);
        i = i + 1;
        assert(views(references@) =~= r0 + fields_refs(s.take(i as int), file@, id_entries(locals@), id_entries(function_symbol_ids@)));
        assert(views(dependencies@) =~= d0 + fields_deps(s.take(i as int), id_entries(locals@), id_entries(function_symbol_ids@)));
    }
    assert(s.take(s.len() as int) =~= s);
}

} // verus!
