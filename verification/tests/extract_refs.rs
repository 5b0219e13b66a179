use vibelang::ast::{Expr, SelectCase, SelectPattern, Stmt};
use vibelang::diagnostics::Span;
use vibelang::indexer::extract::stable_symbol_id;
use vibelang::indexer::model::{Reference, Symbol, SymbolId, SymbolKind};
use vibelang::indexer::refs::collect_expr_refs;
use vibelang::indexer::stmt_refs::collect_stmt_refs;

fn ident(name: &str, line: usize) -> Expr {
    Expr::Ident { name: name.to_string(), span: Span::new(line, 1, line, 3) }
}

#[test]
fn expression_references_resolve_locals_then_functions() {
    let locals = vec![("x".to_string(), SymbolId(7))];
    let functions = vec![("f".to_string(), SymbolId(9)), ("x".to_string(), SymbolId(1))];
    let e = Expr::Call {
        callee: Box::new(ident("f", 1)),
        args: vec![ident("x", 2), ident("outside", 3), ident("println", 4), Expr::Int { value: 1, span: Span::new(1, 1, 1, 2) }],
        span: Span::new(1, 1, 4, 3),
    };
    let mut references: Vec<Reference> = vec![];
    let mut dependencies: Vec<String> = vec![];
    collect_expr_refs(&e, "a.yb", &locals, &functions, &mut references, &mut dependencies);
    let ids: Vec<u64> = references.iter().map(|r| r.symbol_id.0).collect();
    assert_eq!(ids, vec![9, 7]);
    assert_eq!(references[1].span.line_start, 2);
    assert_eq!(dependencies, vec!["outside".to_string()]);
}

#[test]
fn statements_bind_locals_in_order_and_refer_to_them() {
    let functions = vec![("main".to_string(), SymbolId(1))];
    let mut locals: Vec<(String, SymbolId)> = vec![];
    let mut seq: u64 = 0;
    let mut symbols: Vec<Symbol> = vec![];
    let mut references: Vec<Reference> = vec![];
    let mut dependencies: Vec<String> = vec![];
    let module = Some("m".to_string());
    let body = vec![
        Stmt::Binding { name: "a".to_string(), is_mut: false, expr: Expr::Int { value: 1, span: Span::new(1, 1, 1, 2) }, span: Span::new(1, 1, 1, 9) },
        Stmt::For {
            var: "i".to_string(),
            iter: ident("a", 2),
            body: vec![Stmt::ExprStmt { expr: ident("i", 3), span: Span::new(3, 1, 3, 2) }],
            span: Span::new(2, 1, 4, 1),
        },
        Stmt::Select {
            cases: vec![SelectCase {
                pattern: SelectPattern::Closed { ident: "a".to_string() },
                action: Expr::Int { value: 1, span: Span::new(1, 1, 1, 2) },
                span: Span::new(5, 1, 5, 9),
            }],
            span: Span::new(5, 1, 5, 9),
        },
    ];
    for st in &body {
        collect_stmt_refs(st, "a.yb", &module, "main", &mut locals, &mut seq, &functions, &mut symbols, &mut references, &mut dependencies);
    }
    assert_eq!(seq, 2);
    let names: Vec<&str> = symbols.iter().map(|s| s.name.as_str()).collect();
    assert_eq!(names, vec!["a", "i"]);
    assert!(symbols.iter().all(|s| s.kind == SymbolKind::Local && s.module.as_deref() == Some("m")));
    assert_eq!(symbols[0].id.0, stable_symbol_id("a.yb", "main::a", SymbolKind::Local, "binding", 0));
    assert_eq!(symbols[1].id.0, stable_symbol_id("a.yb", "main::i", SymbolKind::Local, "for-var", 1));
    let refs: Vec<(u64, usize)> = references.iter().map(|r| (r.symbol_id.0, r.span.line_start)).collect();
    assert_eq!(refs, vec![(symbols[0].id.0, 2), (symbols[1].id.0, 3), (symbols[0].id.0, 5)]);
    assert!(dependencies.is_empty());
}
