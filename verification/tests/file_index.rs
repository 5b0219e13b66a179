use vibelang::diagnostics::{Diagnostic, Severity, Span};
use vibelang::hir::{HirFunction, HirProgram};
use vibelang::indexer::extract::stable_hash_hex;
use vibelang::indexer::file_index::{build_file_index, locals_fit};
use vibelang::indexer::model::{IndexedSeverity, SymbolKind};
use vibelang::parser::parse_source;

fn hir_fn(name: &str, declared: &[&str], observed: &[&str]) -> HirFunction {
    HirFunction {
        name: name.to_string(),
        is_public: false,
        params: vec![],
        return_type: None,
        inferred_return_type: None,
        effects_declared: declared.iter().map(|s| s.to_string()).collect(),
        effects_observed: observed.iter().map(|s| s.to_string()).collect(),
        body: vec![],
        tail_expr: None,
    }
}

#[test]
fn file_index_records_functions_references_and_hash() {
    let src = "import std.io\nfoo() -> Int { 1 }\nbar(x: Int) -> Int {\n  y := x\n  foo()\n}\n";
    let parsed = parse_source(src);
    assert!(!parsed.diagnostics.has_errors(), "{}", parsed.diagnostics.to_golden());
    assert!(locals_fit(&parsed.ast));
    let hir = HirProgram { functions: vec![] };
    let index = build_file_index("nav.vibe", src, &parsed.ast, &hir, &vec![]);
    assert_eq!(index.file, "nav.vibe");
    assert_eq!(index.file_hash, stable_hash_hex(src));
    let named: Vec<(String, SymbolKind)> = index.symbols.iter().map(|s| (s.name.clone(), s.kind)).collect();
    for expected in [
        ("foo".to_string(), SymbolKind::Function),
        ("bar".to_string(), SymbolKind::Function),
        ("x".to_string(), SymbolKind::Param),
        ("y".to_string(), SymbolKind::Local),
    ] {
        assert!(named.contains(&expected), "{:?}", named);
    }
    let foo = index.symbols.iter().find(|s| s.name == "foo").unwrap();
    let x = index.symbols.iter().find(|s| s.name == "x").unwrap();
    let refs: Vec<(u64, usize)> = index.references.iter().map(|r| (r.symbol_id.0, r.span.line_start)).collect();
    assert!(refs.contains(&(foo.id.0, 5)), "{:?}", refs);
    assert!(refs.contains(&(x.id.0, 4)), "{:?}", refs);
    assert_eq!(index.dependencies, vec!["std.io".to_string()]);
    assert_eq!(index.function_meta.len(), 2);
    assert!(index.effect_mismatches.is_empty());
}

#[test]
fn file_index_reports_effect_mismatches_contracts_and_diagnostics() {
    let src = "noisy() -> Int {\n  @intent \"make noise\"\n  @effect alloc\n  println(\"x\")\n  0\n}\n";
    let parsed = parse_source(src);
    let hir = HirProgram { functions: vec![hir_fn("noisy", &["alloc"], &["io"])] };
    let diags = vec![Diagnostic::new("E2001", Severity::Warning, "sample", Span::new(1, 1, 1, 2))];
    let index = build_file_index("effects.vibe", src, &parsed.ast, &hir, &diags);
    assert_eq!(index.effect_mismatches.len(), 1);
    assert_eq!(index.effect_mismatches[0].function_name, "noisy");
    assert_eq!(index.effect_mismatches[0].declared_only, vec!["alloc".to_string()]);
    assert_eq!(index.effect_mismatches[0].observed_only, vec!["io".to_string()]);
    let meta = &index.function_meta[0];
    assert_eq!(meta.intent_text.as_deref(), Some("make noise"));
    assert!(!meta.has_examples);
    assert_eq!(meta.effects_observed, vec!["io".to_string()]);
    assert_eq!(meta.signature_hash, stable_hash_hex("noisy()->Int"));
    assert!(index.symbols.iter().any(|s| s.kind == SymbolKind::Effect && s.name == "alloc"));
    assert!(index.symbols.iter().any(|s| s.kind == SymbolKind::Contract && s.name == "make noise"));
    assert!(index.dependencies.is_empty());
    assert_eq!(index.diagnostics.len(), 1);
    assert_eq!(index.diagnostics[0].severity, IndexedSeverity::Warning);
    assert_eq!(index.diagnostics[0].code, "E2001");
}
