use vibelang::indexer::layout::{is_supported_source_ext, plan_index_root, IndexRootPlan, LEGACY_SOURCE_EXT, PRIMARY_SOURCE_EXT};
use vibelang::diagnostics::{Severity, Span};
use vibelang::indexer::extract::{is_builtin_ident, stable_hash_hex, stable_symbol_id};
use vibelang::indexer::incremental::{IncrementalIndexer, IncrementalTelemetry};
use vibelang::indexer::model::{
    EffectMismatch, FileIndex, FunctionMeta, IndexSnapshot, IndexSpan, IndexedDiagnostic,
    IndexedSeverity, Reference, Symbol, SymbolId, SymbolKind,
};
use vibelang::indexer::queries::{
    definition_for_position, effect_mismatches, find_by_intent, find_references, find_symbol,
    check_position_spans_defined, list_missing_examples, references_for_position, symbol_at_position,
};
use vibelang::indexer::store::IndexStore;
use vibelang::indexer::watcher::{FileChangeKind, FileWatcher};

fn span(a: usize, b: usize, c: usize, d: usize) -> IndexSpan {
    IndexSpan { line_start: a, col_start: b, line_end: c, col_end: d }
}

fn sym(id: u64, name: &str, kind: SymbolKind, file: &str, s: IndexSpan) -> Symbol {
    Symbol { id: SymbolId(id), name: name.to_string(), kind, module: None, file: file.to_string(), span: s }
}

fn meta(id: u64, name: &str, file: &str, intent: Option<&str>, examples: bool, public: bool) -> FunctionMeta {
    FunctionMeta {
        symbol_id: SymbolId(id),
        function_name: name.to_string(),
        file: file.to_string(),
        signature_hash: "h".to_string(),
        effects_declared: vec![],
        effects_observed: vec![],
        intent_text: intent.map(|s| s.to_string()),
        has_examples: examples,
        is_public: public,
    }
}

fn file_index(file: &str, hash: &str) -> FileIndex {
    FileIndex {
        file: file.to_string(),
        file_hash: hash.to_string(),
        symbols: vec![],
        references: vec![],
        function_meta: vec![],
        effect_mismatches: vec![],
        diagnostics: vec![],
        dependencies: vec![],
    }
}

fn sample_store() -> IndexStore {
    let mut store = IndexStore::new("idx".to_string());
    let mut a = file_index("a.yb", "ha");
    a.symbols = vec![
        sym(2, "beta", SymbolKind::Function, "a.yb", span(5, 1, 9, 1)),
        sym(1, "alpha", SymbolKind::Function, "a.yb", span(1, 1, 4, 1)),
        sym(3, "x", SymbolKind::Param, "a.yb", span(1, 7, 1, 7)),
    ];
    a.references = vec![Reference { symbol_id: SymbolId(1), file: "a.yb".to_string(), span: span(6, 3, 6, 7) }];
    a.function_meta = vec![
        meta(2, "beta", "a.yb", None, false, false),
        meta(1, "alpha", "a.yb", Some("Alpha Math"), true, true),
    ];
    a.dependencies = vec!["alpha".to_string(), "alpha".to_string()];
    let mut b = file_index("b.yb", "hb");
    b.symbols = vec![sym(4, "gamma", SymbolKind::Function, "b.yb", span(1, 1, 3, 1))];
    b.references = vec![Reference { symbol_id: SymbolId(1), file: "b.yb".to_string(), span: span(2, 3, 2, 7) }];
    b.function_meta = vec![meta(4, "gamma", "b.yb", Some("uses alpha"), false, true)];
    b.effect_mismatches = vec![EffectMismatch {
        function_name: "gamma".to_string(),
        file: "b.yb".to_string(),
        declared_only: vec![],
        observed_only: vec!["io".to_string()],
    }];
    b.dependencies = vec!["alpha".to_string()];
    store.upsert_file(b);
    store.upsert_file(a);
    store
}

#[test]
fn normalize_orders_symbols_and_dedups_dependencies() {
    let store = sample_store();
    let snap = store.snapshot();
    assert_eq!(snap.files.len(), 2);
    assert_eq!(snap.files[0].0, "a.yb");
    let a = &snap.files[0].1;
    let names: Vec<&str> = a.symbols.iter().map(|s| s.name.as_str()).collect();
    assert_eq!(names, vec!["alpha", "x", "beta"]);
    assert_eq!(a.dependencies, vec!["alpha".to_string()]);
    assert_eq!(a.function_meta[0].function_name, "alpha");
}

#[test]
fn queries_find_symbols_references_and_intents() {
    let store = sample_store();
    let snap = store.snapshot();
    let found = find_symbol(snap, "gamma");
    assert_eq!(found.len(), 1);
    assert_eq!(found[0].id, SymbolId(4));
    let refs = find_references(snap, SymbolId(1));
    assert_eq!(refs.len(), 2);
    assert_eq!(refs[0].file, "a.yb");
    let by_intent = find_by_intent(snap, "ALPHA");
    let names: Vec<&str> = by_intent.iter().map(|m| m.function_name.as_str()).collect();
    assert_eq!(names, vec!["alpha", "gamma"]);
    let missing = list_missing_examples(snap, true);
    assert_eq!(missing.len(), 1);
    assert_eq!(missing[0].function_name, "gamma");
    assert_eq!(list_missing_examples(snap, false).len(), 2);
    assert_eq!(effect_mismatches(snap).len(), 1);
}

#[test]
fn positions_resolve_to_symbols() {
    let store = sample_store();
    let snap = store.snapshot();
    assert_eq!(symbol_at_position(snap, "a.yb", 6, 4), Some(SymbolId(1)));
    assert_eq!(symbol_at_position(snap, "a.yb", 1, 7), Some(SymbolId(3)));
    assert_eq!(symbol_at_position(snap, "a.yb", 2, 2), Some(SymbolId(1)));
    assert_eq!(symbol_at_position(snap, "zzz.yb", 1, 1), None);
    let def = definition_for_position(snap, "b.yb", 2, 4).expect("definition");
    assert_eq!(def.name, "alpha");
    assert_eq!(references_for_position(snap, "b.yb", 2, 4).len(), 2);
    assert!(references_for_position(snap, "b.yb", 9, 9).is_empty());
}

#[test]
fn position_queries_need_measurable_spans_only_where_asked() {
    let mut store = sample_store();
    let mut wide = file_index("w.yb", "hw");
    wide.symbols = vec![sym(9, "huge", SymbolKind::Function, "w.yb", span(0, 0, usize::MAX, 3))];
    store.upsert_file(wide);
    let snap = store.snapshot();
    assert!(check_position_spans_defined(snap, "a.yb", 6, 4));
    assert!(check_position_spans_defined(snap, "w.yb", 9, 9) == false);
    assert!(check_position_spans_defined(snap, "missing.yb", 1, 1));
    assert_eq!(symbol_at_position(snap, "a.yb", 6, 4), Some(SymbolId(1)));
    assert_eq!(references_for_position(snap, "b.yb", 2, 4), find_references(snap, SymbolId(1)));
}

#[test]
fn spans_contain_and_measure() {
    let s = span(2, 3, 4, 5);
    assert!(s.contains(2, 3));
    assert!(s.contains(3, 1));
    assert!(!s.contains(2, 2));
    assert!(!s.contains(4, 6));
    assert_eq!(s.area(), 9);
    assert_eq!(span(5, 5, 1, 1).area(), 1);
    let back: Span = s.into();
    assert_eq!(IndexSpan::from(back), s);
    assert_eq!(IndexedSeverity::from(Severity::Warning), IndexedSeverity::Warning);
}

#[test]
fn store_stats_count_entries_and_bytes() {
    let mut store = sample_store();
    let stats = store.stats();
    assert_eq!(stats.files, 2);
    assert_eq!(stats.symbols, 4);
    assert_eq!(stats.references, 2);
    assert_eq!(stats.function_meta, 3);
    assert_eq!(stats.diagnostics, 0);
    assert!(stats.memory_estimate_bytes > 0);
    store.remove_file("a.yb");
    assert_eq!(store.stats().files, 1);
    store.clear();
    assert_eq!(store.stats().files, 0);
    assert_eq!(store.root(), "idx");
    assert!(!store.recovered_from_corruption());
}

#[test]
fn store_from_loaded_recovers_from_bad_snapshots() {
    let (store, backup) = IndexStore::from_loaded("r".to_string(), None);
    assert!(backup && store.recovered_from_corruption());
    let mut old = IndexSnapshot::new();
    old.schema_version = 7;
    let (store, backup) = IndexStore::from_loaded("r".to_string(), Some(old));
    assert!(backup && store.snapshot().files.is_empty());
    let (store, backup) = IndexStore::from_loaded("r".to_string(), Some(IndexSnapshot::new()));
    assert!(!backup && !store.recovered_from_corruption());
}

#[test]
fn incremental_affected_files_follow_dependencies() {
    let store = sample_store();
    let ix = IncrementalIndexer::new(store);
    assert_eq!(ix.affected_files_for_change("a.yb"), vec!["a.yb".to_string(), "b.yb".to_string()]);
    assert_eq!(ix.affected_files_for_change("b.yb"), vec!["b.yb".to_string()]);
    assert_eq!(ix.affected_files_for_change("new.yb"), vec!["new.yb".to_string()]);
}

#[test]
fn incremental_records_hits_and_misses() {
    let mut ix = IncrementalIndexer::new(sample_store());
    let mut t = IncrementalTelemetry::default();
    ix.record_file_index(file_index("a.yb", "ha"), &mut t);
    assert_eq!((t.cache_hits, t.cache_misses, t.files_reindexed), (1, 0, 0));
    ix.record_file_index(file_index("a.yb", "changed"), &mut t);
    assert_eq!((t.cache_hits, t.cache_misses, t.files_reindexed), (1, 1, 1));
    let update = ix
        .update_changed_files_with_loader("b.yb", |f: &str| Ok(Some(file_index(f, "hb"))))
        .expect("update");
    assert_eq!(update.invalidation_fanout, 1);
    assert_eq!(update.cache_hits, 1);
    ix.remove_file("b.yb");
    assert_eq!(ix.store().snapshot().files.len(), 1);
}

#[test]
fn incremental_update_stops_at_loader_error_and_removes_gone_files() {
    let mut ix = IncrementalIndexer::new(sample_store());
    let err = ix.update_changed_files_with_loader("a.yb", |f: &str| Err(format!("cannot read {}", f)));
    assert_eq!(err, Err("cannot read a.yb".to_string()));
    let t = ix.update_changed_files_with_loader("a.yb", |_f: &str| Ok(None)).expect("update");
    assert_eq!((t.invalidation_fanout, t.cache_hits, t.cache_misses, t.files_reindexed), (2, 0, 0, 0));
    assert!(ix.store().snapshot().files.is_empty());
}

#[test]
fn watcher_reports_added_removed_and_modified() {
    let mut w = FileWatcher::new();
    w.prime_from_paths(vec![("a".to_string(), "1".to_string()), ("b".to_string(), "2".to_string())]);
    let changes = w.scan(vec![("b".to_string(), "3".to_string()), ("c".to_string(), "4".to_string())]);
    let summary: Vec<(String, FileChangeKind)> = changes.iter().map(|c| (c.file.clone(), c.kind)).collect();
    assert_eq!(
        summary,
        vec![
            ("a".to_string(), FileChangeKind::Removed),
            ("b".to_string(), FileChangeKind::Modified),
            ("c".to_string(), FileChangeKind::Added),
        ]
    );
    assert_eq!(changes[1].hash.as_deref(), Some("3"));
    assert!(w.scan(vec![("b".to_string(), "3".to_string()), ("c".to_string(), "4".to_string())]).is_empty());
}

#[test]
fn hashes_are_sha256_hex() {
    assert_eq!(
        stable_hash_hex("abc"),
        "ba7816bf8f01cfea414140de5dae2223b00361a396177a9cb410ff61f20015ad"
    );
    assert_eq!(stable_hash_hex("").len(), 64);
    let id = stable_symbol_id("f", "n", SymbolKind::Function, "fn", 0);
    let expected = u64::from_str_radix(&stable_hash_hex("f|n|Function|fn|0")[..16], 16).unwrap();
    assert_eq!(id, expected);
    assert!(is_builtin_ident("println"));
    assert!(!is_builtin_ident("printf"));
}

#[test]
fn indexed_diagnostics_sort_by_span_code_severity() {
    let mut fi = file_index("d.yb", "h");
    fi.diagnostics = vec![
        IndexedDiagnostic { code: "E2".to_string(), severity: IndexedSeverity::Error, message: "m".to_string(), span: span(1, 1, 1, 1) },
        IndexedDiagnostic { code: "E1".to_string(), severity: IndexedSeverity::Warning, message: "m".to_string(), span: span(1, 1, 1, 1) },
        IndexedDiagnostic { code: "E0".to_string(), severity: IndexedSeverity::Error, message: "m".to_string(), span: span(0, 9, 0, 9) },
    ];
    fi.normalize();
    let codes: Vec<&str> = fi.diagnostics.iter().map(|d| d.code.as_str()).collect();
    assert_eq!(codes, vec!["E0", "E1", "E2"]);
}

#[test]
fn source_extensions_are_recognized() {
    assert!(is_supported_source_ext(PRIMARY_SOURCE_EXT));
    assert!(is_supported_source_ext(LEGACY_SOURCE_EXT));
    assert!(is_supported_source_ext("yb"));
    assert!(!is_supported_source_ext("rs"));
    assert!(!is_supported_source_ext(""));
    assert!(!is_supported_source_ext("YB"));
}

#[test]
fn upserted_file_is_found_and_removed_file_is_gone() {
    let mut store = IndexStore::new("idx".to_string());
    let mut a = file_index("a.yb", "h1");
    a.symbols = vec![
        sym(2, "z", SymbolKind::Function, "a.yb", span(3, 1, 3, 2)),
        sym(1, "y", SymbolKind::Function, "a.yb", span(1, 1, 1, 2)),
    ];
    store.upsert_file(file_index("b.yb", "hb"));
    store.upsert_file(a);
    let snap = store.snapshot();
    let keys: Vec<&str> = snap.files.iter().map(|(k, _)| k.as_str()).collect();
    assert_eq!(keys, vec!["a.yb", "b.yb"]);
    let names: Vec<&str> = snap.files[0].1.symbols.iter().map(|s| s.name.as_str()).collect();
    assert_eq!(names, vec!["y", "z"]);
    store.upsert_file(file_index("a.yb", "h2"));
    assert_eq!(store.snapshot().files[0].1.file_hash, "h2");
    assert_eq!(store.snapshot().files.len(), 2);
    store.remove_file("a.yb");
    let keys: Vec<String> = store.snapshot().files.iter().map(|(k, _)| k.clone()).collect();
    assert_eq!(keys, vec!["b.yb".to_string()]);
}

#[test]
fn legacy_index_is_migrated_only_when_alone() {
    assert_eq!(plan_index_root(true, true), IndexRootPlan::UsePrimary);
    assert_eq!(plan_index_root(true, false), IndexRootPlan::UsePrimary);
    assert_eq!(plan_index_root(false, false), IndexRootPlan::UsePrimary);
    assert_eq!(plan_index_root(false, true), IndexRootPlan::MigrateLegacy);
}

#[test]
fn first_scan_of_new_watcher_reports_every_file_added() {
    let mut w = FileWatcher::new();
    let changes = w.scan(vec![("b".to_string(), "2".to_string()), ("a".to_string(), "1".to_string())]);
    let summary: Vec<(String, FileChangeKind, Option<String>)> =
        changes.iter().map(|c| (c.file.clone(), c.kind, c.hash.clone())).collect();
    assert_eq!(
        summary,
        vec![
            ("a".to_string(), FileChangeKind::Added, Some("1".to_string())),
            ("b".to_string(), FileChangeKind::Added, Some("2".to_string())),
        ]
    );
    let mut primed = FileWatcher::new();
    primed.prime_from_paths(vec![("a".to_string(), "1".to_string())]);
    assert!(primed.scan(vec![("a".to_string(), "1".to_string())]).is_empty());
}

#[test]
fn empty_intent_query_selects_every_function_with_an_intent() {
    let store = sample_store();
    let all = find_by_intent(store.snapshot(), "");
    assert_eq!(all.len(), 2);
}
