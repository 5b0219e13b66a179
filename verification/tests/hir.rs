use vibelang::indexer::extract::effect_mismatch_of;
use vibelang::hir::{verify_hir, HirExpr, HirExprKind, HirFunction, HirProgram, HirStmt};

fn function(name: &str, body: Vec<HirStmt>, tail_expr: Option<HirExpr>) -> HirFunction {
    HirFunction {
        name: name.to_string(),
        is_public: true,
        params: vec![],
        return_type: None,
        inferred_return_type: Some("Int".to_string()),
        effects_declared: Vec::new(),
        effects_observed: Vec::new(),
        body,
        tail_expr,
    }
}

#[test]
fn verify_hir_accepts_function_with_body() {
    let program = HirProgram {
        functions: vec![function(
            "main",
            vec![HirStmt::Expr {
                expr: HirExpr::new(
                    HirExprKind::Call {
                        callee: Box::new(HirExpr::new(HirExprKind::Ident("println".to_string()), "Unknown")),
                        args: vec![HirExpr::new(HirExprKind::String("hi".to_string()), "Str")],
                    },
                    "Void",
                ),
            }],
            Some(HirExpr::new(HirExprKind::Int(0), "Int")),
        )],
    };
    assert!(verify_hir(&program).is_ok());
}

#[test]
fn verify_hir_rejects_empty_expr_type() {
    let program = HirProgram {
        functions: vec![function("main", vec![HirStmt::Expr { expr: HirExpr::new(HirExprKind::Int(1), "") }], None)],
    };
    let err = verify_hir(&program).expect_err("expected verifier failure");
    assert!(err.contains("empty expression type"));
}

#[test]
fn verify_hir_reports_duplicates_and_blank_names_first_in_order() {
    let program = HirProgram {
        functions: vec![function("f", vec![], None), function("f", vec![], None)],
    };
    assert_eq!(verify_hir(&program), Err("duplicate function `f` in HIR".to_string()));
    let program = HirProgram {
        functions: vec![function(
            "g",
            vec![
                HirStmt::Binding { name: " ".to_string(), expr: HirExpr::new(HirExprKind::Int(1), "") },
                HirStmt::Expr { expr: HirExpr::new(HirExprKind::Ident("".to_string()), "Int") },
            ],
            None,
        )],
    };
    assert_eq!(verify_hir(&program), Err("empty binding name in HIR".to_string()));
    let program = HirProgram {
        functions: vec![function(
            "h",
            vec![HirStmt::Expr {
                expr: HirExpr::new(
                    HirExprKind::Member {
                        object: Box::new(HirExpr::new(HirExprKind::Ident("x".to_string()), "T")),
                        field: "\t".to_string(),
                    },
                    "Int",
                ),
            }],
            None,
        )],
    };
    assert_eq!(verify_hir(&program), Err("empty member field name in HIR".to_string()));
}

#[test]
fn effect_mismatch_lists_undeclared_and_unused_effects() {
    let mut f = function("load", vec![], None);
    f.effects_declared = vec!["io".to_string(), "net".to_string()];
    f.effects_observed = vec!["fs".to_string(), "io".to_string()];
    let program = HirProgram { functions: vec![f, function("pure", vec![], None)] };
    let m = effect_mismatch_of("load", "a.yb", &program).expect("mismatch");
    assert_eq!(m.function_name, "load");
    assert_eq!(m.file, "a.yb");
    assert_eq!(m.declared_only, vec!["net".to_string()]);
    assert_eq!(m.observed_only, vec!["fs".to_string()]);
    assert!(effect_mismatch_of("pure", "a.yb", &program).is_none());
    assert!(effect_mismatch_of("absent", "a.yb", &program).is_none());
}
