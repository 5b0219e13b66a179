use vibelang::hir::{HirExpr, HirExprKind, HirFunction, HirParam, HirProgram, HirStmt};
use vibelang::mir::lower::lower_hir_to_mir;
use vibelang::mir::optimize::constant_fold_expr;
use vibelang::mir::program::{verify_mir, MirExpr, MirProgram, MirStmt};
use vibelang::mir::{
    classify_for_iter_kind, hir_expr_is_fn_type, mir_param_ty_from_hir_raw, mir_type_name,
    parse_fn_mir_sig, parse_type_name, split_fn_param_list, MirForIterKind, MirType,
};

#[test]
fn bytes_maps_to_its_own_mir_type() {
    assert_eq!(parse_type_name("Bytes"), MirType::Bytes);
    assert_eq!(mir_type_name(&MirType::Bytes), "Bytes");
}

#[test]
fn bytes_does_not_fall_through_to_unknown() {
    assert_ne!(parse_type_name("Bytes"), MirType::Unknown);
}

#[test]
fn type_names_round_trip_except_numeric() {
    for t in [
        MirType::Bool,
        MirType::Str,
        MirType::Bytes,
        MirType::Json,
        MirType::JsonBuilder,
        MirType::Result,
        MirType::Void,
        MirType::Unknown,
        MirType::Ptr,
    ] {
        assert_eq!(parse_type_name(mir_type_name(&t)), t);
    }
    assert_eq!(parse_type_name("Int"), MirType::I64);
    assert_eq!(parse_type_name("Float"), MirType::F64);
    assert_eq!(parse_type_name("I64"), MirType::Unknown);
    assert_eq!(parse_type_name(" Result < Int , Str >"), MirType::Result);
    assert_eq!(parse_type_name("List<Int>"), MirType::Unknown);
}

#[test]
fn for_iter_kinds_follow_the_collection_type() {
    assert_eq!(classify_for_iter_kind("List<Int>"), MirForIterKind::List);
    assert_eq!(classify_for_iter_kind("Map< Int , Str>"), MirForIterKind::MapInt);
    assert_eq!(classify_for_iter_kind("Map<Str,Int>"), MirForIterKind::MapStr);
    assert_eq!(classify_for_iter_kind("Str"), MirForIterKind::Unknown);
}

#[test]
fn function_types_are_pointers() {
    assert!(hir_expr_is_fn_type(" fn ( Int ) -> Int"));
    assert!(!hir_expr_is_fn_type("Int"));
    assert_eq!(mir_param_ty_from_hir_raw("fn(Int)->Int"), MirType::Ptr);
    assert_eq!(mir_param_ty_from_hir_raw(" Str "), MirType::Str);
}

#[test]
fn parses_function_signatures() {
    assert_eq!(
        parse_fn_mir_sig("fn(Int, fn(Str) -> Bool, Bytes) -> Void"),
        Some((vec![MirType::I64, MirType::Unknown, MirType::Bytes], MirType::Void))
    );
    assert_eq!(parse_fn_mir_sig("fn() -> Str"), Some((vec![], MirType::Str)));
    assert_eq!(parse_fn_mir_sig("fn(Int)"), None);
    assert_eq!(parse_fn_mir_sig("Int"), None);
    assert_eq!(parse_fn_mir_sig("fn(Int"), None);
}

#[test]
fn splits_parameter_lists_at_top_level_commas() {
    assert_eq!(
        split_fn_param_list(" a , f(b, c) ,d"),
        Some(vec!["a".to_string(), "f(b, c)".to_string(), "d".to_string()])
    );
    assert_eq!(split_fn_param_list(""), Some(vec![String::new()]));
}

fn mir_function(name: &str, body: Vec<vibelang::mir::program::MirStmt>) -> vibelang::mir::program::MirFunction {
    vibelang::mir::program::MirFunction {
        name: name.to_string(),
        is_public: true,
        params: vec![],
        return_type: vibelang::mir::MirType::I64,
        body,
        native_symbol: None,
    }
}

#[test]
fn verify_mir_accepts_wellformed_and_reports_first_problem() {
    let ok = MirProgram {
        functions: vec![mir_function(
            "main",
            vec![
                MirStmt::Let { name: "x".to_string(), expr: MirExpr::Int(1) },
                MirStmt::Return(MirExpr::Var("x".to_string())),
            ],
        )],
    };
    assert_eq!(verify_mir(&ok), Ok(()));
    let dup = MirProgram { functions: vec![mir_function("f", vec![]), mir_function("f", vec![])] };
    assert_eq!(verify_mir(&dup), Err("duplicate function `f` in MIR".to_string()));
    let bad_call = MirProgram {
        functions: vec![mir_function(
            "g",
            vec![MirStmt::Expr(MirExpr::ClosureCall {
                closure: Box::new(MirExpr::Var("c".to_string())),
                args: vec![MirExpr::Int(1)],
                user_param_tys: vec![],
                ret_ty: vibelang::mir::MirType::Void,
            })],
        )],
    };
    assert_eq!(verify_mir(&bad_call), Err("closure call arg count mismatch vs signature".to_string()));
    let blank_var = MirProgram {
        functions: vec![mir_function("h", vec![MirStmt::Expr(MirExpr::Var(" ".to_string()))])],
    };
    assert_eq!(verify_mir(&blank_var), Err("empty variable expression in MIR".to_string()));
}

fn bin(l: MirExpr, op: &str, r: MirExpr) -> MirExpr {
    MirExpr::Binary { left: Box::new(l), op: op.to_string(), right: Box::new(r) }
}

fn as_int(e: &MirExpr) -> Option<i64> {
    match e {
        MirExpr::Int(v) => Some(*v),
        _ => None,
    }
}

#[test]
fn constant_folding_computes_integer_boolean_and_string_literals() {
    assert_eq!(as_int(&constant_fold_expr(bin(MirExpr::Int(2), "Add", bin(MirExpr::Int(3), "Mul", MirExpr::Int(4))))), Some(14));
    assert_eq!(as_int(&constant_fold_expr(bin(MirExpr::Int(i64::MAX), "Add", MirExpr::Int(1)))), Some(i64::MIN));
    assert_eq!(as_int(&constant_fold_expr(bin(MirExpr::Int(-7), "Div", MirExpr::Int(2)))), Some(-3));
    assert_eq!(as_int(&constant_fold_expr(bin(MirExpr::Int(-7), "Mod", MirExpr::Int(2)))), Some(-1));
    assert_eq!(as_int(&constant_fold_expr(bin(MirExpr::Int(1), "Lt", MirExpr::Int(2)))), Some(1));
    assert_eq!(
        as_int(&constant_fold_expr(MirExpr::Unary { op: "Neg".to_string(), expr: Box::new(MirExpr::Int(5)) })),
        Some(-5)
    );
    match constant_fold_expr(bin(MirExpr::Int(1), "Div", MirExpr::Int(0))) {
        MirExpr::Binary { op, .. } => assert_eq!(op, "Div"),
        _ => panic!("division by zero must stay"),
    }
    match constant_fold_expr(bin(MirExpr::Str("a".to_string()), "Add", MirExpr::Str("b".to_string()))) {
        MirExpr::Str(s) => assert_eq!(s, "ab"),
        _ => panic!("strings must join"),
    }
    match constant_fold_expr(bin(MirExpr::Bool(true), "And", MirExpr::Bool(false))) {
        MirExpr::Bool(b) => assert!(!b),
        _ => panic!("booleans must fold"),
    }
    match constant_fold_expr(MirExpr::Call {
        callee: Box::new(MirExpr::Var("f".to_string())),
        args: vec![bin(MirExpr::Int(1), "Add", MirExpr::Int(1)), MirExpr::Var("x".to_string())],
    }) {
        MirExpr::Call { args, .. } => {
            assert_eq!(as_int(&args[0]), Some(2));
            assert!(matches!(&args[1], MirExpr::Var(n) if n == "x"));
        }
        _ => panic!("calls keep their kind"),
    }
}

fn hir_function(name: &str, params: Vec<HirParam>, body: Vec<HirStmt>, tail_expr: Option<HirExpr>) -> HirFunction {
    HirFunction {
        name: name.to_string(),
        is_public: true,
        params,
        return_type: None,
        inferred_return_type: Some("Int".to_string()),
        effects_declared: Vec::new(),
        effects_observed: Vec::new(),
        body,
        tail_expr,
    }
}

#[test]
fn fn_param_call_lowers_to_closure_call() {
    let hir = HirProgram {
        functions: vec![
            hir_function(
                "run_with",
                vec![HirParam { name: "x".to_string(), ty: None }, HirParam { name: "cb".to_string(), ty: None }],
                vec![],
                Some(HirExpr::new(
                    HirExprKind::Call {
                        callee: Box::new(HirExpr::new(HirExprKind::Ident("cb".to_string()), "fn(Int)->Int")),
                        args: vec![HirExpr::new(HirExprKind::Ident("x".to_string()), "Int")],
                    },
                    "Int",
                )),
            ),
            hir_function("main", vec![], vec![], Some(HirExpr::new(HirExprKind::Int(0), "Int"))),
        ],
    };
    let mir = lower_hir_to_mir(&hir).expect("lower");
    let run = mir.functions.iter().find(|f| f.name == "run_with").unwrap();
    assert!(
        matches!(run.body.as_slice(), [MirStmt::Return(MirExpr::ClosureCall { .. })]),
        "expected ClosureCall for `cb(x)`, got {:?}",
        run.body
    );
}

#[test]
fn type_of_call_lowers_to_string_of_hir_type() {
    let hir = HirProgram {
        functions: vec![hir_function(
            "main",
            vec![],
            vec![],
            Some(HirExpr::new(
                HirExprKind::Call {
                    callee: Box::new(HirExpr::new(HirExprKind::Ident("type_of".to_string()), "Unknown")),
                    args: vec![HirExpr::new(HirExprKind::Int(1), "Int")],
                },
                "Str",
            )),
        )],
    };
    let mir = lower_hir_to_mir(&hir).expect("lowering should succeed");
    assert!(matches!(
        mir.functions[0].body.as_slice(),
        [MirStmt::Return(MirExpr::Str(s))] if s == "Int"
    ));
}

#[test]
fn lower_hir_program_to_mir_program() {
    let hir = HirProgram {
        functions: vec![hir_function(
            "main",
            vec![],
            vec![HirStmt::Expr {
                expr: HirExpr::new(
                    HirExprKind::Call {
                        callee: Box::new(HirExpr::new(HirExprKind::Ident("println".to_string()), "Unknown")),
                        args: vec![HirExpr::new(HirExprKind::String("hello".to_string()), "Str")],
                    },
                    "Void",
                ),
            }],
            Some(HirExpr::new(HirExprKind::Int(0), "Int")),
        )],
    };
    let mir = lower_hir_to_mir(&hir).expect("lower");
    assert_eq!(mir.functions.len(), 1);
    assert!(matches!(mir.functions[0].body.last(), Some(MirStmt::Return(_))));
}

#[test]
fn lowering_reports_type_of_arity_and_specializes_json_encode() {
    let bad = HirProgram {
        functions: vec![hir_function(
            "main",
            vec![],
            vec![],
            Some(HirExpr::new(
                HirExprKind::Call {
                    callee: Box::new(HirExpr::new(HirExprKind::Ident("type_of".to_string()), "Unknown")),
                    args: vec![],
                },
                "Str",
            )),
        )],
    };
    assert_eq!(lower_hir_to_mir(&bad).err(), Some("`type_of` expects exactly one argument".to_string()));
    let encode = HirProgram {
        functions: vec![hir_function(
            "main",
            vec![],
            vec![HirStmt::Binding {
                name: "s".to_string(),
                expr: HirExpr::new(
                    HirExprKind::Call {
                        callee: Box::new(HirExpr::new(
                            HirExprKind::Member {
                                object: Box::new(HirExpr::new(HirExprKind::Ident("json".to_string()), "Unknown")),
                                field: "encode".to_string(),
                            },
                            "Unknown",
                        )),
                        args: vec![HirExpr::new(HirExprKind::Ident("u".to_string()), "User")],
                    },
                    "Str",
                ),
            }],
            None,
        )],
    };
    let mir = lower_hir_to_mir(&encode).expect("lower");
    match &mir.functions[0].body[0] {
        MirStmt::Let { expr: MirExpr::Call { callee, .. }, .. } => match &**callee {
            MirExpr::Member { field, .. } => assert_eq!(field, "encode_User"),
            other => panic!("unexpected callee {:?}", other),
        },
        other => panic!("unexpected statement {:?}", other),
    }
}
