use vibelang::codegen::local_types::{collect_local_types, infer_mir_expr_type};
use vibelang::codegen::value_class::{value_class_for_expr, ValueClass};
use vibelang::mir::program::{MirExpr, MirFunction, MirStmt};
use vibelang::mir::{MirParam, MirType};

fn var(n: &str) -> MirExpr {
    MirExpr::Var(n.to_string())
}

fn member(object: MirExpr, field: &str) -> MirExpr {
    MirExpr::Member { object: Box::new(object), field: field.to_string(), object_type: None }
}

fn call(callee: MirExpr, args: Vec<MirExpr>) -> MirExpr {
    MirExpr::Call { callee: Box::new(callee), args }
}

fn owner() -> MirFunction {
    MirFunction {
        name: "f".to_string(),
        is_public: false,
        params: vec![
            MirParam { name: "x".to_string(), ty: MirType::F64 },
            MirParam { name: "flag".to_string(), ty: MirType::Bool },
        ],
        return_type: MirType::I64,
        body: vec![MirStmt::Let { name: "s".to_string(), expr: MirExpr::Str("hi".to_string()) }],
        native_symbol: None,
    }
}

#[test]
fn value_classes_follow_literals_params_and_locals() {
    let o = owner();
    let returns = vec![("name_of".to_string(), MirType::Str)];
    let locals = vec![("n".to_string(), MirType::Bool)];
    let class = |e: &MirExpr| value_class_for_expr(e, &o, &returns, &locals);
    assert_eq!(class(&MirExpr::Float(0)), ValueClass::F64);
    assert_eq!(class(&MirExpr::Bool(true)), ValueClass::I8);
    assert_eq!(class(&MirExpr::Int(3)), ValueClass::I64);
    assert_eq!(class(&var("x")), ValueClass::F64);
    assert_eq!(class(&var("flag")), ValueClass::I8);
    assert_eq!(class(&var("n")), ValueClass::I8);
    assert_eq!(class(&var("s")), ValueClass::Ptr);
    assert_eq!(class(&var("other")), ValueClass::I64);
    let add = MirExpr::Binary { left: Box::new(var("s")), op: "Add".to_string(), right: Box::new(MirExpr::Int(1)) };
    assert_eq!(class(&add), ValueClass::Ptr);
    let mul = MirExpr::Binary { left: Box::new(var("x")), op: "Mul".to_string(), right: Box::new(MirExpr::Int(2)) };
    assert_eq!(class(&mul), ValueClass::F64);
    let lt = MirExpr::Binary { left: Box::new(var("x")), op: "Lt".to_string(), right: Box::new(MirExpr::Int(2)) };
    assert_eq!(class(&lt), ValueClass::I64);
}

#[test]
fn value_classes_of_calls_follow_the_callee() {
    let o = owner();
    let returns = vec![("name_of".to_string(), MirType::Str), ("__ns_call__time.now".to_string(), MirType::F64)];
    let locals = vec![];
    let class = |e: &MirExpr| value_class_for_expr(e, &o, &returns, &locals);
    assert_eq!(class(&call(var("chan"), vec![])), ValueClass::Ptr);
    assert_eq!(class(&call(var("len"), vec![var("s")])), ValueClass::I64);
    assert_eq!(class(&call(var("max"), vec![MirExpr::Int(1), var("x")])), ValueClass::F64);
    assert_eq!(class(&call(var("max"), vec![MirExpr::Int(1)])), ValueClass::I64);
    assert_eq!(class(&call(var("name_of"), vec![])), ValueClass::Ptr);
    assert_eq!(class(&call(member(var("time"), "now"), vec![])), ValueClass::F64);
    assert_eq!(class(&call(member(var("convert"), "to_float"), vec![])), ValueClass::F64);
    assert_eq!(class(&call(member(member(var("json"), "builder"), "add"), vec![])), ValueClass::Ptr);
    assert_eq!(class(&call(member(var("items"), "len"), vec![])), ValueClass::I64);
    assert_eq!(class(&call(member(var("text"), "trim"), vec![])), ValueClass::Ptr);
    assert_eq!(class(&call(member(var("json"), "decode_user"), vec![])), ValueClass::Ptr);
}

#[test]
fn inferred_types_follow_operands_calls_and_locals() {
    let o = owner();
    let returns = vec![("name_of".to_string(), MirType::Str)];
    let body = vec![
        MirStmt::Let { name: "a".to_string(), expr: MirExpr::Int(1) },
        MirStmt::Let { name: "b".to_string(), expr: MirExpr::Binary { left: Box::new(var("a")), op: "Add".to_string(), right: Box::new(MirExpr::Str("x".to_string())) } },
        MirStmt::Assign { name: "a".to_string(), expr: var("x") },
    ];
    let mut locals = vec![];
    collect_local_types(&body, &o, &returns, &mut locals);
    assert_eq!(infer_mir_expr_type(&var("a"), &o, &returns, &locals), MirType::F64);
    assert_eq!(infer_mir_expr_type(&var("b"), &o, &returns, &locals), MirType::Str);
    assert_eq!(infer_mir_expr_type(&call(var("name_of"), vec![]), &o, &returns, &locals), MirType::Str);
    assert_eq!(infer_mir_expr_type(&call(member(member(var("json"), "builder"), "add"), vec![]), &o, &returns, &locals), MirType::JsonBuilder);
    assert_eq!(infer_mir_expr_type(&MirExpr::List(vec![]), &o, &returns, &locals), MirType::Unknown);
}

#[test]
fn repeated_parameter_name_is_float_when_any_of_them_is() {
    let mut o = owner();
    o.params = vec![
        MirParam { name: "y".to_string(), ty: MirType::I64 },
        MirParam { name: "y".to_string(), ty: MirType::F64 },
    ];
    let returns: Vec<(String, MirType)> = vec![];
    let locals: Vec<(String, MirType)> = vec![];
    assert_eq!(value_class_for_expr(&var("y"), &o, &returns, &locals), ValueClass::F64);
}
