use vstd::prelude::*;

use crate::codegen::value_class::{param_type, stdlib_target, stdlib_returns_float, ns_call_key};
use crate::mir::program::{MirExpr, MirFunction, MirStmt};
use crate::mir::MirType;
use crate::text::{push_str, str_eq, to_owned_string};

verus! {

/// The (name, type) entries as plain values.
pub open spec fn entry_views(v: Seq<(String, MirType)>) -> Seq<(Seq<char>, MirType)> {
    v.map_values(|e: (String, MirType)| (e.0@, e.1))
}

/// The type recorded for `name`: the first entry with that name.
pub open spec fn lookup_type(entries: Seq<(Seq<char>, MirType)>, name: Seq<char>) -> Option<MirType>
    decreases entries.len(),
{
    if entries.len() == 0 {
        None
    } else if entries[0].0 == name {
        Some(entries[0].1)
    } else {
        lookup_type(entries.subrange(1, entries.len() as int), name)
    }
}

/// The type an expression has in `owner`, given the return types of the
/// functions (library calls under `__ns_call__ns.f`) and the local types
/// known so far.
pub open spec fn infer_type_spec(
    e: MirExpr,
    owner: MirFunction,
    fr: Seq<(Seq<char>, MirType)>,
    lt: Seq<(Seq<char>, MirType)>,
) -> MirType
    decreases e, 2int,
{
    match e {
        MirExpr::Float(_) => MirType::F64,
        MirExpr::Bool(_) => MirType::Bool,
        MirExpr::Str(_) => MirType::Str,
        MirExpr::Int(_) => MirType::I64,
        MirExpr::Var(n) => match lookup_type(lt, n@) {
            Some(t) => t,
            None => match param_type(owner.params@, n@) {
                Some(t) => t,
                None => MirType::I64,
            },
        },
        MirExpr::Binary { left, op, right } => {
            let a = infer_type_spec(*left, owner, fr, lt);
            let b = infer_type_spec(*right, owner, fr, lt);
            if op@ == "Add"@ {
                if a == MirType::Str || b == MirType::Str {
                    MirType::Str
                } else if a == MirType::F64 || b == MirType::F64 {
                    MirType::F64
                } else {
                    MirType::I64
                }
            } else if op@ == "Sub"@ || op@ == "Mul"@ || op@ == "Div"@ || op@ == "Mod"@ {
                if a == MirType::F64 || b == MirType::F64 {
                    MirType::F64
                } else {
                    MirType::I64
                }
            } else {
                MirType::I64
            }
        },
        MirExpr::Unary { op, expr } => if op@ == "Neg"@ {
            infer_type_spec(*expr, owner, fr, lt)
        } else {
            MirType::I64
        },
        MirExpr::Call { callee, args } => call_type_spec(*callee, args@, owner, fr, lt),
        MirExpr::List(_) => MirType::Unknown,
        MirExpr::MapLit(_) => MirType::Unknown,
        MirExpr::ResultOk { expr: _ } => MirType::Result,
        MirExpr::ResultErr { expr: _ } => MirType::Result,
        _ => MirType::I64,
    }
}

/// Some argument has type `F64`.
pub open spec fn any_f64_arg(
    args: Seq<MirExpr>,
    owner: MirFunction,
    fr: Seq<(Seq<char>, MirType)>,
    lt: Seq<(Seq<char>, MirType)>,
) -> bool
    decreases args, 0int,
{
    if args.len() == 0 {
        false
    } else {
        infer_type_spec(args[0], owner, fr, lt) == MirType::F64 || any_f64_arg(
            args.subrange(1, args.len() as int),
            owner,
            fr,
            lt,
        )
    }
}

/// The type of a call's result: a known function's return type, the
/// float `min`/`max`, or what the standard library call gives.
pub open spec fn call_type_spec(
    callee: MirExpr,
    args: Seq<MirExpr>,
    owner: MirFunction,
    fr: Seq<(Seq<char>, MirType)>,
    lt: Seq<(Seq<char>, MirType)>,
) -> MirType
    decreases args, 1int,
{
    let var_ret = match callee {
        MirExpr::Var(n) => lookup_type(fr, n@),
        _ => None,
    };
    let minmax = match callee {
        MirExpr::Var(n) => n@ == "min"@ || n@ == "max"@,
        _ => false,
    };
    if var_ret is Some {
        var_ret->0
    } else if minmax {
        if any_f64_arg(args, owner, fr, lt) {
            MirType::F64
        } else {
            MirType::I64
        }
    } else {
        match stdlib_target(callee) {
            Some(t) => {
                let (ns, f) = t;
                if lookup_type(fr, ns_call_key(ns, f)) is Some {
                    lookup_type(fr, ns_call_key(ns, f))->0
                } else if stdlib_returns_float(ns, f) {
                    MirType::F64
                } else if ns == "convert"@ && (f == "to_str"@ || f == "to_str_f64"@ || f == "format_f64"@) {
                    MirType::Str
                } else if ns == "json.builder"@ && f == "finish"@ {
                    MirType::Str
                } else if ns == "json.builder"@ {
                    MirType::JsonBuilder
                } else {
                    MirType::I64
                }
            },
            None => MirType::I64,
        }
    }
}

/// The local types after a statement: an assignment or binding records
/// (overrides) its name's type; branch and loop bodies record theirs.
pub open spec fn stmt_types(
    st: MirStmt,
    owner: MirFunction,
    fr: Seq<(Seq<char>, MirType)>,
    lt: Seq<(Seq<char>, MirType)>,
) -> Seq<(Seq<char>, MirType)>
    decreases st, 1int,
{
    match st {
        MirStmt::Let { name, expr } => seq![(name@, infer_type_spec(expr, owner, fr, lt))] + lt,
        MirStmt::Assign { name, expr } => seq![(name@, infer_type_spec(expr, owner, fr, lt))] + lt,
        MirStmt::If { cond: _, then_body, else_body } => stmts_types(
            else_body@,
            owner,
            fr,
            stmts_types(then_body@, owner, fr, lt),
        ),
        MirStmt::While { cond: _, body } => stmts_types(body@, owner, fr, lt),
        MirStmt::Repeat { count: _, body } => stmts_types(body@, owner, fr, lt),
        MirStmt::For { var: _, iter: _, iter_kind: _, body } => stmts_types(body@, owner, fr, lt),
        _ => lt,
    }
}

/// The local types after a block.
pub open spec fn stmts_types(
    s: Seq<MirStmt>,
    owner: MirFunction,
    fr: Seq<(Seq<char>, MirType)>,
    lt: Seq<(Seq<char>, MirType)>,
) -> Seq<(Seq<char>, MirType)>
    decreases s, 0int,
{
    if s.len() == 0 {
        lt
    } else {
        stmt_types(s.last(), owner, fr, stmts_types(s.drop_last(), owner, fr, lt))
    }
}

fn lookup_type_exec(entries: &Vec<(String, MirType)>, name: &str) -> (r: Option<MirType>)
    ensures
        r == lookup_type(entry_views(entries@), name@),
{
    let ghost s = entry_views(entries@);
    let mut i: usize = 0;
    assert(s.subrange(0, s.len() as int) =~= s);
    while i < entries.len()
        invariant
            s == entry_views(entries@),
            i <= s.len(),
            lookup_type(s, name@) == lookup_type(s.subrange(i as int, s.len() as int), name@),
        decreases entries.len() - i,
    {
        let ghost t = s.subrange(i as int, s.len() as int);
        assert(t[0] == s[i as int]);
        assert(t.subrange(1, t.len() as int) =~= s.subrange(i + 1, s.len() as int));
        if str_eq(entries[i].0.as_str(), name) {
            return Some(entries[i].1);
        }
        i = i + 1;
    }
    None
}

/// The type of the value an expression computes in `owner`.
pub fn infer_mir_expr_type(
    expr: &MirExpr,
    owner: &MirFunction,
    function_returns: &Vec<(String, MirType)>,
    locals_ty: &Vec<(String, MirType)>,
) -> (r: MirType)
    ensures
        r == infer_type_spec(*expr, *owner, entry_views(function_returns@), entry_views(locals_ty@)),
    decreases expr, 2int,
{
    match expr {
        MirExpr::Float(_) => MirType::F64,
        MirExpr::Bool(_) => MirType::Bool,
        MirExpr::Str(_) => MirType::Str,
        MirExpr::Int(_) => MirType::I64,
        MirExpr::Var(n) => match lookup_type_exec(locals_ty, n.as_str()) {
            Some(t) => t,
            None => match crate::codegen::value_class::param_type_exec(&owner.params, n.as_str()) {
                Some(t) => t,
                None => MirType::I64,
            },
        },
        MirExpr::Binary { left, op, right } => {
            let a = infer_mir_expr_type(left, owner, function_returns, locals_ty);
            let b = infer_mir_expr_type(right, owner, function_returns, locals_ty);
            let o = op.as_str();
            if str_eq(o, "Add") {
                if a == MirType::Str || b == MirType::Str {
                    MirType::Str
                } else if a == MirType::F64 || b == MirType::F64 {
                    MirType::F64
                } else {
                    MirType::I64
                }
            } else if str_eq(o, "Sub") || str_eq(o, "Mul") || str_eq(o, "Div") || str_eq(o, "Mod") {
                if a == MirType::F64 || b == MirType::F64 {
                    MirType::F64
                } else {
                    MirType::I64
                }
            } else {
                MirType::I64
            }
        },
        MirExpr::Unary { op, expr } => if str_eq(op.as_str(), "Neg") {
            infer_mir_expr_type(expr, owner, function_returns, locals_ty)
        } else {
            MirType::I64
        },
        MirExpr::Call { callee, args } => call_type(callee, args, owner, function_returns, locals_ty),
        MirExpr::List(_) => MirType::Unknown,
        MirExpr::MapLit(_) => MirType::Unknown,
        MirExpr::ResultOk { expr: _ } => MirType::Result,
        MirExpr::ResultErr { expr: _ } => MirType::Result,
        _ => MirType::I64,
    }
}

fn any_f64_arg_exec(
    args: &Vec<MirExpr>,
    owner: &MirFunction,
    function_returns: &Vec<(String, MirType)>,
    locals_ty: &Vec<(String, MirType)>,
) -> (r: bool)
    ensures
        r == any_f64_arg(args@, *owner, entry_views(function_returns@), entry_views(locals_ty@)),
    decreases args@, 0int,
{
    let ghost (fr, lt) = (entry_views(function_returns@), entry_views(locals_ty@));
    let ghost s = args@;
    let mut i: usize = 0;
    assert(s.subrange(0, s.len() as int) =~= s);
    while i < args.len()
        invariant
            s == args@,
            fr == entry_views(function_returns@),
            lt == entry_views(locals_ty@),
            i <= s.len(),
            any_f64_arg(s, *owner, fr, lt) == any_f64_arg(s.subrange(i as int, s.len() as int), *owner, fr, lt),
        decreases args.len() - i,
    {
        let ghost t = s.subrange(i as int, s.len() as int);
        assert(t[0] == s[i as int]);
        assert(t.subrange(1, t.len() as int) =~= s.subrange(i + 1, s.len() as int));
        if infer_mir_expr_type(&args[i], owner, function_returns, locals_ty) == MirType::F64 {
            return true;
        }
        i = i + 1;
    }
    false
}

fn call_type(
    callee: &MirExpr,
    args: &Vec<MirExpr>,
    owner: &MirFunction,
    function_returns: &Vec<(String, MirType)>,
    locals_ty: &Vec<(String, MirType)>,
) -> (r: MirType)
    ensures
        r == call_type_spec(*callee, args@, *owner, entry_views(function_returns@), entry_views(locals_ty@)),
    decreases args@, 1int,
{
    match callee {
        MirExpr::Var(n) => {
            match lookup_type_exec(function_returns, n.as_str()) {
                Some(t) => {
                    return t;
                },
                None => {},
            }
            if str_eq(n.as_str(), "min") || str_eq(n.as_str(), "max") {
                if any_f64_arg_exec(args, owner, function_returns, locals_ty) {
                    return MirType::F64;
                }
                return MirType::I64;
            }
        },
        _ => {},
    }
    match crate::codegen::value_class::stdlib_target_exec(callee) {
        Some(t) => {
            let ns = t.0.as_str();
            let f = t.1.as_str();
            let mut key = to_owned_string("__ns_call__");
            push_str(&mut key, ns);
            push_str(&mut key, ".");
            push_str(&mut key, f);
            proof {
                reveal_strlit(".");
                assert(key@ =~= ns_call_key(ns@, f@));
            }
            match lookup_type_exec(function_returns, key.as_str()) {
                Some(ty) => {
                    return ty;
                },
                None => {},
            }
            if crate::codegen::value_class::stdlib_returns_float_exec(ns, f) {
                MirType::F64
            } else if str_eq(ns, "convert") && (str_eq(f, "to_str") || str_eq(f, "to_str_f64") || str_eq(
                f,
                "format_f64",
            )) {
                MirType::Str
            } else if str_eq(ns, "json.builder") && str_eq(f, "finish") {
                MirType::Str
            } else if str_eq(ns, "json.builder") {
                MirType::JsonBuilder
            } else {
                MirType::I64
            }
        },
        None => MirType::I64,
    }
}

/// Records the type of every local that `stmts` bind or assign (nested
/// branch and loop bodies included), in order, each overriding earlier
/// records of its name.
pub fn collect_local_types(
    stmts: &Vec<MirStmt>,
    owner: &MirFunction,
    function_returns: &Vec<(String, MirType)>,
    locals_ty: &mut Vec<(String, MirType)>,
)
    ensures
        entry_views(final(locals_ty)@) == stmts_types(
            stmts@,
            *owner,
            entry_views(function_returns@),
            entry_views(old(locals_ty)@),
        ),
    decreases stmts, 0int,
{
    let ghost fr = entry_views(function_returns@);
    let ghost l0 = entry_views(locals_ty@);
    let ghost s = stmts@;
    let mut i: usize = 0;
    assert(s.take(0) =~= Seq::<MirStmt>::empty());
    while i < stmts.len()
        invariant
            s == stmts@,
            fr == entry_views(function_returns@),
            l0 == entry_views(old(locals_ty)@),
            i <= s.len(),
            entry_views(locals_ty@) == stmts_types(s.take(i as int), *owner, fr, l0),
        decreases stmts.len() - i,
    {
        assert(s.take(i + 1).drop_last() =~= s.take(i as int));
        assert(s.take(i + 1).last() == s[i as int]);
        collect_stmt_types(&stmts[i], owner, function_returns, locals_ty);
        i = i + 1;
    }
    assert(s.take(s.len() as int) =~= s);
}

fn collect_stmt_types(
    st: &MirStmt,
    owner: &MirFunction,
    function_returns: &Vec<(String, MirType)>,
    locals_ty: &mut Vec<(String, MirType)>,
)
    ensures
        entry_views(final(locals_ty)@) == stmt_types(
            *st,
            *owner,
            entry_views(function_returns@),
            entry_views(old(locals_ty)@),
        ),
    decreases st, 1int,
{
    let ghost l0 = entry_views(locals_ty@);
    match st {
        MirStmt::Let { name, expr } | MirStmt::Assign { name, expr } => {
            let ty = infer_mir_expr_type(expr, owner, function_returns, locals_ty);
            locals_ty.insert(0, (to_owned_string(name.as_str()), ty));
            assert(entry_views(locals_ty@) =~= seq![(name@, ty)] + l0);
        },
        MirStmt::If { cond: _, then_body, else_body } => {
            collect_local_types(then_body, owner, function_returns, locals_ty);
            collect_local_types(else_body, owner, function_returns, locals_ty);
        },
        MirStmt::While { cond: _, body } => collect_local_types(body, owner, function_returns, locals_ty),
        MirStmt::Repeat { count: _, body } => collect_local_types(body, owner, function_returns, locals_ty),
        MirStmt::For { var: _, iter: _, iter_kind: _, body } => collect_local_types(
            body,
            owner,
            function_returns,
            locals_ty,
        ),
        _ => {},
    }
}

} // verus!
