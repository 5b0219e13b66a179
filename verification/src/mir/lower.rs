use vstd::prelude::*;

use crate::hir::{
    first_error, HirFunction, HirParam, HirProgram, BinaryOp, HirExpr, HirExprKind, HirSelectCase, HirSelectPattern, HirStmt, UnaryOp,
};
use crate::mir::program::{
    mir_error, verify_mir, MirExpr, MirFunction, MirProgram, MirSelectCase, MirSelectPattern, MirStmt,
};
use crate::mir::{
    classify_for_iter_kind, classify_for_iter_kind_spec, hir_expr_is_fn_type, parse_fn_mir_sig, parse_fn_mir_sig_spec, starts_with, trim, trim_chars_pub,
    mir_param_ty_from_hir_raw, parse_type_name_spec, without_whitespace, MirParam, MirType,
};
use crate::order::views;
use crate::text::{chars_of, push_str, str_eq, string_of, to_owned_string};

verus! {

/// The name of a binary operator, as the mid-level representation spells it.
pub open spec fn binary_op_name(op: BinaryOp) -> Seq<char> {
    match op {
        BinaryOp::Add => "Add"@,
        BinaryOp::Sub => "Sub"@,
        BinaryOp::Mul => "Mul"@,
        BinaryOp::Div => "Div"@,
        BinaryOp::Mod => "Mod"@,
        BinaryOp::Eq => "Eq"@,
        BinaryOp::Ne => "Ne"@,
        BinaryOp::Lt => "Lt"@,
        BinaryOp::Le => "Le"@,
        BinaryOp::Gt => "Gt"@,
        BinaryOp::Ge => "Ge"@,
        BinaryOp::And => "And"@,
        BinaryOp::Or => "Or"@,
        BinaryOp::BitAnd => "BitAnd"@,
        BinaryOp::BitOr => "BitOr"@,
        BinaryOp::BitXor => "BitXor"@,
        BinaryOp::Shl => "Shl"@,
        BinaryOp::Shr => "Shr"@,
    }
}

/// The name of a unary operator.
pub open spec fn unary_op_name(op: UnaryOp) -> Seq<char> {
    match op {
        UnaryOp::Neg => "Neg"@,
        UnaryOp::Not => "Not"@,
    }
}

/// The named type a member access is made on, if its object has one: a
/// type other than the builtin scalars, lists and maps.
pub open spec fn member_object_type(ty: Seq<char>) -> Option<Seq<char>> {
    if ty.len() != 0 && ty != "Int"@ && ty != "Float"@ && ty != "Bool"@ && ty != "Str"@
        && !starts_with(ty, "List"@) && !starts_with(ty, "Map"@) {
        Some(ty)
    } else {
        None
    }
}

/// The label `type_of(x)` lowers to: the type of `x`, trimmed, or
/// `Unknown` when there is none.
pub open spec fn type_of_label(ty: Seq<char>) -> Seq<char> {
    let t = trim(ty);
    if t.len() == 0 || t == "Unknown"@ {
        "Unknown"@
    } else {
        t
    }
}

/// A type name that names a declared type: known, and starting with an
/// ASCII capital.
pub open spec fn names_declared_type(ty: Seq<char>) -> bool {
    ty.len() != 0 && ty != "Unknown"@ && 'A' <= ty[0] && ty[0] <= 'Z'
}

/// The callee is called through a closure value: it has a function type
/// and is not a plain call of a global function (a parameter or local of
/// that name shadows the global).
pub open spec fn needs_closure_call(
    callee: HirExpr,
    globals: Seq<Seq<char>>,
    params: Seq<Seq<char>>,
    locals: Seq<Seq<char>>,
) -> bool {
    starts_with(without_whitespace(callee.ty@), "fn("@) && match callee.kind {
        HirExprKind::Ident(n) => params.contains(n@) || locals.contains(n@) || !globals.contains(n@),
        _ => true,
    }
}

/// The callee is the identifier `name`.
pub open spec fn is_ident(e: HirExpr, name: Seq<char>) -> bool {
    match e.kind {
        HirExprKind::Ident(n) => n@ == name,
        _ => false,
    }
}

/// The first error of lowering an expression, its parts in source order:
/// a closure call whose function type does not parse, or `type_of` without
/// exactly one argument.
pub open spec fn lower_error(
    e: HirExpr,
    g: Seq<Seq<char>>,
    p: Seq<Seq<char>>,
    l: Seq<Seq<char>>,
) -> Option<Seq<char>>
    decreases e, 1int,
{
    match e.kind {
        HirExprKind::List(items) => lower_errors(items@, g, p, l),
        HirExprKind::MapLit(entries) => pair_errors(entries@, g, p, l),
        HirExprKind::Member { object, field: _ } => lower_error(*object, g, p, l),
        HirExprKind::Call { callee: _, args: _ } => call_error(e, g, p, l),
        HirExprKind::Binary { left, op: _, right } => first_error(
            lower_error(*left, g, p, l),
            lower_error(*right, g, p, l),
        ),
        HirExprKind::Unary { op: _, expr } => lower_error(*expr, g, p, l),
        HirExprKind::Question { expr } => lower_error(*expr, g, p, l),
        HirExprKind::Old { expr } => lower_error(*expr, g, p, l),
        _ => None,
    }
}

pub open spec fn lower_errors(
    s: Seq<HirExpr>,
    g: Seq<Seq<char>>,
    p: Seq<Seq<char>>,
    l: Seq<Seq<char>>,
) -> Option<Seq<char>>
    decreases s, 0int,
{
    if s.len() == 0 {
        None
    } else {
        first_error(lower_error(s[0], g, p, l), lower_errors(s.subrange(1, s.len() as int), g, p, l))
    }
}

pub open spec fn pair_errors(
    s: Seq<(HirExpr, HirExpr)>,
    g: Seq<Seq<char>>,
    p: Seq<Seq<char>>,
    l: Seq<Seq<char>>,
) -> Option<Seq<char>>
    decreases s, 0int,
{
    if s.len() == 0 {
        None
    } else {
        first_error(
            first_error(lower_error(s[0].0, g, p, l), lower_error(s[0].1, g, p, l)),
            pair_errors(s.subrange(1, s.len() as int), g, p, l),
        )
    }
}

/// `r` is `e` lowered (when lowering `e` meets no error): identifiers
/// become variables, literals stay, operators take their names, member
/// accesses record the object's named type, and calls become closure
/// calls, `type_of` labels, `ok`/`err` results, or plain calls (with
/// `json.encode`/`json.decode` specialized to the argument's declared
/// type).
pub open spec fn lowers_to(
    e: HirExpr,
    r: MirExpr,
    g: Seq<Seq<char>>,
    p: Seq<Seq<char>>,
    l: Seq<Seq<char>>,
) -> bool
    decreases e, 1int,
{
    match e.kind {
        HirExprKind::Ident(n) => r matches MirExpr::Var(s) && s@ == n@,
        HirExprKind::Int(v) => r == MirExpr::Int(v),
        HirExprKind::Float(v) => r == MirExpr::Float(v),
        HirExprKind::Bool(v) => r == MirExpr::Bool(v),
        HirExprKind::String(v) => r matches MirExpr::Str(s) && s@ == v@,
        HirExprKind::List(items) => r matches MirExpr::List(ri) && all_lower(items@, ri@, g, p, l),
        HirExprKind::MapLit(entries) => r matches MirExpr::MapLit(re) && pairs_lower(
            entries@,
            re@,
            g,
            p,
            l,
        ),
        HirExprKind::Member { object, field } => match r {
            MirExpr::Member { object: o2, field: f2, object_type: t2 } => {
                &&& f2@ == field@
                &&& match (t2, member_object_type(object.ty@)) {
                    (Some(a), Some(b)) => a@ == b,
                    (None, None) => true,
                    _ => false,
                }
                &&& lowers_to(*object, *o2, g, p, l)
            },
            _ => false,
        },
        HirExprKind::Call { callee: _, args: _ } => call_lowers_to(e, r, g, p, l),
        HirExprKind::Binary { left, op, right } => match r {
            MirExpr::Binary { left: l2, op: o2, right: r2 } => o2@ == binary_op_name(op) && lowers_to(
                *left,
                *l2,
                g,
                p,
                l,
            ) && lowers_to(*right, *r2, g, p, l),
            _ => false,
        },
        HirExprKind::Unary { op, expr } => match r {
            MirExpr::Unary { op: o2, expr: e2 } => o2@ == unary_op_name(op) && lowers_to(
                *expr,
                *e2,
                g,
                p,
                l,
            ),
            _ => false,
        },
        HirExprKind::Question { expr } => r matches MirExpr::Question { expr: e2 } && lowers_to(
            *expr,
            *e2,
            g,
            p,
            l,
        ),
        HirExprKind::DotResult => r == MirExpr::DotResult,
        HirExprKind::Old { expr } => r matches MirExpr::Old { expr: e2 } && lowers_to(*expr, *e2, g, p, l),
    }
}

/// The first error of lowering a call.
pub open spec fn call_error(
    e: HirExpr,
    g: Seq<Seq<char>>,
    p: Seq<Seq<char>>,
    l: Seq<Seq<char>>,
) -> Option<Seq<char>>
    decreases e, 0int,
{
    match e.kind {
        HirExprKind::Call { callee, args } => if needs_closure_call(*callee, g, p, l) {
            if parse_fn_mir_sig_spec(callee.ty@) is None {
                Some("could not parse function type `"@ + callee.ty@ + "` for closure call"@)
            } else {
                first_error(lower_error(*callee, g, p, l), lower_errors(args@, g, p, l))
            }
        } else if is_ident(*callee, "type_of"@) {
            if args@.len() != 1 {
                Some("`type_of` expects exactly one argument"@)
            } else {
                None
            }
        } else {
            first_error(lower_error(*callee, g, p, l), lower_errors(args@, g, p, l))
        },
        _ => None,
    }
}

/// `r` is the call `e` lowered.
pub open spec fn call_lowers_to(
    e: HirExpr,
    r: MirExpr,
    g: Seq<Seq<char>>,
    p: Seq<Seq<char>>,
    l: Seq<Seq<char>>,
) -> bool
    decreases e, 0int,
{
    match e.kind {
        HirExprKind::Call { callee, args } => if needs_closure_call(*callee, g, p, l) {
            match r {
                MirExpr::ClosureCall { closure, args: a2, user_param_tys, ret_ty } => {
                    &&& lowers_to(*callee, *closure, g, p, l)
                    &&& all_lower(args@, a2@, g, p, l)
                    &&& parse_fn_mir_sig_spec(callee.ty@) == Some((user_param_tys@, ret_ty))
                },
                _ => false,
            }
        } else if is_ident(*callee, "type_of"@) {
            r matches MirExpr::Str(s) && args@.len() == 1 && s@ == type_of_label(args@[0].ty@)
        } else if is_ident(*callee, "ok"@) && args@.len() == 1 {
            r matches MirExpr::ResultOk { expr } && lowers_to(args@[0], *expr, g, p, l)
        } else if is_ident(*callee, "err"@) && args@.len() == 1 {
            r matches MirExpr::ResultErr { expr } && lowers_to(args@[0], *expr, g, p, l)
        } else {
            match r {
                MirExpr::Call { callee: c2, args: a2 } => callee_lowers_to(*callee, args@, *c2, g, p, l)
                    && all_lower(args@, a2@, g, p, l),
                _ => false,
            }
        },
        _ => false,
    }
}

/// The field a `json.encode`/`json.decode` call is specialized to.
pub open spec fn json_field(field: Seq<char>, args: Seq<HirExpr>) -> Seq<char> {
    if field == "encode"@ && args.len() == 1 && names_declared_type(args[0].ty@) {
        "encode_"@ + args[0].ty@
    } else if field == "decode"@ && args.len() == 2 && names_declared_type(args[1].ty@) {
        "decode_"@ + args[1].ty@
    } else {
        field
    }
}

/// `c2` is the lowered callee of a plain call with arguments `args`.
pub open spec fn callee_lowers_to(
    callee: HirExpr,
    args: Seq<HirExpr>,
    c2: MirExpr,
    g: Seq<Seq<char>>,
    p: Seq<Seq<char>>,
    l: Seq<Seq<char>>,
) -> bool
    decreases callee, 2int,
{
    match callee.kind {
        HirExprKind::Member { object, field } => match object.kind {
            HirExprKind::Ident(ns) => if ns@ == "json"@ {
                match c2 {
                    MirExpr::Member { object: o2, field: f2, object_type: t2 } => {
                        &&& f2@ == json_field(field@, args)
                        &&& match (t2, member_object_type(object.ty@)) {
                            (Some(a), Some(b)) => a@ == b,
                            (None, None) => true,
                            _ => false,
                        }
                        &&& lowers_to(*object, *o2, g, p, l)
                    },
                    _ => false,
                }
            } else {
                lowers_to(callee, c2, g, p, l)
            },
            _ => lowers_to(callee, c2, g, p, l),
        },
        _ => lowers_to(callee, c2, g, p, l),
    }
}

pub open spec fn all_lower(
    s: Seq<HirExpr>,
    r: Seq<MirExpr>,
    g: Seq<Seq<char>>,
    p: Seq<Seq<char>>,
    l: Seq<Seq<char>>,
) -> bool
    decreases s, 0int,
{
    if s.len() == 0 {
        r.len() == 0
    } else {
        r.len() > 0 && lowers_to(s[0], r[0], g, p, l) && all_lower(
            s.subrange(1, s.len() as int),
            r.subrange(1, r.len() as int),
            g,
            p,
            l,
        )
    }
}

pub open spec fn pairs_lower(
    s: Seq<(HirExpr, HirExpr)>,
    r: Seq<(MirExpr, MirExpr)>,
    g: Seq<Seq<char>>,
    p: Seq<Seq<char>>,
    l: Seq<Seq<char>>,
) -> bool
    decreases s, 0int,
{
    if s.len() == 0 {
        r.len() == 0
    } else {
        r.len() > 0 && lowers_to(s[0].0, r[0].0, g, p, l) && lowers_to(s[0].1, r[0].1, g, p, l)
            && pairs_lower(s.subrange(1, s.len() as int), r.subrange(1, r.len() as int), g, p, l)
    }
}

/// The operator a name stands for, read back.
pub open spec fn binary_op_of_name(s: Seq<char>) -> Option<BinaryOp> {
    if s == "Add"@ {
        Some(BinaryOp::Add)
    } else if s == "Sub"@ {
        Some(BinaryOp::Sub)
    } else if s == "Mul"@ {
        Some(BinaryOp::Mul)
    } else if s == "Div"@ {
        Some(BinaryOp::Div)
    } else if s == "Mod"@ {
        Some(BinaryOp::Mod)
    } else if s == "Eq"@ {
        Some(BinaryOp::Eq)
    } else if s == "Ne"@ {
        Some(BinaryOp::Ne)
    } else if s == "Lt"@ {
        Some(BinaryOp::Lt)
    } else if s == "Le"@ {
        Some(BinaryOp::Le)
    } else if s == "Gt"@ {
        Some(BinaryOp::Gt)
    } else if s == "Ge"@ {
        Some(BinaryOp::Ge)
    } else if s == "And"@ {
        Some(BinaryOp::And)
    } else if s == "Or"@ {
        Some(BinaryOp::Or)
    } else if s == "BitAnd"@ {
        Some(BinaryOp::BitAnd)
    } else if s == "BitOr"@ {
        Some(BinaryOp::BitOr)
    } else if s == "BitXor"@ {
        Some(BinaryOp::BitXor)
    } else if s == "Shl"@ {
        Some(BinaryOp::Shl)
    } else if s == "Shr"@ {
        Some(BinaryOp::Shr)
    } else {
        None
    }
}

/// Lowering names each binary operator by its own name, which reads back
/// as that operator: no two operators share a name, so the mid-level
/// operator is the source one.
pub proof fn lemma_binary_op_names_distinct(a: BinaryOp, b: BinaryOp)
    ensures
        binary_op_of_name(binary_op_name(a)) == Some(a),
        binary_op_name(a) == binary_op_name(b) ==> a == b,
{
    reveal_strlit("Add");
    reveal_strlit("Sub");
    reveal_strlit("Mul");
    reveal_strlit("Div");
    reveal_strlit("Mod");
    reveal_strlit("Eq");
    reveal_strlit("Ne");
    reveal_strlit("Lt");
    reveal_strlit("Le");
    reveal_strlit("Gt");
    reveal_strlit("Ge");
    reveal_strlit("And");
    reveal_strlit("Or");
    reveal_strlit("BitAnd");
    reveal_strlit("BitOr");
    reveal_strlit("BitXor");
    reveal_strlit("Shl");
    reveal_strlit("Shr");
    assert("Add"@.len() == 3 && "Sub"@.len() == 3 && "Mul"@.len() == 3 && "Div"@.len() == 3
        && "Mod"@.len() == 3 && "And"@.len() == 3 && "Shl"@.len() == 3 && "Shr"@.len() == 3);
    assert("Eq"@.len() == 2 && "Ne"@.len() == 2 && "Lt"@.len() == 2 && "Le"@.len() == 2
        && "Gt"@.len() == 2 && "Ge"@.len() == 2 && "Or"@.len() == 2);
    assert("BitAnd"@.len() == 6 && "BitOr"@.len() == 5 && "BitXor"@.len() == 6);
    assert("Add"@[0] == 'A' && "Sub"@[0] == 'S' && "Mul"@[0] == 'M' && "Div"@[0] == 'D'
        && "Mod"@[0] == 'M' && "And"@[0] == 'A' && "Shl"@[0] == 'S' && "Shr"@[0] == 'S');
    assert("Mul"@[1] == 'u' && "Mod"@[1] == 'o' && "Add"@[1] == 'd' && "And"@[1] == 'n'
        && "Sub"@[1] == 'u' && "Shl"@[1] == 'h' && "Shr"@[2] == 'r' && "Shl"@[2] == 'l');
    assert("Eq"@[0] == 'E' && "Ne"@[0] == 'N' && "Lt"@[0] == 'L' && "Le"@[0] == 'L'
        && "Gt"@[0] == 'G' && "Ge"@[0] == 'G' && "Or"@[0] == 'O');
    assert("Lt"@[1] == 't' && "Le"@[1] == 'e' && "Gt"@[1] == 't' && "Ge"@[1] == 'e');
    assert("BitAnd"@[3] == 'A' && "BitXor"@[3] == 'X');
}

/// The two unary operators keep distinct names through lowering.
pub proof fn lemma_unary_op_names_distinct(a: UnaryOp, b: UnaryOp)
    ensures
        unary_op_name(a) == unary_op_name(b) ==> a == b,
{
    reveal_strlit("Neg");
    reveal_strlit("Not");
    assert("Neg"@[1] == 'e' && "Not"@[1] == 'o');
}

/// Lowering keeps what a binary operator on two integer literals means:
/// the lowered expression, folded, is 1 where a comparison holds and 0
/// where it does not, and the sum, difference or product where it fits.
pub proof fn lemma_lowered_literal_operator_folds_to_its_value(
    e: HirExpr,
    x: i64,
    y: i64,
    m: MirExpr,
    f: MirExpr,
    g: Seq<Seq<char>>,
    p: Seq<Seq<char>>,
    l: Seq<Seq<char>>,
)
    requires
        e.kind matches HirExprKind::Binary { left, op: _, right } && left.kind == HirExprKind::Int(x)
            && right.kind == HirExprKind::Int(y),
        lowers_to(e, m, g, p, l),
        crate::mir::optimize::fold_ok(m, f),
    ensures
        e.kind matches HirExprKind::Binary { left: _, op, right: _ } && {
            &&& op == BinaryOp::Lt ==> (f == MirExpr::Int(1) <==> x < y) && (f == MirExpr::Int(0) <==> !(x < y))
            &&& op == BinaryOp::Le ==> (f == MirExpr::Int(1) <==> x <= y) && (f == MirExpr::Int(0) <==> !(x <= y))
            &&& op == BinaryOp::Gt ==> (f == MirExpr::Int(1) <==> x > y) && (f == MirExpr::Int(0) <==> !(x > y))
            &&& op == BinaryOp::Ge ==> (f == MirExpr::Int(1) <==> x >= y) && (f == MirExpr::Int(0) <==> !(x >= y))
            &&& op == BinaryOp::Eq ==> (f == MirExpr::Int(1) <==> x == y) && (f == MirExpr::Int(0) <==> x != y)
            &&& op == BinaryOp::Ne ==> (f == MirExpr::Int(1) <==> x != y) && (f == MirExpr::Int(0) <==> x == y)
            &&& op == BinaryOp::Add && i64::MIN <= x + y <= i64::MAX ==> f == MirExpr::Int((x + y) as i64)
            &&& op == BinaryOp::Sub && i64::MIN <= x - y <= i64::MAX ==> f == MirExpr::Int((x - y) as i64)
            &&& op == BinaryOp::Mul && i64::MIN <= x * y <= i64::MAX ==> f == MirExpr::Int((x * y) as i64)
        },
{
    if let HirExprKind::Binary { left, op, right } = e.kind {
        if let MirExpr::Binary { left: l2, op: o2, right: r2 } = m {
            assert(lowers_to(*left, *l2, g, p, l) && lowers_to(*right, *r2, g, p, l));
            assert(*l2 == MirExpr::Int(x));
            assert(*r2 == MirExpr::Int(y));
            assert(m == MirExpr::Binary { left: Box::new(MirExpr::Int(x)), op: o2, right: Box::new(MirExpr::Int(y)) });
            crate::mir::optimize::lemma_fold_computes_literal_operators(x, y, o2, f);
        }
    }
}

fn binary_op_name_exec(op: BinaryOp) -> (r: String)
    ensures
        r@ == binary_op_name(op),
{
    match op {
        BinaryOp::Add => to_owned_string("Add"),
        BinaryOp::Sub => to_owned_string("Sub"),
        BinaryOp::Mul => to_owned_string("Mul"),
        BinaryOp::Div => to_owned_string("Div"),
        BinaryOp::Mod => to_owned_string("Mod"),
        BinaryOp::Eq => to_owned_string("Eq"),
        BinaryOp::Ne => to_owned_string("Ne"),
        BinaryOp::Lt => to_owned_string("Lt"),
        BinaryOp::Le => to_owned_string("Le"),
        BinaryOp::Gt => to_owned_string("Gt"),
        BinaryOp::Ge => to_owned_string("Ge"),
        BinaryOp::And => to_owned_string("And"),
        BinaryOp::Or => to_owned_string("Or"),
        BinaryOp::BitAnd => to_owned_string("BitAnd"),
        BinaryOp::BitOr => to_owned_string("BitOr"),
        BinaryOp::BitXor => to_owned_string("BitXor"),
        BinaryOp::Shl => to_owned_string("Shl"),
        BinaryOp::Shr => to_owned_string("Shr"),
    }
}

fn unary_op_name_exec(op: UnaryOp) -> (r: String)
    ensures
        r@ == unary_op_name(op),
{
    match op {
        UnaryOp::Neg => to_owned_string("Neg"),
        UnaryOp::Not => to_owned_string("Not"),
    }
}

fn starts_with_text(s: &str, p: &str) -> (r: bool)
    ensures
        r == starts_with(s@, p@),
{
    let cs = chars_of(s);
    crate::mir::starts_with_str(cs.as_slice(), p)
}

fn member_object_type_exec(ty: &str) -> (r: Option<String>)
    ensures
        match (r, member_object_type(ty@)) {
            (Some(a), Some(b)) => a@ == b,
            (None, None) => true,
            _ => false,
        },
{
    let cs = chars_of(ty);
    if cs.len() != 0 && !str_eq(ty, "Int") && !str_eq(ty, "Float") && !str_eq(ty, "Bool") && !str_eq(
        ty,
        "Str",
    ) && !starts_with_text(ty, "List") && !starts_with_text(ty, "Map") {
        Some(to_owned_string(ty))
    } else {
        None
    }
}

fn type_of_label_exec(ty: &str) -> (r: String)
    ensures
        r@ == type_of_label(ty@),
{
    let cs = chars_of(ty);
    let t = trim_chars_pub(cs.as_slice());
    let ts = string_of(t.as_slice());
    if t.len() == 0 || str_eq(ts.as_str(), "Unknown") {
        to_owned_string("Unknown")
    } else {
        ts
    }
}

fn names_declared_type_exec(ty: &str) -> (r: bool)
    ensures
        r == names_declared_type(ty@),
{
    let cs = chars_of(ty);
    cs.len() != 0 && !str_eq(ty, "Unknown") && 'A' <= cs[0] && cs[0] <= 'Z'
}

fn is_ident_exec(e: &HirExpr, name: &str) -> (r: bool)
    ensures
        r == is_ident(*e, name@),
{
    match &e.kind {
        HirExprKind::Ident(n) => str_eq(n.as_str(), name),
        _ => false,
    }
}

fn needs_closure_call_exec(
    callee: &HirExpr,
    globals: &Vec<String>,
    params: &Vec<String>,
    locals: &Vec<String>,
) -> (r: bool)
    ensures
        r == needs_closure_call(*callee, views(globals@), views(params@), views(locals@)),
{
    if !hir_expr_is_fn_type(callee.ty.as_str()) {
        return false;
    }
    match &callee.kind {
        HirExprKind::Ident(n) => crate::hir::contains_name(params, n.as_str())
            || crate::hir::contains_name(locals, n.as_str()) || !crate::hir::contains_name(
            globals,
            n.as_str(),
        ),
        _ => true,
    }
}

fn json_field_exec(field: &str, args: &Vec<HirExpr>) -> (r: String)
    ensures
        r@ == json_field(field@, args@),
{
    if str_eq(field, "encode") && args.len() == 1 && names_declared_type_exec(args[0].ty.as_str()) {
        let mut f = to_owned_string("encode_");
        push_str(&mut f, args[0].ty.as_str());
        f
    } else if str_eq(field, "decode") && args.len() == 2 && names_declared_type_exec(
        args[1].ty.as_str(),
    ) {
        let mut f = to_owned_string("decode_");
        push_str(&mut f, args[1].ty.as_str());
        f
    } else {
        to_owned_string(field)
    }
}

proof fn lemma_all_lower_push(
    a: Seq<HirExpr>,
    ra: Seq<MirExpr>,
    x: HirExpr,
    rx: MirExpr,
    g: Seq<Seq<char>>,
    p: Seq<Seq<char>>,
    l: Seq<Seq<char>>,
)
    requires
        all_lower(a, ra, g, p, l),
        lowers_to(x, rx, g, p, l),
    ensures
        all_lower(a.push(x), ra.push(rx), g, p, l),
    decreases a.len(),
{
    assert(a.push(x).len() > 0);
    if a.len() == 0 {
        assert(ra.len() == 0);
        assert(a.push(x)[0] == x);
        assert(ra.push(rx)[0] == rx);
        assert(a.push(x).subrange(1, 1) =~= Seq::<HirExpr>::empty());
        assert(ra.push(rx).subrange(1, 1) =~= Seq::<MirExpr>::empty());
    } else {
        assert(a.push(x)[0] == a[0]);
        assert(ra.push(rx)[0] == ra[0]);
        lemma_all_lower_push(a.subrange(1, a.len() as int), ra.subrange(1, ra.len() as int), x, rx, g, p, l);
        assert(a.push(x).subrange(1, a.len() as int + 1) =~= a.subrange(1, a.len() as int).push(x));
        assert(ra.push(rx).subrange(1, ra.len() as int + 1) =~= ra.subrange(1, ra.len() as int).push(rx));
    }
    assert(all_lower(
        a.push(x).subrange(1, a.push(x).len() as int),
        ra.push(rx).subrange(1, ra.push(rx).len() as int),
        g,
        p,
        l,
    ));
}

proof fn lemma_pairs_lower_push(
    a: Seq<(HirExpr, HirExpr)>,
    ra: Seq<(MirExpr, MirExpr)>,
    x: (HirExpr, HirExpr),
    rx: (MirExpr, MirExpr),
    g: Seq<Seq<char>>,
    p: Seq<Seq<char>>,
    l: Seq<Seq<char>>,
)
    requires
        pairs_lower(a, ra, g, p, l),
        lowers_to(x.0, rx.0, g, p, l),
        lowers_to(x.1, rx.1, g, p, l),
    ensures
        pairs_lower(a.push(x), ra.push(rx), g, p, l),
    decreases a.len(),
{
    if a.len() == 0 {
        assert(ra.len() == 0);
        assert(a.push(x)[0] == x);
        assert(ra.push(rx)[0] == rx);
        assert(a.push(x).subrange(1, 1) =~= Seq::<(HirExpr, HirExpr)>::empty());
        assert(ra.push(rx).subrange(1, 1) =~= Seq::<(MirExpr, MirExpr)>::empty());
    } else {
        assert(a.push(x)[0] == a[0]);
        assert(ra.push(rx)[0] == ra[0]);
        lemma_pairs_lower_push(a.subrange(1, a.len() as int), ra.subrange(1, ra.len() as int), x, rx, g, p, l);
        assert(a.push(x).subrange(1, a.len() as int + 1) =~= a.subrange(1, a.len() as int).push(x));
        assert(ra.push(rx).subrange(1, ra.len() as int + 1) =~= ra.subrange(1, ra.len() as int).push(rx));
    }
    assert(pairs_lower(
        a.push(x).subrange(1, a.push(x).len() as int),
        ra.push(rx).subrange(1, ra.push(rx).len() as int),
        g,
        p,
        l,
    ));
}

fn lower_all(
    items: &Vec<HirExpr>,
    globals: &Vec<String>,
    params: &Vec<String>,
    locals: &Vec<String>,
) -> (r: Result<Vec<MirExpr>, String>)
    ensures
        match r {
            Ok(v) => lower_errors(items@, views(globals@), views(params@), views(locals@)).is_none()
                && all_lower(items@, v@, views(globals@), views(params@), views(locals@)),
            Err(e) => lower_errors(items@, views(globals@), views(params@), views(locals@)) == Some(e@),
        },
    decreases items, 0int,
{
    let ghost (g, p, l) = (views(globals@), views(params@), views(locals@));
    let ghost s = items@;
    let mut out: Vec<MirExpr> = Vec::new();
    let mut i: usize = 0;
    assert(s.subrange(0, s.len() as int) =~= s);
    assert(s.take(0) =~= Seq::<HirExpr>::empty());
    while i < items.len()
        invariant
            s == items@,
            g == views(globals@),
            p == views(params@),
            l == views(locals@),
            i <= s.len(),
            lower_errors(s, g, p, l) == lower_errors(s.subrange(i as int, s.len() as int), g, p, l),
            all_lower(s.take(i as int), out@, g, p, l),
        decreases items.len() - i,
    {
        let ghost t = s.subrange(i as int, s.len() as int);
        assert(t[0] == s[i as int]);
        assert(t.subrange(1, t.len() as int) =~= s.subrange(i + 1, s.len() as int));
        match lower_expr(&items[i], globals, params, locals) {
            Ok(m) => {
                proof {
                    lemma_all_lower_push(s.take(i as int), out@, s[i as int], m, g, p, l);
                    assert(s.take(i as int).push(s[i as int]) =~= s.take(i + 1));
                }
                out.push(m);
            },
            Err(e) => {
                return Err(e);
            },
        }
        i = i + 1;
    }
    assert(s.take(s.len() as int) =~= s);
    Ok(out)
}

fn lower_pairs(
    items: &Vec<(HirExpr, HirExpr)>,
    globals: &Vec<String>,
    params: &Vec<String>,
    locals: &Vec<String>,
) -> (r: Result<Vec<(MirExpr, MirExpr)>, String>)
    ensures
        match r {
            Ok(v) => pair_errors(items@, views(globals@), views(params@), views(locals@)).is_none()
                && pairs_lower(items@, v@, views(globals@), views(params@), views(locals@)),
            Err(e) => pair_errors(items@, views(globals@), views(params@), views(locals@)) == Some(e@),
        },
    decreases items, 0int,
{
    let ghost (g, p, l) = (views(globals@), views(params@), views(locals@));
    let ghost s = items@;
    let mut out: Vec<(MirExpr, MirExpr)> = Vec::new();
    let mut i: usize = 0;
    assert(s.subrange(0, s.len() as int) =~= s);
    assert(s.take(0) =~= Seq::<(HirExpr, HirExpr)>::empty());
    while i < items.len()
        invariant
            s == items@,
            g == views(globals@),
            p == views(params@),
            l == views(locals@),
            i <= s.len(),
            pair_errors(s, g, p, l) == pair_errors(s.subrange(i as int, s.len() as int), g, p, l),
            pairs_lower(s.take(i as int), out@, g, p, l),
        decreases items.len() - i,
    {
        let ghost t = s.subrange(i as int, s.len() as int);
        assert(t[0] == s[i as int]);
        assert(t.subrange(1, t.len() as int) =~= s.subrange(i + 1, s.len() as int));
        let k = match lower_expr(&items[i].0, globals, params, locals) {
            Ok(m) => m,
            Err(e) => {
                return Err(e);
            },
        };
        let v = match lower_expr(&items[i].1, globals, params, locals) {
            Ok(m) => m,
            Err(e) => {
                return Err(e);
            },
        };
        proof {
            lemma_pairs_lower_push(s.take(i as int), out@, s[i as int], (k, v), g, p, l);
            assert(s.take(i as int).push(s[i as int]) =~= s.take(i + 1));
        }
        out.push((k, v));
        i = i + 1;
    }
    assert(s.take(s.len() as int) =~= s);
    Ok(out)
}

/// Lowers an expression of the typed representation to the mid-level one
/// (see `lowers_to`), or gives the first error (see `lower_error`).
/// `globals` are the program's functions, `params` and `locals` the names
/// bound in the function being lowered.
pub fn lower_expr(
    expr: &HirExpr,
    globals: &Vec<String>,
    params: &Vec<String>,
    locals: &Vec<String>,
) -> (r: Result<MirExpr, String>)
    ensures
        match r {
            Ok(m) => lower_error(*expr, views(globals@), views(params@), views(locals@)).is_none()
                && lowers_to(*expr, m, views(globals@), views(params@), views(locals@)),
            Err(e) => lower_error(*expr, views(globals@), views(params@), views(locals@)) == Some(e@),
        },
    decreases expr, 1int,
{
    match &expr.kind {
        HirExprKind::Ident(n) => Ok(MirExpr::Var(to_owned_string(n.as_str()))),
        HirExprKind::Int(v) => Ok(MirExpr::Int(*v)),
        HirExprKind::Float(v) => Ok(MirExpr::Float(*v)),
        HirExprKind::Bool(v) => Ok(MirExpr::Bool(*v)),
        HirExprKind::String(v) => Ok(MirExpr::Str(to_owned_string(v.as_str()))),
        HirExprKind::List(items) => match lower_all(items, globals, params, locals) {
            Ok(v) => Ok(MirExpr::List(v)),
            Err(e) => Err(e),
        },
        HirExprKind::MapLit(entries) => match lower_pairs(entries, globals, params, locals) {
            Ok(v) => Ok(MirExpr::MapLit(v)),
            Err(e) => Err(e),
        },
        HirExprKind::Member { object, field } => {
            let ot = member_object_type_exec(object.ty.as_str());
            match lower_expr(object, globals, params, locals) {
                Ok(o) => Ok(
                    MirExpr::Member {
                        object: Box::new(o),
                        field: to_owned_string(field.as_str()),
                        object_type: ot,
                    },
                ),
                Err(e) => Err(e),
            }
        },
        HirExprKind::Call { callee: _, args: _ } => lower_call(expr, globals, params, locals),
        HirExprKind::Binary { left, op, right } => {
            let l = match lower_expr(left, globals, params, locals) {
                Ok(m) => m,
                Err(e) => {
                    return Err(e);
                },
            };
            let r = match lower_expr(right, globals, params, locals) {
                Ok(m) => m,
                Err(e) => {
                    return Err(e);
                },
            };
            Ok(MirExpr::Binary { left: Box::new(l), op: binary_op_name_exec(*op), right: Box::new(r) })
        },
        HirExprKind::Unary { op, expr } => match lower_expr(expr, globals, params, locals) {
            Ok(m) => Ok(MirExpr::Unary { op: unary_op_name_exec(*op), expr: Box::new(m) }),
            Err(e) => Err(e),
        },
        HirExprKind::Question { expr } => match lower_expr(expr, globals, params, locals) {
            Ok(m) => Ok(MirExpr::Question { expr: Box::new(m) }),
            Err(e) => Err(e),
        },
        HirExprKind::DotResult => Ok(MirExpr::DotResult),
        HirExprKind::Old { expr } => match lower_expr(expr, globals, params, locals) {
            Ok(m) => Ok(MirExpr::Old { expr: Box::new(m) }),
            Err(e) => Err(e),
        },
    }
}

fn lower_call(
    expr: &HirExpr,
    globals: &Vec<String>,
    params: &Vec<String>,
    locals: &Vec<String>,
) -> (r: Result<MirExpr, String>)
    requires
        expr.kind is Call,
    ensures
        match r {
            Ok(m) => call_error(*expr, views(globals@), views(params@), views(locals@)).is_none()
                && call_lowers_to(*expr, m, views(globals@), views(params@), views(locals@)),
            Err(e) => call_error(*expr, views(globals@), views(params@), views(locals@)) == Some(e@),
        },
    decreases expr, 0int,
{
    let (callee, args) = match &expr.kind {
        HirExprKind::Call { callee, args } => (callee, args),
        _ => {
            return Err(String::new());
        },
    };
    if needs_closure_call_exec(callee, globals, params, locals) {
        let sig = parse_fn_mir_sig(callee.ty.as_str());
        let (user_param_tys, ret_ty) = match sig {
            Some(t) => t,
            None => {
                let mut msg = to_owned_string("could not parse function type `");
                push_str(&mut msg, callee.ty.as_str());
                push_str(&mut msg, "` for closure call");
                return Err(msg);
            },
        };
        let c = match lower_expr(callee, globals, params, locals) {
            Ok(m) => m,
            Err(e) => {
                return Err(e);
            },
        };
        let a = match lower_all(args, globals, params, locals) {
            Ok(v) => v,
            Err(e) => {
                return Err(e);
            },
        };
        return Ok(MirExpr::ClosureCall { closure: Box::new(c), args: a, user_param_tys, ret_ty });
    }
    if is_ident_exec(callee, "type_of") {
        if args.len() != 1 {
            return Err(to_owned_string("`type_of` expects exactly one argument"));
        }
        return Ok(MirExpr::Str(type_of_label_exec(args[0].ty.as_str())));
    }
    let lowered_callee = match &callee.kind {
        HirExprKind::Member { object, field } => match &object.kind {
            HirExprKind::Ident(ns) => {
                if str_eq(ns.as_str(), "json") {
                    let ot = member_object_type_exec(object.ty.as_str());
                    match lower_expr(object, globals, params, locals) {
                        Ok(o) => MirExpr::Member {
                            object: Box::new(o),
                            field: json_field_exec(field.as_str(), args),
                            object_type: ot,
                        },
                        Err(e) => {
                            return Err(e);
                        },
                    }
                } else {
                    match lower_expr(callee, globals, params, locals) {
                        Ok(m) => m,
                        Err(e) => {
                            return Err(e);
                        },
                    }
                }
            },
            _ => match lower_expr(callee, globals, params, locals) {
                Ok(m) => m,
                Err(e) => {
                    return Err(e);
                },
            },
        },
        _ => match lower_expr(callee, globals, params, locals) {
            Ok(m) => m,
            Err(e) => {
                return Err(e);
            },
        },
    };
    if (is_ident_exec(callee, "ok") || is_ident_exec(callee, "err")) && args.len() == 1 {
        let inner = match lower_expr(&args[0], globals, params, locals) {
            Ok(m) => m,
            Err(e) => {
                return Err(e);
            },
        };
        assert(args@.subrange(1, 1) =~= Seq::<HirExpr>::empty());
        assert(lower_errors(
            args@.subrange(1, 1),
            views(globals@),
            views(params@),
            views(locals@),
        ).is_none());
        if is_ident_exec(callee, "ok") {
            return Ok(MirExpr::ResultOk { expr: Box::new(inner) });
        }
        return Ok(MirExpr::ResultErr { expr: Box::new(inner) });
    }
    match lower_all(args, globals, params, locals) {
        Ok(a) => Ok(MirExpr::Call { callee: Box::new(lowered_callee), args: a }),
        Err(e) => Err(e),
    }
}

/// The locals bound after lowering a statement with locals `l`: a binding
/// adds its name; the branches of an `if` and the bodies of `while` and
/// `repeat` add theirs; a `for` loop's variable and body bindings stay
/// inside it.
pub open spec fn stmt_locals(st: HirStmt, l: Seq<Seq<char>>) -> Seq<Seq<char>>
    decreases st, 1int,
{
    match st {
        HirStmt::Binding { name, expr: _ } => l.push(name@),
        HirStmt::If { cond: _, then_body, else_body } => stmts_locals(
            else_body@,
            stmts_locals(then_body@, l),
        ),
        HirStmt::While { cond: _, body } => stmts_locals(body@, l),
        HirStmt::Repeat { count: _, body } => stmts_locals(body@, l),
        _ => l,
    }
}

/// The locals bound after lowering a block with locals `l`.
pub open spec fn stmts_locals(s: Seq<HirStmt>, l: Seq<Seq<char>>) -> Seq<Seq<char>>
    decreases s, 0int,
{
    if s.len() == 0 {
        l
    } else {
        stmt_locals(s.last(), stmts_locals(s.drop_last(), l))
    }
}

/// The first error of lowering a statement with locals `l`.
pub open spec fn stmt_error(
    st: HirStmt,
    g: Seq<Seq<char>>,
    p: Seq<Seq<char>>,
    l: Seq<Seq<char>>,
) -> Option<Seq<char>>
    decreases st, 1int,
{
    match st {
        HirStmt::Binding { name: _, expr } => lower_error(expr, g, p, l),
        HirStmt::Assignment { target, expr } => match target.kind {
            HirExprKind::Ident(_) => lower_error(expr, g, p, l),
            _ => first_error(lower_error(target, g, p, l), lower_error(expr, g, p, l)),
        },
        HirStmt::Return { expr } => lower_error(expr, g, p, l),
        HirStmt::Expr { expr } => lower_error(expr, g, p, l),
        HirStmt::Go { expr } => lower_error(expr, g, p, l),
        HirStmt::For { var, iter, body } => first_error(
            lower_error(iter, g, p, l),
            stmts_error(body@, g, p, l.push(var@)),
        ),
        HirStmt::If { cond, then_body, else_body } => first_error(
            lower_error(cond, g, p, l),
            first_error(
                stmts_error(then_body@, g, p, l),
                stmts_error(else_body@, g, p, stmts_locals(then_body@, l)),
            ),
        ),
        HirStmt::While { cond, body } => first_error(lower_error(cond, g, p, l), stmts_error(body@, g, p, l)),
        HirStmt::Repeat { count, body } => first_error(
            lower_error(count, g, p, l),
            stmts_error(body@, g, p, l),
        ),
        HirStmt::Select { cases } => cases_lower_error(cases@, g, p, l),
    }
}

/// The first error of lowering a block with locals `l`.
pub open spec fn stmts_error(
    s: Seq<HirStmt>,
    g: Seq<Seq<char>>,
    p: Seq<Seq<char>>,
    l: Seq<Seq<char>>,
) -> Option<Seq<char>>
    decreases s, 0int,
{
    if s.len() == 0 {
        None
    } else {
        first_error(
            stmts_error(s.drop_last(), g, p, l),
            stmt_error(s.last(), g, p, stmts_locals(s.drop_last(), l)),
        )
    }
}

/// The first error of lowering the cases of a select.
pub open spec fn cases_lower_error(
    s: Seq<HirSelectCase>,
    g: Seq<Seq<char>>,
    p: Seq<Seq<char>>,
    l: Seq<Seq<char>>,
) -> Option<Seq<char>>
    decreases s, 0int,
{
    if s.len() == 0 {
        None
    } else {
        first_error(
            cases_lower_error(s.drop_last(), g, p, l),
            first_error(
                match s.last().pattern {
                    HirSelectPattern::Receive { binding: _, expr } => lower_error(expr, g, p, l),
                    _ => None,
                },
                lower_error(s.last().action, g, p, l),
            ),
        )
    }
}

/// `m` is the select case `c` lowered.
pub open spec fn case_lowers_to(
    c: HirSelectCase,
    m: MirSelectCase,
    g: Seq<Seq<char>>,
    p: Seq<Seq<char>>,
    l: Seq<Seq<char>>,
) -> bool {
    &&& lowers_to(c.action, m.action, g, p, l)
    &&& match (c.pattern, m.pattern) {
        (
            HirSelectPattern::Receive { binding, expr },
            MirSelectPattern::Receive { binding: b2, source },
        ) => b2@ == binding@ && lowers_to(expr, source, g, p, l),
        (
            HirSelectPattern::After { duration_literal },
            MirSelectPattern::After { duration_literal: d2 },
        ) => d2@ == duration_literal@,
        (HirSelectPattern::Closed { ident }, MirSelectPattern::Closed { ident: i2 }) => i2@ == ident@,
        (HirSelectPattern::Default, MirSelectPattern::Default) => true,
        _ => false,
    }
}

/// Each lowered case is the matching case lowered.
pub open spec fn cases_lower(
    s: Seq<HirSelectCase>,
    r: Seq<MirSelectCase>,
    g: Seq<Seq<char>>,
    p: Seq<Seq<char>>,
    l: Seq<Seq<char>>,
) -> bool {
    &&& r.len() == s.len()
    &&& forall|i: int| 0 <= i < s.len() ==> #[trigger] case_lowers_to(s[i], r[i], g, p, l)
}

/// `m` is the statement `st` lowered with locals `l`: bindings,
/// assignments to names, returns, expressions and `go` keep their form;
/// an assignment to anything else becomes a call of `__assign`; loops and
/// branches lower their parts (a `for` body sees the loop variable, and
/// its iteration kind comes from the iterated type).
pub open spec fn stmt_lowers(
    st: HirStmt,
    m: MirStmt,
    g: Seq<Seq<char>>,
    p: Seq<Seq<char>>,
    l: Seq<Seq<char>>,
) -> bool
    decreases st, 1int,
{
    match st {
        HirStmt::Binding { name, expr } => match m {
            MirStmt::Let { name: n2, expr: e2 } => n2@ == name@ && lowers_to(expr, e2, g, p, l),
            _ => false,
        },
        HirStmt::Assignment { target, expr } => match target.kind {
            HirExprKind::Ident(name) => match m {
                MirStmt::Assign { name: n2, expr: e2 } => n2@ == name@ && lowers_to(expr, e2, g, p, l),
                _ => false,
            },
            _ => match m {
                MirStmt::Expr(MirExpr::Call { callee, args }) => {
                    &&& *callee matches MirExpr::Var(f) && f@ == "__assign"@
                    &&& args@.len() == 2
                    &&& lowers_to(target, args@[0], g, p, l)
                    &&& lowers_to(expr, args@[1], g, p, l)
                },
                _ => false,
            },
        },
        HirStmt::Return { expr } => m matches MirStmt::Return(e2) && lowers_to(expr, e2, g, p, l),
        HirStmt::Expr { expr } => m matches MirStmt::Expr(e2) && lowers_to(expr, e2, g, p, l),
        HirStmt::Go { expr } => m matches MirStmt::Go(e2) && lowers_to(expr, e2, g, p, l),
        HirStmt::For { var, iter, body } => match m {
            MirStmt::For { var: v2, iter: i2, iter_kind, body: b2 } => {
                &&& v2@ == var@
                &&& lowers_to(iter, i2, g, p, l)
                &&& iter_kind == classify_for_iter_kind_spec(iter.ty@)
                &&& stmts_lower(body@, b2@, g, p, l.push(var@))
            },
            _ => false,
        },
        HirStmt::If { cond, then_body, else_body } => match m {
            MirStmt::If { cond: c2, then_body: t2, else_body: e2 } => {
                &&& lowers_to(cond, c2, g, p, l)
                &&& stmts_lower(then_body@, t2@, g, p, l)
                &&& stmts_lower(else_body@, e2@, g, p, stmts_locals(then_body@, l))
            },
            _ => false,
        },
        HirStmt::While { cond, body } => match m {
            MirStmt::While { cond: c2, body: b2 } => lowers_to(cond, c2, g, p, l) && stmts_lower(
                body@,
                b2@,
                g,
                p,
                l,
            ),
            _ => false,
        },
        HirStmt::Repeat { count, body } => match m {
            MirStmt::Repeat { count: c2, body: b2 } => lowers_to(count, c2, g, p, l) && stmts_lower(
                body@,
                b2@,
                g,
                p,
                l,
            ),
            _ => false,
        },
        HirStmt::Select { cases } => match m {
            MirStmt::Select { cases: c2 } => cases_lower(cases@, c2@, g, p, l),
            _ => false,
        },
    }
}

/// Each lowered statement is the matching statement lowered, with the
/// locals its predecessors bound.
pub open spec fn stmts_lower(
    s: Seq<HirStmt>,
    r: Seq<MirStmt>,
    g: Seq<Seq<char>>,
    p: Seq<Seq<char>>,
    l: Seq<Seq<char>>,
) -> bool
    decreases s, 0int,
{
    if s.len() == 0 {
        r.len() == 0
    } else {
        r.len() == s.len() && stmts_lower(s.drop_last(), r.drop_last(), g, p, l) && stmt_lowers(
            s.last(),
            r.last(),
            g,
            p,
            stmts_locals(s.drop_last(), l),
        )
    }
}

proof fn lemma_stmts_error_extends(
    s: Seq<HirStmt>,
    j: int,
    g: Seq<Seq<char>>,
    p: Seq<Seq<char>>,
    l: Seq<Seq<char>>,
)
    requires
        0 <= j <= s.len(),
        stmts_error(s.take(j), g, p, l) is Some,
    ensures
        stmts_error(s, g, p, l) == stmts_error(s.take(j), g, p, l),
    decreases s.len(),
{
    if j == s.len() {
        assert(s.take(j) =~= s);
    } else {
        assert(s.drop_last().take(j) =~= s.take(j));
        lemma_stmts_error_extends(s.drop_last(), j, g, p, l);
    }
}

proof fn lemma_cases_error_extends(
    s: Seq<HirSelectCase>,
    j: int,
    g: Seq<Seq<char>>,
    p: Seq<Seq<char>>,
    l: Seq<Seq<char>>,
)
    requires
        0 <= j <= s.len(),
        cases_lower_error(s.take(j), g, p, l) is Some,
    ensures
        cases_lower_error(s, g, p, l) == cases_lower_error(s.take(j), g, p, l),
    decreases s.len(),
{
    if j == s.len() {
        assert(s.take(j) =~= s);
    } else {
        assert(s.drop_last().take(j) =~= s.take(j));
        lemma_cases_error_extends(s.drop_last(), j, g, p, l);
    }
}

fn copy_names(v: &Vec<String>) -> (r: Vec<String>)
    ensures
        views(r@) == views(v@),
{
    let mut out: Vec<String> = Vec::new();
    let mut i: usize = 0;
    while i < v.len()
        invariant
            i <= v@.len(),
            views(out@) == views(v@).take(i as int),
        decreases v.len() - i,
    {
        let ghost before = views(out@);
        out.push(to_owned_string(v[i].as_str()));
        assert(views(out@) =~= before.push(v@[i as int]@));
        assert(views(v@).take(i + 1) =~= views(v@).take(i as int).push(v@[i as int]@));
        i = i + 1;
    }
    assert(views(v@).take(v@.len() as int) =~= views(v@));
    out
}

fn lower_cases(
    cases: &Vec<HirSelectCase>,
    globals: &Vec<String>,
    params: &Vec<String>,
    locals: &Vec<String>,
) -> (r: Result<Vec<MirSelectCase>, String>)
    ensures
        match r {
            Ok(v) => cases_lower_error(cases@, views(globals@), views(params@), views(locals@)).is_none()
                && cases_lower(cases@, v@, views(globals@), views(params@), views(locals@)),
            Err(e) => cases_lower_error(cases@, views(globals@), views(params@), views(locals@)) == Some(
                e@,
            ),
        },
    decreases cases, 0int,
{
    let ghost (g, p, l) = (views(globals@), views(params@), views(locals@));
    let ghost s = cases@;
    let mut out: Vec<MirSelectCase> = Vec::new();
    let mut i: usize = 0;
    assert(s.take(0) =~= Seq::<HirSelectCase>::empty());
    while i < cases.len()
        invariant
            s == cases@,
            g == views(globals@),
            p == views(params@),
            l == views(locals@),
            i <= s.len(),
            cases_lower_error(s.take(i as int), g, p, l).is_none(),
            out@.len() == i,
            forall|k: int| 0 <= k < i ==> #[trigger] case_lowers_to(s[k], out@[k], g, p, l),
        decreases cases.len() - i,
    {
        let c = &cases[i];
        assert(s.take(i + 1).drop_last() =~= s.take(i as int));
        assert(s.take(i + 1).last() == *c);
        let pattern = match &c.pattern {
            HirSelectPattern::Receive { binding, expr } => match lower_expr(expr, globals, params, locals) {
                Ok(m) => MirSelectPattern::Receive { binding: to_owned_string(binding.as_str()), source: m },
                Err(e) => {
                    proof {
                        lemma_cases_error_extends(s, i + 1, g, p, l);
                    }
                    return Err(e);
                },
            },
            HirSelectPattern::After { duration_literal } => MirSelectPattern::After {
                duration_literal: to_owned_string(duration_literal.as_str()),
            },
            HirSelectPattern::Closed { ident } => MirSelectPattern::Closed {
                ident: to_owned_string(ident.as_str()),
            },
            HirSelectPattern::Default => MirSelectPattern::Default,
        };
        let action = match lower_expr(&c.action, globals, params, locals) {
            Ok(m) => m,
            Err(e) => {
                proof {
                    lemma_cases_error_extends(s, i + 1, g, p, l);
                }
                return Err(e);
            },
        };
        let mc = MirSelectCase { pattern, action };
        assert(case_lowers_to(s[i as int], mc, g, p, l));
        out.push(mc);
        i = i + 1;
    }
    assert(s.take(s.len() as int) =~= s);
    Ok(out)
}

fn lower_stmt(
    st: &HirStmt,
    globals: &Vec<String>,
    params: &Vec<String>,
    locals: &mut Vec<String>,
) -> (r: Result<MirStmt, String>)
    ensures
        match r {
            Ok(m) => {
                &&& stmt_error(*st, views(globals@), views(params@), views(old(locals)@)).is_none()
                &&& stmt_lowers(*st, m, views(globals@), views(params@), views(old(locals)@))
                &&& views(final(locals)@) == stmt_locals(*st, views(old(locals)@))
            },
            Err(e) => stmt_error(*st, views(globals@), views(params@), views(old(locals)@)) == Some(e@),
        },
    decreases st, 1int,
{
    let ghost l0 = views(locals@);
    match st {
        HirStmt::Binding { name, expr } => {
            let e = match lower_expr(expr, globals, params, locals) {
                Ok(m) => m,
                Err(e) => {
                    return Err(e);
                },
            };
            locals.push(to_owned_string(name.as_str()));
            assert(views(locals@) =~= l0.push(name@));
            Ok(MirStmt::Let { name: to_owned_string(name.as_str()), expr: e })
        },
        HirStmt::Assignment { target, expr } => match &target.kind {
            HirExprKind::Ident(name) => match lower_expr(expr, globals, params, locals) {
                Ok(e) => Ok(MirStmt::Assign { name: to_owned_string(name.as_str()), expr: e }),
                Err(e) => Err(e),
            },
            _ => {
                let t = match lower_expr(target, globals, params, locals) {
                    Ok(m) => m,
                    Err(e) => {
                        return Err(e);
                    },
                };
                let e = match lower_expr(expr, globals, params, locals) {
                    Ok(m) => m,
                    Err(e) => {
                        return Err(e);
                    },
                };
                let mut args: Vec<MirExpr> = Vec::new();
                args.push(t);
                args.push(e);
                Ok(
                    MirStmt::Expr(
                        MirExpr::Call {
                            callee: Box::new(MirExpr::Var(to_owned_string("__assign"))),
                            args,
                        },
                    ),
                )
            },
        },
        HirStmt::Return { expr } => match lower_expr(expr, globals, params, locals) {
            Ok(e) => Ok(MirStmt::Return(e)),
            Err(e) => Err(e),
        },
        HirStmt::Expr { expr } => match lower_expr(expr, globals, params, locals) {
            Ok(e) => Ok(MirStmt::Expr(e)),
            Err(e) => Err(e),
        },
        HirStmt::Go { expr } => match lower_expr(expr, globals, params, locals) {
            Ok(e) => Ok(MirStmt::Go(e)),
            Err(e) => Err(e),
        },
        HirStmt::For { var, iter, body } => {
            let it = match lower_expr(iter, globals, params, locals) {
                Ok(m) => m,
                Err(e) => {
                    return Err(e);
                },
            };
            let mut inner = copy_names(locals);
            inner.push(to_owned_string(var.as_str()));
            assert(views(inner@) =~= l0.push(var@));
            let b = match lower_stmt_list(body, globals, params, &mut inner) {
                Ok(v) => v,
                Err(e) => {
                    return Err(e);
                },
            };
            Ok(
                MirStmt::For {
                    var: to_owned_string(var.as_str()),
                    iter: it,
                    iter_kind: classify_for_iter_kind(iter.ty.as_str()),
                    body: b,
                },
            )
        },
        HirStmt::If { cond, then_body, else_body } => {
            let c = match lower_expr(cond, globals, params, locals) {
                Ok(m) => m,
                Err(e) => {
                    return Err(e);
                },
            };
            let t = match lower_stmt_list(then_body, globals, params, locals) {
                Ok(v) => v,
                Err(e) => {
                    return Err(e);
                },
            };
            let e = match lower_stmt_list(else_body, globals, params, locals) {
                Ok(v) => v,
                Err(e) => {
                    return Err(e);
                },
            };
            Ok(MirStmt::If { cond: c, then_body: t, else_body: e })
        },
        HirStmt::While { cond, body } => {
            let c = match lower_expr(cond, globals, params, locals) {
                Ok(m) => m,
                Err(e) => {
                    return Err(e);
                },
            };
            match lower_stmt_list(body, globals, params, locals) {
                Ok(b) => Ok(MirStmt::While { cond: c, body: b }),
                Err(e) => Err(e),
            }
        },
        HirStmt::Repeat { count, body } => {
            let c = match lower_expr(count, globals, params, locals) {
                Ok(m) => m,
                Err(e) => {
                    return Err(e);
                },
            };
            match lower_stmt_list(body, globals, params, locals) {
                Ok(b) => Ok(MirStmt::Repeat { count: c, body: b }),
                Err(e) => Err(e),
            }
        },
        HirStmt::Select { cases } => match lower_cases(cases, globals, params, locals) {
            Ok(v) => Ok(MirStmt::Select { cases: v }),
            Err(e) => Err(e),
        },
    }
}

/// Lowers a block; `locals` are the names bound before it, and afterwards
/// those bound after it (see `stmts_locals`).
pub fn lower_stmt_list(
    stmts: &Vec<HirStmt>,
    globals: &Vec<String>,
    params: &Vec<String>,
    locals: &mut Vec<String>,
) -> (r: Result<Vec<MirStmt>, String>)
    ensures
        match r {
            Ok(v) => {
                &&& stmts_error(stmts@, views(globals@), views(params@), views(old(locals)@)).is_none()
                &&& stmts_lower(stmts@, v@, views(globals@), views(params@), views(old(locals)@))
                &&& views(final(locals)@) == stmts_locals(stmts@, views(old(locals)@))
            },
            Err(e) => stmts_error(stmts@, views(globals@), views(params@), views(old(locals)@)) == Some(
                e@,
            ),
        },
    decreases stmts, 0int,
{
    let ghost (g, p, l0) = (views(globals@), views(params@), views(locals@));
    let ghost s = stmts@;
    let mut out: Vec<MirStmt> = Vec::new();
    let mut i: usize = 0;
    assert(s.take(0) =~= Seq::<HirStmt>::empty());
    while i < stmts.len()
        invariant
            s == stmts@,
            g == views(globals@),
            p == views(params@),
            l0 == views(old(locals)@),
            i <= s.len(),
            views(locals@) == stmts_locals(s.take(i as int), l0),
            stmts_error(s.take(i as int), g, p, l0).is_none(),
            stmts_lower(s.take(i as int), out@, g, p, l0),
        decreases stmts.len() - i,
    {
        assert(s.take(i + 1).drop_last() =~= s.take(i as int));
        assert(s.take(i + 1).last() == s[i as int]);
        match lower_stmt(&stmts[i], globals, params, locals) {
            Ok(m) => {
                let ghost before = out@;
                out.push(m);
                assert(out@.drop_last() =~= before);
            },
            Err(e) => {
                proof {
                    lemma_stmts_error_extends(s, i + 1, g, p, l0);
                }
                return Err(e);
            },
        }
        i = i + 1;
    }
    assert(s.take(s.len() as int) =~= s);
    Ok(out)
}

/// The MIR type of a source type: function types are pointers.
pub open spec fn mir_param_type(raw: Seq<char>) -> MirType {
    if starts_with(without_whitespace(raw), "fn("@) {
        MirType::Ptr
    } else {
        parse_type_name_spec(without_whitespace(raw))
    }
}

/// The names of the program's functions.
pub open spec fn function_names(fs: Seq<HirFunction>) -> Seq<Seq<char>> {
    fs.map_values(|f: HirFunction| f.name@)
}

/// The names of a function's parameters.
pub open spec fn param_names(ps: Seq<HirParam>) -> Seq<Seq<char>> {
    ps.map_values(|q: HirParam| q.name@)
}

/// The return type a lowered function gets: its declared type, else the
/// inferred one, else `Unknown`.
pub open spec fn lowered_return_type(f: HirFunction) -> MirType {
    match f.return_type {
        Some(t) => mir_param_type(t.raw@),
        None => mir_param_type(
            match f.inferred_return_type {
                Some(s) => s@,
                None => "Unknown"@,
            },
        ),
    }
}

/// The first error of lowering a function: its body, then its tail
/// expression.
pub open spec fn function_lower_error(f: HirFunction, g: Seq<Seq<char>>) -> Option<Seq<char>> {
    let p = param_names(f.params@);
    first_error(
        stmts_error(f.body@, g, p, Seq::empty()),
        match f.tail_expr {
            Some(t) => lower_error(t, g, p, stmts_locals(f.body@, Seq::empty())),
            None => None,
        },
    )
}

/// `m` is the function `f` lowered: same name and visibility, parameters
/// with their MIR types, the lowered body, and the tail expression as a
/// final `return`.
pub open spec fn function_lowers(f: HirFunction, m: MirFunction, g: Seq<Seq<char>>) -> bool {
    let p = param_names(f.params@);
    &&& m.name@ == f.name@
    &&& m.is_public == f.is_public
    &&& m.params@.len() == f.params@.len()
    &&& forall|i: int|
        0 <= i < f.params@.len() ==> (#[trigger] m.params@[i]).name@ == f.params@[i].name@
            && m.params@[i].ty == match f.params@[i].ty {
            Some(t) => mir_param_type(t.raw@),
            None => MirType::Unknown,
        }
    &&& m.return_type == lowered_return_type(f)
    &&& m.native_symbol is None
    &&& match f.tail_expr {
        None => stmts_lower(f.body@, m.body@, g, p, Seq::empty()),
        Some(t) => {
            &&& m.body@.len() == f.body@.len() + 1
            &&& stmts_lower(f.body@, m.body@.drop_last(), g, p, Seq::empty())
            &&& m.body@.last() matches MirStmt::Return(e2) && lowers_to(
                t,
                e2,
                g,
                p,
                stmts_locals(f.body@, Seq::empty()),
            )
        },
    }
}

/// The first error of lowering the functions, in order.
pub open spec fn functions_lower_error(fs: Seq<HirFunction>, g: Seq<Seq<char>>) -> Option<Seq<char>>
    decreases fs.len(),
{
    if fs.len() == 0 {
        None
    } else {
        first_error(function_lower_error(fs[0], g), functions_lower_error(fs.subrange(1, fs.len() as int), g))
    }
}

/// `m` is the program `h` lowered, function by function.
pub open spec fn program_lowers(h: HirProgram, m: MirProgram) -> bool {
    &&& m.functions@.len() == h.functions@.len()
    &&& forall|i: int|
        0 <= i < h.functions@.len() ==> #[trigger] function_lowers(
            h.functions@[i],
            m.functions@[i],
            function_names(h.functions@),
        )
}

fn lower_params(ps: &Vec<HirParam>) -> (r: Vec<MirParam>)
    ensures
        r@.len() == ps@.len(),
        forall|i: int|
            0 <= i < ps@.len() ==> (#[trigger] r@[i]).name@ == ps@[i].name@ && r@[i].ty == match ps@[i].ty {
                Some(t) => mir_param_type(t.raw@),
                None => MirType::Unknown,
            },
{
    let mut out: Vec<MirParam> = Vec::new();
    let mut i: usize = 0;
    while i < ps.len()
        invariant
            i <= ps@.len(),
            out@.len() == i,
            forall|k: int|
                0 <= k < i ==> (#[trigger] out@[k]).name@ == ps@[k].name@ && out@[k].ty == match ps@[k].ty {
                    Some(t) => mir_param_type(t.raw@),
                    None => MirType::Unknown,
                },
        decreases ps.len() - i,
    {
        let ty = match &ps[i].ty {
            Some(t) => mir_param_ty_from_hir_raw(t.raw.as_str()),
            None => MirType::Unknown,
        };
        out.push(MirParam { name: to_owned_string(ps[i].name.as_str()), ty });
        i = i + 1;
    }
    out
}

fn names_of_params(ps: &Vec<HirParam>) -> (r: Vec<String>)
    ensures
        views(r@) == param_names(ps@),
{
    let mut out: Vec<String> = Vec::new();
    let mut i: usize = 0;
    while i < ps.len()
        invariant
            i <= ps@.len(),
            views(out@) == param_names(ps@).take(i as int),
        decreases ps.len() - i,
    {
        let ghost before = views(out@);
        out.push(to_owned_string(ps[i].name.as_str()));
        assert(views(out@) =~= before.push(ps@[i as int].name@));
        assert(param_names(ps@).take(i + 1) =~= param_names(ps@).take(i as int).push(ps@[i as int].name@));
        i = i + 1;
    }
    assert(param_names(ps@).take(ps@.len() as int) =~= param_names(ps@));
    out
}

fn names_of_functions(fs: &Vec<HirFunction>) -> (r: Vec<String>)
    ensures
        views(r@) == function_names(fs@),
{
    let mut out: Vec<String> = Vec::new();
    let mut i: usize = 0;
    while i < fs.len()
        invariant
            i <= fs@.len(),
            views(out@) == function_names(fs@).take(i as int),
        decreases fs.len() - i,
    {
        let ghost before = views(out@);
        out.push(to_owned_string(fs[i].name.as_str()));
        assert(views(out@) =~= before.push(fs@[i as int].name@));
        assert(function_names(fs@).take(i + 1) =~= function_names(fs@).take(i as int).push(
            fs@[i as int].name@,
        ));
        i = i + 1;
    }
    assert(function_names(fs@).take(fs@.len() as int) =~= function_names(fs@));
    out
}

fn lower_function(f: &HirFunction, globals: &Vec<String>) -> (r: Result<MirFunction, String>)
    ensures
        match r {
            Ok(m) => function_lower_error(*f, views(globals@)).is_none() && function_lowers(
                *f,
                m,
                views(globals@),
            ),
            Err(e) => function_lower_error(*f, views(globals@)) == Some(e@),
        },
{
    let params = names_of_params(&f.params);
    let mut locals: Vec<String> = Vec::new();
    assert(views(locals@) =~= Seq::<Seq<char>>::empty());
    let mut body = match lower_stmt_list(&f.body, globals, &params, &mut locals) {
        Ok(b) => b,
        Err(e) => {
            return Err(e);
        },
    };
    let ghost lowered = body@;
    match &f.tail_expr {
        Some(t) => {
            match lower_expr(t, globals, &params, &locals) {
                Ok(e) => {
                    body.push(MirStmt::Return(e));
                    assert(body@.drop_last() =~= lowered);
                },
                Err(e) => {
                    return Err(e);
                },
            }
        },
        None => {},
    }
    let return_type = match &f.return_type {
        Some(t) => mir_param_ty_from_hir_raw(t.raw.as_str()),
        None => match &f.inferred_return_type {
            Some(s) => mir_param_ty_from_hir_raw(s.as_str()),
            None => {
                proof {
                    reveal_strlit("Unknown");
                }
                mir_param_ty_from_hir_raw("Unknown")
            },
        },
    };
    Ok(
        MirFunction {
            name: to_owned_string(f.name.as_str()),
            is_public: f.is_public,
            params: lower_params(&f.params),
            return_type,
            body,
            native_symbol: None,
        },
    )
}

/// Lowers a checked program to the mid-level representation: every
/// function, in order (see `function_lowers`); the first lowering error is
/// returned, and the lowered program must then pass `verify_mir`, whose
/// error is returned otherwise.
pub fn lower_hir_to_mir(hir: &HirProgram) -> (r: Result<MirProgram, String>)
    ensures
        match r {
            Ok(m) => {
                &&& functions_lower_error(hir.functions@, function_names(hir.functions@)).is_none()
                &&& program_lowers(*hir, m)
                &&& mir_error(m).is_none()
            },
            Err(e) => functions_lower_error(hir.functions@, function_names(hir.functions@)) == Some(e@)
                || (functions_lower_error(hir.functions@, function_names(hir.functions@)).is_none()
                && exists|m: MirProgram| program_lowers(*hir, m) && mir_error(m) == Some(e@)),
        },
{
    let globals = names_of_functions(&hir.functions);
    let ghost g = views(globals@);
    let ghost fs = hir.functions@;
    let mut out: Vec<MirFunction> = Vec::new();
    let mut i: usize = 0;
    assert(fs.subrange(0, fs.len() as int) =~= fs);
    while i < hir.functions.len()
        invariant
            fs == hir.functions@,
            g == views(globals@),
            g == function_names(fs),
            i <= fs.len(),
            functions_lower_error(fs, g) == functions_lower_error(fs.subrange(i as int, fs.len() as int), g),
            out@.len() == i,
            forall|k: int| 0 <= k < i ==> #[trigger] function_lowers(fs[k], out@[k], g),
        decreases hir.functions.len() - i,
    {
        let ghost t = fs.subrange(i as int, fs.len() as int);
        assert(t[0] == fs[i as int]);
        assert(t.subrange(1, t.len() as int) =~= fs.subrange(i + 1, fs.len() as int));
        match lower_function(&hir.functions[i], &globals) {
            Ok(m) => {
                out.push(m);
            },
            Err(e) => {
                return Err(e);
            },
        }
        i = i + 1;
    }
    let program = MirProgram { functions: out };
    assert(program_lowers(*hir, program));
    match verify_mir(&program) {
        Ok(_) => Ok(program),
        Err(e) => Err(e),
    }
}

} // verus!
