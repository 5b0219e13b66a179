use vstd::prelude::*;

use crate::mir::program::MirExpr;
use crate::text::{push_str, str_eq, to_owned_string};

verus! {

/// The literal an expression folds to, if it folds to one. Float
/// literals and float arithmetic are not folded here.
pub enum Lit {
    Int(i64),
    Bool(bool),
    Str(Seq<char>),
    NotLit,
}

/// The literal that folding the two literal operands of `op` gives.
pub open spec fn fold_binary(a: Lit, op: Seq<char>, b: Lit) -> Lit {
    match (a, b) {
        (Lit::Int(x), Lit::Int(y)) => if op == "Add"@ {
            Lit::Int(x.wrapping_add(y))
        } else if op == "Sub"@ {
            Lit::Int(x.wrapping_sub(y))
        } else if op == "Mul"@ {
            Lit::Int(x.wrapping_mul(y))
        } else if op == "Div"@ && y != 0 {
            match x.checked_div(y) {
                Some(q) => Lit::Int(q),
                None => Lit::NotLit,
            }
        } else if op == "Mod"@ && y != 0 {
            match x.checked_rem(y) {
                Some(q) => Lit::Int(q),
                None => Lit::NotLit,
            }
        } else if op == "Lt"@ {
            Lit::Int(if x < y { 1 } else { 0 })
        } else if op == "Le"@ {
            Lit::Int(if x <= y { 1 } else { 0 })
        } else if op == "Gt"@ {
            Lit::Int(if x > y { 1 } else { 0 })
        } else if op == "Ge"@ {
            Lit::Int(if x >= y { 1 } else { 0 })
        } else if op == "Eq"@ {
            Lit::Int(if x == y { 1 } else { 0 })
        } else if op == "Ne"@ {
            Lit::Int(if x != y { 1 } else { 0 })
        } else {
            Lit::NotLit
        },
        (Lit::Bool(x), Lit::Bool(y)) => if op == "And"@ {
            Lit::Bool(x && y)
        } else if op == "Or"@ {
            Lit::Bool(x || y)
        } else {
            Lit::NotLit
        },
        (Lit::Str(x), Lit::Str(y)) => if op == "Add"@ {
            Lit::Str(x + y)
        } else {
            Lit::NotLit
        },
        _ => Lit::NotLit,
    }
}

/// The literal that folding a unary operator on a literal operand gives.
pub open spec fn fold_unary(op: Seq<char>, a: Lit) -> Lit {
    match a {
        Lit::Int(v) => if op == "Neg"@ {
            Lit::Int(-v as i64)
        } else {
            Lit::NotLit
        },
        Lit::Bool(v) => if op == "Not"@ {
            Lit::Bool(!v)
        } else {
            Lit::NotLit
        },
        _ => Lit::NotLit,
    }
}

/// The literal an expression folds to.
pub open spec fn fold_lit(e: MirExpr) -> Lit
    decreases e,
{
    match e {
        MirExpr::Int(v) => Lit::Int(v),
        MirExpr::Bool(b) => Lit::Bool(b),
        MirExpr::Str(s) => Lit::Str(s@),
        MirExpr::Binary { left, op, right } => fold_binary(fold_lit(*left), op@, fold_lit(*right)),
        MirExpr::Unary { op, expr } => fold_unary(op@, fold_lit(*expr)),
        _ => Lit::NotLit,
    }
}

/// The literal an expression is.
pub open spec fn lit_of(e: MirExpr) -> Lit {
    match e {
        MirExpr::Int(v) => Lit::Int(v),
        MirExpr::Bool(b) => Lit::Bool(b),
        MirExpr::Str(s) => Lit::Str(s@),
        _ => Lit::NotLit,
    }
}

/// Folding does not trap: no `i64::MIN / -1`, `i64::MIN % -1` or
/// `-i64::MIN` arises among the folded literals.
pub open spec fn fold_safe(e: MirExpr) -> bool
    decreases e,
{
    match e {
        MirExpr::Binary { left, op, right } => {
            &&& fold_safe(*left)
            &&& fold_safe(*right)
            &&& !((op@ == "Div"@ || op@ == "Mod"@) && fold_lit(*left) == Lit::Int(i64::MIN)
                && fold_lit(*right) == Lit::Int(-1i64))
        },
        MirExpr::Unary { op, expr } => fold_safe(*expr) && !(op@ == "Neg"@ && fold_lit(*expr)
            == Lit::Int(i64::MIN)),
        MirExpr::Call { callee, args } => fold_safe(*callee) && all_safe(args@),
        MirExpr::Index { object, index, object_is_str: _ } => fold_safe(*object) && fold_safe(*index),
        MirExpr::Member { object, field: _, object_type: _ } => fold_safe(*object),
        MirExpr::List(items) => all_safe(items@),
        MirExpr::MapLit(pairs) => pairs_safe(pairs@),
        MirExpr::Slice { object, start, end, object_is_str: _ } => fold_safe(*object) && match start {
            Some(x) => fold_safe(*x),
            None => true,
        } && match end {
            Some(x) => fold_safe(*x),
            None => true,
        },
        MirExpr::Constructor { struct_name: _, fields } => named_safe(fields@),
        MirExpr::Async { expr } => fold_safe(*expr),
        MirExpr::Await { expr } => fold_safe(*expr),
        MirExpr::Question { expr } => fold_safe(*expr),
        MirExpr::Old { expr } => fold_safe(*expr),
        _ => true,
    }
}

pub open spec fn all_safe(s: Seq<MirExpr>) -> bool
    decreases s,
{
    s.len() == 0 || (fold_safe(s[0]) && all_safe(s.subrange(1, s.len() as int)))
}

pub open spec fn pairs_safe(s: Seq<(MirExpr, MirExpr)>) -> bool
    decreases s,
{
    s.len() == 0 || (fold_safe(s[0].0) && fold_safe(s[0].1) && pairs_safe(s.subrange(1, s.len() as int)))
}

pub open spec fn named_safe(s: Seq<(String, MirExpr)>) -> bool
    decreases s,
{
    s.len() == 0 || (fold_safe(s[0].1) && named_safe(s.subrange(1, s.len() as int)))
}

/// `r` is `e` with its constant subexpressions folded: an operator whose
/// folded operands are literals that it folds becomes the literal; every
/// other node keeps its kind and fields, with its operands, call
/// arguments, list items, map entries, slice bounds and constructor fields
/// folded; the remaining kinds are kept as they are.
pub open spec fn fold_ok(e: MirExpr, r: MirExpr) -> bool
    decreases e,
{
    match e {
        MirExpr::Binary { left, op, right } => match fold_lit(e) {
            Lit::NotLit => match r {
                MirExpr::Binary { left: l2, op: o2, right: r2 } => o2 == op && fold_ok(*left, *l2)
                    && fold_ok(*right, *r2),
                _ => false,
            },
            lit => lit_of(r) == lit,
        },
        MirExpr::Unary { op, expr } => match fold_lit(e) {
            Lit::NotLit => match r {
                MirExpr::Unary { op: o2, expr: e2 } => o2 == op && fold_ok(*expr, *e2),
                _ => false,
            },
            lit => lit_of(r) == lit,
        },
        MirExpr::Call { callee, args } => match r {
            MirExpr::Call { callee: c2, args: a2 } => fold_ok(*callee, *c2) && all_folded(args@, a2@),
            _ => false,
        },
        MirExpr::Index { object, index, object_is_str } => match r {
            MirExpr::Index { object: o2, index: i2, object_is_str: s2 } => s2 == object_is_str
                && fold_ok(*object, *o2) && fold_ok(*index, *i2),
            _ => false,
        },
        MirExpr::Member { object, field, object_type } => match r {
            MirExpr::Member { object: o2, field: f2, object_type: t2 } => f2 == field && t2
                == object_type && fold_ok(*object, *o2),
            _ => false,
        },
        MirExpr::List(items) => match r {
            MirExpr::List(i2) => all_folded(items@, i2@),
            _ => false,
        },
        MirExpr::MapLit(pairs) => match r {
            MirExpr::MapLit(p2) => pairs_folded(pairs@, p2@),
            _ => false,
        },
        MirExpr::Slice { object, start, end, object_is_str } => match r {
            MirExpr::Slice { object: o2, start: st2, end: en2, object_is_str: s2 } => {
                &&& s2 == object_is_str
                &&& fold_ok(*object, *o2)
                &&& match (start, st2) {
                    (Some(a), Some(b)) => fold_ok(*a, *b),
                    (None, None) => true,
                    _ => false,
                }
                &&& match (end, en2) {
                    (Some(a), Some(b)) => fold_ok(*a, *b),
                    (None, None) => true,
                    _ => false,
                }
            },
            _ => false,
        },
        MirExpr::Constructor { struct_name, fields } => match r {
            MirExpr::Constructor { struct_name: n2, fields: f2 } => n2 == struct_name && named_folded(
                fields@,
                f2@,
            ),
            _ => false,
        },
        MirExpr::Async { expr } => match r {
            MirExpr::Async { expr: e2 } => fold_ok(*expr, *e2),
            _ => false,
        },
        MirExpr::Await { expr } => match r {
            MirExpr::Await { expr: e2 } => fold_ok(*expr, *e2),
            _ => false,
        },
        MirExpr::Question { expr } => match r {
            MirExpr::Question { expr: e2 } => fold_ok(*expr, *e2),
            _ => false,
        },
        MirExpr::Old { expr } => match r {
            MirExpr::Old { expr: e2 } => fold_ok(*expr, *e2),
            _ => false,
        },
        _ => r == e,
    }
}

/// Each item of `r` is the matching item of `s` folded.
pub open spec fn all_folded(s: Seq<MirExpr>, r: Seq<MirExpr>) -> bool
    decreases s,
{
    if s.len() == 0 {
        r.len() == 0
    } else {
        r.len() > 0 && fold_ok(s[0], r[0]) && all_folded(
            s.subrange(1, s.len() as int),
            r.subrange(1, r.len() as int),
        )
    }
}

/// Each entry of `r` is the matching entry of `s`, key and value folded.
pub open spec fn pairs_folded(s: Seq<(MirExpr, MirExpr)>, r: Seq<(MirExpr, MirExpr)>) -> bool
    decreases s,
{
    if s.len() == 0 {
        r.len() == 0
    } else {
        r.len() > 0 && fold_ok(s[0].0, r[0].0) && fold_ok(s[0].1, r[0].1) && pairs_folded(
            s.subrange(1, s.len() as int),
            r.subrange(1, r.len() as int),
        )
    }
}

/// Each field of `r` is the matching field of `s`, same name, value folded.
pub open spec fn named_folded(s: Seq<(String, MirExpr)>, r: Seq<(String, MirExpr)>) -> bool
    decreases s,
{
    if s.len() == 0 {
        r.len() == 0
    } else {
        r.len() > 0 && r[0].0 == s[0].0 && fold_ok(s[0].1, r[0].1) && named_folded(
            s.subrange(1, s.len() as int),
            r.subrange(1, r.len() as int),
        )
    }
}

proof fn lemma_lit_of_folded(e: MirExpr, r: MirExpr)
    requires
        fold_ok(e, r),
    ensures
        lit_of(r) == fold_lit(e),
{
}

/// Folding a binary operator on two integer literals computes it on the
/// integers: a comparison gives 1 exactly when it holds and 0 otherwise,
/// addition, subtraction and multiplication give the exact result
/// whenever it fits in an `i64`, division and remainder of a non-negative
/// integer by a positive one give quotient and remainder, and division or
/// remainder by zero is left unfolded.
pub proof fn lemma_fold_computes_literal_operators(x: i64, y: i64, op: String, r: MirExpr)
    requires
        fold_ok(
            MirExpr::Binary { left: Box::new(MirExpr::Int(x)), op, right: Box::new(MirExpr::Int(y)) },
            r,
        ),
    ensures
        op@ == "Lt"@ ==> (r == MirExpr::Int(1) <==> x < y) && (r == MirExpr::Int(0) <==> !(x < y)),
        op@ == "Le"@ ==> (r == MirExpr::Int(1) <==> x <= y) && (r == MirExpr::Int(0) <==> !(x <= y)),
        op@ == "Gt"@ ==> (r == MirExpr::Int(1) <==> x > y) && (r == MirExpr::Int(0) <==> !(x > y)),
        op@ == "Ge"@ ==> (r == MirExpr::Int(1) <==> x >= y) && (r == MirExpr::Int(0) <==> !(x >= y)),
        op@ == "Eq"@ ==> (r == MirExpr::Int(1) <==> x == y) && (r == MirExpr::Int(0) <==> x != y),
        op@ == "Ne"@ ==> (r == MirExpr::Int(1) <==> x != y) && (r == MirExpr::Int(0) <==> x == y),
        op@ == "Add"@ && i64::MIN <= x + y <= i64::MAX ==> r == MirExpr::Int((x + y) as i64),
        op@ == "Sub"@ && i64::MIN <= x - y <= i64::MAX ==> r == MirExpr::Int((x - y) as i64),
        op@ == "Mul"@ && i64::MIN <= x * y <= i64::MAX ==> r == MirExpr::Int((x * y) as i64),
        op@ == "Div"@ && x >= 0 && y > 0 ==> r == MirExpr::Int((x / y) as i64),
        op@ == "Mod"@ && x >= 0 && y > 0 ==> r == MirExpr::Int((x % y) as i64),
        (op@ == "Div"@ || op@ == "Mod"@) && y == 0 ==> (r matches MirExpr::Binary { left, op: o, right }
            && o == op && *left == MirExpr::Int(x) && *right == MirExpr::Int(y)),
{
    reveal_strlit("Add");
    reveal_strlit("Sub");
    reveal_strlit("Mul");
    reveal_strlit("Div");
    reveal_strlit("Mod");
    reveal_strlit("Lt");
    reveal_strlit("Le");
    reveal_strlit("Gt");
    reveal_strlit("Ge");
    reveal_strlit("Eq");
    reveal_strlit("Ne");
    assert("Add"@.len() == 3 && "Sub"@.len() == 3 && "Mul"@.len() == 3 && "Div"@.len() == 3
        && "Mod"@.len() == 3);
    assert("Add"@[0] == 'A' && "Sub"@[0] == 'S' && "Mul"@[0] == 'M' && "Div"@[0] == 'D'
        && "Mod"@[0] == 'M' && "Mul"@[1] == 'u' && "Mod"@[1] == 'o');
    assert("Lt"@.len() == 2 && "Le"@.len() == 2 && "Gt"@.len() == 2 && "Ge"@.len() == 2
        && "Eq"@.len() == 2 && "Ne"@.len() == 2);
    assert("Lt"@[0] == 'L' && "Lt"@[1] == 't' && "Le"@[0] == 'L' && "Le"@[1] == 'e');
    assert("Gt"@[0] == 'G' && "Gt"@[1] == 't' && "Ge"@[0] == 'G' && "Ge"@[1] == 'e');
    assert("Eq"@[0] == 'E' && "Ne"@[0] == 'N');
    let e = MirExpr::Binary { left: Box::new(MirExpr::Int(x)), op, right: Box::new(MirExpr::Int(y)) };
    assert(fold_lit(MirExpr::Int(x)) == Lit::Int(x));
    assert(fold_lit(MirExpr::Int(y)) == Lit::Int(y));
    let v = fold_binary(Lit::Int(x), op@, Lit::Int(y));
    assert(fold_lit(e) == v);
    if op@ == "Lt"@ {
        assert(v == Lit::Int(if x < y { 1 } else { 0 }));
    } else if op@ == "Le"@ {
        assert(v == Lit::Int(if x <= y { 1 } else { 0 }));
    } else if op@ == "Div"@ {
        if y == 0 {
            assert(v == Lit::NotLit);
        } else if x >= 0 && y > 0 {
            assert(x / y <= x) by (nonlinear_arith)
                requires
                    x >= 0,
                    y > 0,
            ;
            assert(v == Lit::Int((x / y) as i64));
        }
    } else if op@ == "Mod"@ {
        if y == 0 {
            assert(v == Lit::NotLit);
        } else if x >= 0 && y > 0 {
            assert(0 <= x % y < y && (x == 0 ==> x % y == 0)) by (nonlinear_arith)
                requires
                    x >= 0,
                    y > 0,
            ;
            assert(v == Lit::Int((x % y) as i64));
        }
    } else if op@ == "Sub"@ {
        assert(v == Lit::Int(x.wrapping_sub(y)));
    } else if op@ == "Mul"@ {
        assert(v == Lit::Int(x.wrapping_mul(y)));
        let z: int = x * y;
        if i64::MIN <= z <= i64::MAX {
            if z >= 0 {
                assert(z % 0x1_0000_0000_0000_0000 == z) by (nonlinear_arith)
                    requires
                        0 <= z <= i64::MAX,
                ;
            } else {
                assert(z % 0x1_0000_0000_0000_0000 == z + 0x1_0000_0000_0000_0000) by (nonlinear_arith)
                    requires
                        i64::MIN <= z < 0,
                ;
            }
            assert(x.wrapping_mul(y) == z);
        }
    }
    if v != Lit::NotLit {
        assert(lit_of(r) == v);
        lemma_lit_of_int(r);
    } else if let MirExpr::Binary { left: l2, op: o2, right: r2 } = r {
        assert(fold_ok(MirExpr::Int(x), *l2));
        assert(fold_ok(MirExpr::Int(y), *r2));
    }
}

/// Folding negation on an integer literal gives its negation, and folding
/// `Not` on a boolean literal gives its complement.
pub proof fn lemma_fold_computes_unary_operators(x: i64, b: bool, op: String, rx: MirExpr, rb: MirExpr)
    requires
        fold_ok(MirExpr::Unary { op, expr: Box::new(MirExpr::Int(x)) }, rx),
        fold_ok(MirExpr::Unary { op, expr: Box::new(MirExpr::Bool(b)) }, rb),
    ensures
        op@ == "Neg"@ && x != i64::MIN ==> rx == MirExpr::Int(-x as i64),
        op@ == "Not"@ ==> rb == MirExpr::Bool(!b),
{
    assert(fold_lit(MirExpr::Int(x)) == Lit::Int(x));
    assert(fold_lit(MirExpr::Bool(b)) == Lit::Bool(b));
    lemma_lit_of_int(rx);
    lemma_lit_of_int(rb);
}

proof fn lemma_lit_of_int(r: MirExpr)
    ensures
        lit_of(r) matches Lit::Int(n) ==> r == MirExpr::Int(n),
        lit_of(r) matches Lit::Bool(b) ==> r == MirExpr::Bool(b),
{
}

/// Folding `And` or `Or` on two boolean literals gives their conjunction
/// or disjunction.
pub proof fn lemma_fold_computes_boolean_operators(x: bool, y: bool, op: String, r: MirExpr)
    requires
        fold_ok(
            MirExpr::Binary { left: Box::new(MirExpr::Bool(x)), op, right: Box::new(MirExpr::Bool(y)) },
            r,
        ),
    ensures
        op@ == "And"@ ==> r == MirExpr::Bool(x && y),
        op@ == "Or"@ ==> r == MirExpr::Bool(x || y),
{
    reveal_strlit("And");
    reveal_strlit("Or");
    assert("And"@.len() == 3 && "Or"@.len() == 2);
    let e = MirExpr::Binary { left: Box::new(MirExpr::Bool(x)), op, right: Box::new(MirExpr::Bool(y)) };
    assert(fold_lit(MirExpr::Bool(x)) == Lit::Bool(x));
    assert(fold_lit(MirExpr::Bool(y)) == Lit::Bool(y));
    let v = fold_binary(Lit::Bool(x), op@, Lit::Bool(y));
    assert(fold_lit(e) == v);
    if op@ == "And"@ {
        assert(v == Lit::Bool(x && y));
    }
    if v != Lit::NotLit {
        assert(lit_of(r) == v);
        lemma_lit_of_int(r);
    }
}

fn fold_all(items: Vec<MirExpr>) -> (r: Vec<MirExpr>)
    requires
        all_safe(items@),
    ensures
        all_folded(items@, r@),
    decreases items@, 0int,
{
    let ghost s = items@;
    let mut items = items;
    if items.len() == 0 {
        return Vec::new();
    }
    let first = items.remove(0);
    assert(items@ =~= s.subrange(1, s.len() as int));
    let f = constant_fold_expr(first);
    let mut rest = fold_all(items);
    let ghost rest_v = rest@;
    rest.insert(0, f);
    assert(rest@.subrange(1, rest@.len() as int) =~= rest_v);
    rest
}

fn fold_pairs(items: Vec<(MirExpr, MirExpr)>) -> (r: Vec<(MirExpr, MirExpr)>)
    requires
        pairs_safe(items@),
    ensures
        pairs_folded(items@, r@),
    decreases items@, 0int,
{
    let ghost s = items@;
    let mut items = items;
    if items.len() == 0 {
        return Vec::new();
    }
    let (k, v) = items.remove(0);
    assert(items@ =~= s.subrange(1, s.len() as int));
    let fk = constant_fold_expr(k);
    let fv = constant_fold_expr(v);
    let mut rest = fold_pairs(items);
    let ghost rest_v = rest@;
    rest.insert(0, (fk, fv));
    assert(rest@.subrange(1, rest@.len() as int) =~= rest_v);
    rest
}

fn fold_named(items: Vec<(String, MirExpr)>) -> (r: Vec<(String, MirExpr)>)
    requires
        named_safe(items@),
    ensures
        named_folded(items@, r@),
    decreases items@, 0int,
{
    let ghost s = items@;
    let mut items = items;
    if items.len() == 0 {
        return Vec::new();
    }
    let (n, v) = items.remove(0);
    assert(items@ =~= s.subrange(1, s.len() as int));
    let fv = constant_fold_expr(v);
    let mut rest = fold_named(items);
    let ghost rest_v = rest@;
    rest.insert(0, (n, fv));
    assert(rest@.subrange(1, rest@.len() as int) =~= rest_v);
    rest
}

/// Folds the constant subexpressions of an expression, bottom up, as
/// `fold_ok` says: integer arithmetic wraps, division and remainder by zero
/// are left as they are, comparisons give 1 or 0, booleans combine with
/// `And`/`Or`/`Not` and strings with `Add`. Float literals are not folded.
pub fn constant_fold_expr(expr: MirExpr) -> (r: MirExpr)
    requires
        fold_safe(expr),
    ensures
        fold_ok(expr, r),
    decreases expr, 1int,
{
    let ghost e0 = expr;
    match expr {
        MirExpr::Binary { left, op, right } => {
            let ghost (l0, r0) = (*left, *right);
            let lf = constant_fold_expr(*left);
            let rf = constant_fold_expr(*right);
            proof {
                lemma_lit_of_folded(l0, lf);
                lemma_lit_of_folded(r0, rf);
            }
            let o = op.as_str();
            match (&lf, &rf) {
                (MirExpr::Int(a), MirExpr::Int(b)) => {
                    let (x, y) = (*a, *b);
                    if str_eq(o, "Add") {
                        return MirExpr::Int(x.wrapping_add(y));
                    } else if str_eq(o, "Sub") {
                        return MirExpr::Int(x.wrapping_sub(y));
                    } else if str_eq(o, "Mul") {
                        return MirExpr::Int(x.wrapping_mul(y));
                    } else if str_eq(o, "Div") && y != 0 {
                        match x.checked_div(y) {
                            Some(q) => {
                                return MirExpr::Int(q);
                            },
                            None => {},
                        }
                    } else if str_eq(o, "Mod") && y != 0 {
                        match x.checked_rem(y) {
                            Some(q) => {
                                return MirExpr::Int(q);
                            },
                            None => {},
                        }
                    } else if str_eq(o, "Lt") {
                        return MirExpr::Int(if x < y { 1 } else { 0 });
                    } else if str_eq(o, "Le") {
                        return MirExpr::Int(if x <= y { 1 } else { 0 });
                    } else if str_eq(o, "Gt") {
                        return MirExpr::Int(if x > y { 1 } else { 0 });
                    } else if str_eq(o, "Ge") {
                        return MirExpr::Int(if x >= y { 1 } else { 0 });
                    } else if str_eq(o, "Eq") {
                        return MirExpr::Int(if x == y { 1 } else { 0 });
                    } else if str_eq(o, "Ne") {
                        return MirExpr::Int(if x != y { 1 } else { 0 });
                    }
                },
                (MirExpr::Bool(a), MirExpr::Bool(b)) => {
                    if str_eq(o, "And") {
                        return MirExpr::Bool(*a && *b);
                    } else if str_eq(o, "Or") {
                        return MirExpr::Bool(*a || *b);
                    }
                },
                (MirExpr::Str(a), MirExpr::Str(b)) => {
                    if str_eq(o, "Add") {
                        let mut joined = to_owned_string(a.as_str());
                        push_str(&mut joined, b.as_str());
                        return MirExpr::Str(joined);
                    }
                },
                _ => {},
            }
            MirExpr::Binary { left: Box::new(lf), op, right: Box::new(rf) }
        },
        MirExpr::Unary { op, expr } => {
            let ghost x0 = *expr;
            let f = constant_fold_expr(*expr);
            proof {
                lemma_lit_of_folded(x0, f);
            }
            match &f {
                MirExpr::Int(v) => {
                    if str_eq(op.as_str(), "Neg") {
                        return MirExpr::Int(-*v);
                    }
                },
                MirExpr::Bool(v) => {
                    if str_eq(op.as_str(), "Not") {
                        return MirExpr::Bool(!*v);
                    }
                },
                _ => {},
            }
            MirExpr::Unary { op, expr: Box::new(f) }
        },
        MirExpr::Call { callee, args } => MirExpr::Call {
            callee: Box::new(constant_fold_expr(*callee)),
            args: fold_all(args),
        },
        MirExpr::Index { object, index, object_is_str } => MirExpr::Index {
            object: Box::new(constant_fold_expr(*object)),
            index: Box::new(constant_fold_expr(*index)),
            object_is_str,
        },
        MirExpr::Member { object, field, object_type } => MirExpr::Member {
            object: Box::new(constant_fold_expr(*object)),
            field,
            object_type,
        },
        MirExpr::List(items) => MirExpr::List(fold_all(items)),
        MirExpr::MapLit(pairs) => MirExpr::MapLit(fold_pairs(pairs)),
        MirExpr::Slice { object, start, end, object_is_str } => {
            let o = constant_fold_expr(*object);
            let s = match start {
                Some(x) => Some(Box::new(constant_fold_expr(*x))),
                None => None,
            };
            let t = match end {
                Some(x) => Some(Box::new(constant_fold_expr(*x))),
                None => None,
            };
            MirExpr::Slice { object: Box::new(o), start: s, end: t, object_is_str }
        },
        MirExpr::Constructor { struct_name, fields } => MirExpr::Constructor {
            struct_name,
            fields: fold_named(fields),
        },
        MirExpr::Async { expr } => MirExpr::Async { expr: Box::new(constant_fold_expr(*expr)) },
        MirExpr::Await { expr } => MirExpr::Await { expr: Box::new(constant_fold_expr(*expr)) },
        MirExpr::Question { expr } => MirExpr::Question { expr: Box::new(constant_fold_expr(*expr)) },
        MirExpr::Old { expr } => MirExpr::Old { expr: Box::new(constant_fold_expr(*expr)) },
        other => other,
    }
}

} // verus!
