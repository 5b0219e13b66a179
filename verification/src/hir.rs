use vstd::prelude::*;

use crate::fmt::{is_whitespace, is_whitespace_spec};
use crate::text::{chars_of, push_str, str_eq, to_owned_string};

verus! {

/// A binary operator of the source language.
#[derive(Debug, Clone, Copy, PartialEq, Eq, Structural)]
pub enum BinaryOp {
    Add,
    Sub,
    Mul,
    Div,
    Mod,
    Eq,
    Ne,
    Lt,
    Le,
    Gt,
    Ge,
    And,
    Or,
    BitAnd,
    BitOr,
    BitXor,
    Shl,
    Shr,
}

/// A unary operator of the source language.
#[derive(Debug, Clone, Copy, PartialEq, Eq, Structural)]
pub enum UnaryOp {
    Neg,
    Not,
}

/// A type as written in the source (spaces normalized).
#[derive(Debug, Clone)]
pub struct TypeRef {
    pub raw: String,
}

/// The typed, lowered form of a program.
#[derive(Debug)]
pub struct HirProgram {
    pub functions: Vec<HirFunction>,
}

#[derive(Debug)]
pub struct HirFunction {
    pub name: String,
    pub is_public: bool,
    pub params: Vec<HirParam>,
    pub return_type: Option<TypeRef>,
    pub inferred_return_type: Option<String>,
    /// The effects the function declares, in sorted order, each once.
    pub effects_declared: Vec<String>,
    /// The effects found in its body, in sorted order, each once.
    pub effects_observed: Vec<String>,
    pub body: Vec<HirStmt>,
    pub tail_expr: Option<HirExpr>,
}

#[derive(Debug, Clone)]
pub struct HirParam {
    pub name: String,
    pub ty: Option<TypeRef>,
}

#[derive(Debug)]
pub enum HirStmt {
    Binding { name: String, expr: HirExpr },
    Assignment { target: HirExpr, expr: HirExpr },
    Return { expr: HirExpr },
    Expr { expr: HirExpr },
    For { var: String, iter: HirExpr, body: Vec<HirStmt> },
    If { cond: HirExpr, then_body: Vec<HirStmt>, else_body: Vec<HirStmt> },
    While { cond: HirExpr, body: Vec<HirStmt> },
    Repeat { count: HirExpr, body: Vec<HirStmt> },
    Select { cases: Vec<HirSelectCase> },
    Go { expr: HirExpr },
}

#[derive(Debug)]
pub struct HirSelectCase {
    pub pattern: HirSelectPattern,
    pub action: HirExpr,
}

#[derive(Debug)]
pub enum HirSelectPattern {
    Receive { binding: String, expr: HirExpr },
    After { duration_literal: String },
    Closed { ident: String },
    Default,
}

#[derive(Debug)]
pub enum HirExprKind {
    Ident(String),
    Int(i64),
    /// A float literal, carried as the bits of its IEEE 754 double.
    Float(u64),
    Bool(bool),
    String(String),
    List(Vec<HirExpr>),
    MapLit(Vec<(HirExpr, HirExpr)>),
    Member { object: Box<HirExpr>, field: String },
    Call { callee: Box<HirExpr>, args: Vec<HirExpr> },
    Binary { left: Box<HirExpr>, op: BinaryOp, right: Box<HirExpr> },
    Unary { op: UnaryOp, expr: Box<HirExpr> },
    Question { expr: Box<HirExpr> },
    DotResult,
    Old { expr: Box<HirExpr> },
}

#[derive(Debug)]
pub struct HirExpr {
    pub kind: HirExprKind,
    pub ty: String,
}

impl HirExpr {
    pub fn new(kind: HirExprKind, ty: &str) -> (r: Self)
        ensures
            r.kind == kind,
            r.ty@ == ty@,
    {
        HirExpr { kind, ty: to_owned_string(ty) }
    }
}

/// Every character is whitespace: the text trims to nothing.
pub open spec fn blank(s: Seq<char>) -> bool {
    forall|i: int| 0 <= i < s.len() ==> is_whitespace_spec(#[trigger] s[i])
}

/// Whether a text trims to nothing.
pub fn is_blank(s: &str) -> (r: bool)
    ensures
        r == blank(s@),
{
    let cs = chars_of(s);
    let mut i: usize = 0;
    while i < cs.len()
        invariant
            cs@ == s@,
            i <= cs@.len(),
            forall|j: int| 0 <= j < i ==> is_whitespace_spec(#[trigger] cs@[j]),
        decreases cs.len() - i,
    {
        if !is_whitespace(cs[i]) {
            return false;
        }
        i = i + 1;
    }
    true
}

/// The first of two results that is an error.
pub open spec fn first_error(a: Option<Seq<char>>, b: Option<Seq<char>>) -> Option<Seq<char>> {
    if a is Some {
        a
    } else {
        b
    }
}

/// The first problem of an expression, its parts checked depth first in
/// source order: a blank type, a blank identifier or a blank member name.
pub open spec fn expr_error(e: HirExpr) -> Option<Seq<char>>
    decreases e,
{
    if blank(e.ty@) {
        Some("empty expression type in HIR"@)
    } else {
        match e.kind {
            HirExprKind::Ident(n) => if blank(n@) {
                Some("empty identifier expression in HIR"@)
            } else {
                None
            },
            HirExprKind::List(items) => exprs_error(items@),
            HirExprKind::MapLit(entries) => pairs_error(entries@),
            HirExprKind::Member { object, field } => first_error(
                expr_error(*object),
                if blank(field@) {
                    Some("empty member field name in HIR"@)
                } else {
                    None
                },
            ),
            HirExprKind::Call { callee, args } => first_error(expr_error(*callee), exprs_error(args@)),
            HirExprKind::Binary { left, op: _, right } => first_error(
                expr_error(*left),
                expr_error(*right),
            ),
            HirExprKind::Unary { op: _, expr } => expr_error(*expr),
            HirExprKind::Question { expr } => expr_error(*expr),
            HirExprKind::Old { expr } => expr_error(*expr),
            _ => None,
        }
    }
}

/// The first problem of a list of expressions, in order.
pub open spec fn exprs_error(s: Seq<HirExpr>) -> Option<Seq<char>>
    decreases s,
{
    if s.len() == 0 {
        None
    } else {
        first_error(expr_error(s[0]), exprs_error(s.subrange(1, s.len() as int)))
    }
}

/// The first problem of a list of key/value pairs, each key before its value.
pub open spec fn pairs_error(s: Seq<(HirExpr, HirExpr)>) -> Option<Seq<char>>
    decreases s,
{
    if s.len() == 0 {
        None
    } else {
        first_error(
            first_error(expr_error(s[0].0), expr_error(s[0].1)),
            pairs_error(s.subrange(1, s.len() as int)),
        )
    }
}

/// The first problem of a statement, its parts checked in source order:
/// blank names of bindings, loop variables and select patterns, and the
/// problems of its expressions and nested blocks.
pub open spec fn stmt_error(st: HirStmt) -> Option<Seq<char>>
    decreases st,
{
    match st {
        HirStmt::Binding { name, expr } => if blank(name@) {
            Some("empty binding name in HIR"@)
        } else {
            expr_error(expr)
        },
        HirStmt::Assignment { target, expr } => first_error(expr_error(target), expr_error(expr)),
        HirStmt::Return { expr } => expr_error(expr),
        HirStmt::Expr { expr } => expr_error(expr),
        HirStmt::Go { expr } => expr_error(expr),
        HirStmt::For { var, iter, body } => if blank(var@) {
            Some("empty for-loop variable in HIR"@)
        } else {
            first_error(expr_error(iter), stmts_error(body@))
        },
        HirStmt::If { cond, then_body, else_body } => first_error(
            expr_error(cond),
            first_error(stmts_error(then_body@), stmts_error(else_body@)),
        ),
        HirStmt::While { cond, body } => first_error(expr_error(cond), stmts_error(body@)),
        HirStmt::Repeat { count, body } => first_error(expr_error(count), stmts_error(body@)),
        HirStmt::Select { cases } => cases_error(cases@),
    }
}

/// The first problem of a block, in order.
pub open spec fn stmts_error(s: Seq<HirStmt>) -> Option<Seq<char>>
    decreases s,
{
    if s.len() == 0 {
        None
    } else {
        first_error(stmt_error(s[0]), stmts_error(s.subrange(1, s.len() as int)))
    }
}

/// The first problem of a select case: its pattern, then its action.
pub open spec fn case_error(c: HirSelectCase) -> Option<Seq<char>>
    decreases c,
{
    first_error(
        match c.pattern {
            HirSelectPattern::Receive { binding, expr } => if blank(binding@) {
                Some("empty select receive binding in HIR"@)
            } else {
                expr_error(expr)
            },
            HirSelectPattern::After { duration_literal } => if blank(duration_literal@) {
                Some("empty duration literal in select after"@)
            } else {
                None
            },
            HirSelectPattern::Closed { ident } => if blank(ident@) {
                Some("empty identifier in select closed pattern"@)
            } else {
                None
            },
            HirSelectPattern::Default => None,
        },
        expr_error(c.action),
    )
}

/// The first problem of the cases of a select, in order.
pub open spec fn cases_error(s: Seq<HirSelectCase>) -> Option<Seq<char>>
    decreases s,
{
    if s.len() == 0 {
        None
    } else {
        first_error(case_error(s[0]), cases_error(s.subrange(1, s.len() as int)))
    }
}

/// The first problem of the functions `fs`, given the names `seen` of the
/// functions before them: a blank name, a name seen before, then the
/// problems of the body and of the tail expression.
pub open spec fn functions_error(fs: Seq<HirFunction>, seen: Seq<Seq<char>>) -> Option<Seq<char>>
    decreases fs.len(),
{
    if fs.len() == 0 {
        None
    } else {
        let f = fs[0];
        if blank(f.name@) {
            Some("empty function name in HIR"@)
        } else if seen.contains(f.name@) {
            Some("duplicate function `"@ + f.name@ + "` in HIR"@)
        } else {
            first_error(
                first_error(
                    stmts_error(f.body@),
                    match f.tail_expr {
                        Some(t) => expr_error(t),
                        None => None,
                    },
                ),
                functions_error(fs.subrange(1, fs.len() as int), seen.push(f.name@)),
            )
        }
    }
}

/// The first problem of a program, as `verify_hir` reports it.
pub open spec fn hir_error(program: HirProgram) -> Option<Seq<char>> {
    functions_error(program.functions@, Seq::empty())
}

/// `r` reports `err`: `Ok` when there is none, else its message.
pub open spec fn reports(r: Result<(), String>, err: Option<Seq<char>>) -> bool {
    match r {
        Ok(_) => err is None,
        Err(e) => err == Some(e@),
    }
}

pub(crate) fn fail(msg: &str) -> (r: Result<(), String>)
    ensures
        r matches Err(e) && e@ == msg@,
{
    Err(to_owned_string(msg))
}

fn check_expr(e: &HirExpr) -> (r: Result<(), String>)
    ensures
        reports(r, expr_error(*e)),
    decreases e,
{
    if is_blank(e.ty.as_str()) {
        return fail("empty expression type in HIR");
    }
    match &e.kind {
        HirExprKind::Ident(n) => {
            if is_blank(n.as_str()) {
                return fail("empty identifier expression in HIR");
            }
            Ok(())
        },
        HirExprKind::List(items) => check_exprs(items),
        HirExprKind::MapLit(entries) => check_pairs(entries),
        HirExprKind::Member { object, field } => {
            let r = check_expr(object);
            if r.is_err() {
                return r;
            }
            if is_blank(field.as_str()) {
                return fail("empty member field name in HIR");
            }
            Ok(())
        },
        HirExprKind::Call { callee, args } => {
            let r = check_expr(callee);
            if r.is_err() {
                return r;
            }
            check_exprs(args)
        },
        HirExprKind::Binary { left, op: _, right } => {
            let r = check_expr(left);
            if r.is_err() {
                return r;
            }
            check_expr(right)
        },
        HirExprKind::Unary { op: _, expr } => check_expr(expr),
        HirExprKind::Question { expr } => check_expr(expr),
        HirExprKind::Old { expr } => check_expr(expr),
        _ => Ok(()),
    }
}

fn check_exprs(items: &Vec<HirExpr>) -> (r: Result<(), String>)
    ensures
        reports(r, exprs_error(items@)),
    decreases items,
{
    let ghost s = items@;
    let mut i: usize = 0;
    assert(s.subrange(0, s.len() as int) =~= s);
    while i < items.len()
        invariant
            s == items@,
            i <= s.len(),
            exprs_error(s) == exprs_error(s.subrange(i as int, s.len() as int)),
        decreases items.len() - i,
    {
        let ghost t = s.subrange(i as int, s.len() as int);
        assert(t[0] == s[i as int]);
        assert(t.subrange(1, t.len() as int) =~= s.subrange(i + 1, s.len() as int));
        let r = check_expr(&items[i]);
        if r.is_err() {
            return r;
        }
        i = i + 1;
    }
    Ok(())
}

fn check_pairs(items: &Vec<(HirExpr, HirExpr)>) -> (r: Result<(), String>)
    ensures
        reports(r, pairs_error(items@)),
    decreases items,
{
    let ghost s = items@;
    let mut i: usize = 0;
    assert(s.subrange(0, s.len() as int) =~= s);
    while i < items.len()
        invariant
            s == items@,
            i <= s.len(),
            pairs_error(s) == pairs_error(s.subrange(i as int, s.len() as int)),
        decreases items.len() - i,
    {
        let ghost t = s.subrange(i as int, s.len() as int);
        assert(t[0] == s[i as int]);
        assert(t.subrange(1, t.len() as int) =~= s.subrange(i + 1, s.len() as int));
        let r = check_expr(&items[i].0);
        if r.is_err() {
            return r;
        }
        let r = check_expr(&items[i].1);
        if r.is_err() {
            return r;
        }
        i = i + 1;
    }
    Ok(())
}

fn check_stmt(st: &HirStmt) -> (r: Result<(), String>)
    ensures
        reports(r, stmt_error(*st)),
    decreases st,
{
    match st {
        HirStmt::Binding { name, expr } => {
            if is_blank(name.as_str()) {
                return fail("empty binding name in HIR");
            }
            check_expr(expr)
        },
        HirStmt::Assignment { target, expr } => {
            let r = check_expr(target);
            if r.is_err() {
                return r;
            }
            check_expr(expr)
        },
        HirStmt::Return { expr } => check_expr(expr),
        HirStmt::Expr { expr } => check_expr(expr),
        HirStmt::Go { expr } => check_expr(expr),
        HirStmt::For { var, iter, body } => {
            if is_blank(var.as_str()) {
                return fail("empty for-loop variable in HIR");
            }
            let r = check_expr(iter);
            if r.is_err() {
                return r;
            }
            check_stmts(body)
        },
        HirStmt::If { cond, then_body, else_body } => {
            let r = check_expr(cond);
            if r.is_err() {
                return r;
            }
            let r = check_stmts(then_body);
            if r.is_err() {
                return r;
            }
            check_stmts(else_body)
        },
        HirStmt::While { cond, body } => {
            let r = check_expr(cond);
            if r.is_err() {
                return r;
            }
            check_stmts(body)
        },
        HirStmt::Repeat { count, body } => {
            let r = check_expr(count);
            if r.is_err() {
                return r;
            }
            check_stmts(body)
        },
        HirStmt::Select { cases } => check_cases(cases),
    }
}

fn check_stmts(items: &Vec<HirStmt>) -> (r: Result<(), String>)
    ensures
        reports(r, stmts_error(items@)),
    decreases items,
{
    let ghost s = items@;
    let mut i: usize = 0;
    assert(s.subrange(0, s.len() as int) =~= s);
    while i < items.len()
        invariant
            s == items@,
            i <= s.len(),
            stmts_error(s) == stmts_error(s.subrange(i as int, s.len() as int)),
        decreases items.len() - i,
    {
        let ghost t = s.subrange(i as int, s.len() as int);
        assert(t[0] == s[i as int]);
        assert(t.subrange(1, t.len() as int) =~= s.subrange(i + 1, s.len() as int));
        let r = check_stmt(&items[i]);
        if r.is_err() {
            return r;
        }
        i = i + 1;
    }
    Ok(())
}

fn check_case(c: &HirSelectCase) -> (r: Result<(), String>)
    ensures
        reports(r, case_error(*c)),
    decreases c,
{
    match &c.pattern {
        HirSelectPattern::Receive { binding, expr } => {
            if is_blank(binding.as_str()) {
                return fail("empty select receive binding in HIR");
            }
            let r = check_expr(expr);
            if r.is_err() {
                return r;
            }
        },
        HirSelectPattern::After { duration_literal } => {
            if is_blank(duration_literal.as_str()) {
                return fail("empty duration literal in select after");
            }
        },
        HirSelectPattern::Closed { ident } => {
            if is_blank(ident.as_str()) {
                return fail("empty identifier in select closed pattern");
            }
        },
        HirSelectPattern::Default => {},
    }
    check_expr(&c.action)
}

fn check_cases(items: &Vec<HirSelectCase>) -> (r: Result<(), String>)
    ensures
        reports(r, cases_error(items@)),
    decreases items,
{
    let ghost s = items@;
    let mut i: usize = 0;
    assert(s.subrange(0, s.len() as int) =~= s);
    while i < items.len()
        invariant
            s == items@,
            i <= s.len(),
            cases_error(s) == cases_error(s.subrange(i as int, s.len() as int)),
        decreases items.len() - i,
    {
        let ghost t = s.subrange(i as int, s.len() as int);
        assert(t[0] == s[i as int]);
        assert(t.subrange(1, t.len() as int) =~= s.subrange(i + 1, s.len() as int));
        let r = check_case(&items[i]);
        if r.is_err() {
            return r;
        }
        i = i + 1;
    }
    Ok(())
}

pub(crate) fn contains_name(names: &Vec<String>, name: &str) -> (r: bool)
    ensures
        r == crate::order::views(names@).contains(name@),
{
    let mut i: usize = 0;
    while i < names.len()
        invariant
            i <= names@.len(),
            forall|j: int| 0 <= j < i ==> names@[j]@ != name@,
        decreases names.len() - i,
    {
        if str_eq(names[i].as_str(), name) {
            assert(crate::order::views(names@)[i as int] == name@);
            return true;
        }
        i = i + 1;
    }
    assert forall|j: int| 0 <= j < crate::order::views(names@).len() implies crate::order::views(
        names@,
    )[j] != name@ by {
        assert(names@[j]@ != name@);
    }
    false
}

/// Checks a program's structure: function names present and distinct,
/// and no blank name, type or identifier in any statement or expression.
/// The first problem, in source order, is reported.
pub fn verify_hir(program: &HirProgram) -> (r: Result<(), String>)
    ensures
        reports(r, hir_error(*program)),
{
    let ghost fs = program.functions@;
    let mut seen: Vec<String> = Vec::new();
    let mut i: usize = 0;
    assert(fs.subrange(0, fs.len() as int) =~= fs);
    assert(crate::order::views(seen@) =~= Seq::<Seq<char>>::empty());
    while i < program.functions.len()
        invariant
            fs == program.functions@,
            i <= fs.len(),
            hir_error(*program) == functions_error(
                fs.subrange(i as int, fs.len() as int),
                crate::order::views(seen@),
            ),
        decreases program.functions.len() - i,
    {
        let f = &program.functions[i];
        let ghost t = fs.subrange(i as int, fs.len() as int);
        assert(t[0] == *f);
        assert(t.subrange(1, t.len() as int) =~= fs.subrange(i + 1, fs.len() as int));
        if is_blank(f.name.as_str()) {
            return fail("empty function name in HIR");
        }
        if contains_name(&seen, f.name.as_str()) {
            let mut msg = to_owned_string("duplicate function `");
            push_str(&mut msg, f.name.as_str());
            push_str(&mut msg, "` in HIR");
            return Err(msg);
        }
        let r = check_stmts(&f.body);
        if r.is_err() {
            return r;
        }
        match &f.tail_expr {
            Some(t) => {
                let r = check_expr(t);
                if r.is_err() {
                    return r;
                }
            },
            None => {},
        }
        let ghost before = crate::order::views(seen@);
        seen.push(to_owned_string(f.name.as_str()));
        assert(crate::order::views(seen@) =~= before.push(f.name@));
        i = i + 1;
    }
    Ok(())
}

} // verus!
