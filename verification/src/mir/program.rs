use vstd::prelude::*;

use crate::hir::{blank, contains_name, fail, first_error, is_blank, reports};
use crate::mir::{MirContractKind, MirForIterKind, MirParam, MirType};
use crate::text::{push_str, to_owned_string};

verus! {

/// A lowered program.
#[derive(Debug)]
pub struct MirProgram {
    pub functions: Vec<MirFunction>,
}

#[derive(Debug)]
pub struct MirFunction {
    pub name: String,
    pub is_public: bool,
    pub params: Vec<MirParam>,
    pub return_type: MirType,
    pub body: Vec<MirStmt>,
    pub native_symbol: Option<String>,
}

#[derive(Debug)]
pub enum MirStmt {
    Let { name: String, expr: MirExpr },
    Assign { name: String, expr: MirExpr },
    Expr(MirExpr),
    Return(MirExpr),
    For { var: String, iter: MirExpr, iter_kind: MirForIterKind, body: Vec<MirStmt> },
    If { cond: MirExpr, then_body: Vec<MirStmt>, else_body: Vec<MirStmt> },
    While { cond: MirExpr, body: Vec<MirStmt> },
    Repeat { count: MirExpr, body: Vec<MirStmt> },
    Break,
    Continue,
    Select { cases: Vec<MirSelectCase> },
    Go(MirExpr),
    Thread(MirExpr),
    ContractCheck { kind: MirContractKind, expr: MirExpr },
    Match { scrutinee: MirExpr, arms: Vec<MirMatchArm>, default_action: Option<MirExpr> },
}

#[derive(Debug)]
pub struct MirMatchArm {
    pub pattern: MirExpr,
    pub action: MirExpr,
}

#[derive(Debug)]
pub struct MirSelectCase {
    pub pattern: MirSelectPattern,
    pub action: MirExpr,
}

#[derive(Debug)]
pub enum MirSelectPattern {
    Receive { binding: String, source: MirExpr },
    After { duration_literal: String },
    Closed { ident: String },
    Default,
}

#[derive(Debug)]
pub enum MirExpr {
    Var(String),
    Int(i64),
    /// A float literal, carried as the bits of its IEEE 754 double.
    Float(u64),
    Bool(bool),
    Str(String),
    List(Vec<MirExpr>),
    MapLit(Vec<(MirExpr, MirExpr)>),
    Member { object: Box<MirExpr>, field: String, object_type: Option<String> },
    Index { object: Box<MirExpr>, index: Box<MirExpr>, object_is_str: bool },
    Slice {
        object: Box<MirExpr>,
        start: Option<Box<MirExpr>>,
        end: Option<Box<MirExpr>>,
        object_is_str: bool,
    },
    Call { callee: Box<MirExpr>, args: Vec<MirExpr> },
    Binary { left: Box<MirExpr>, op: String, right: Box<MirExpr> },
    Unary { op: String, expr: Box<MirExpr> },
    Async { expr: Box<MirExpr> },
    Await { expr: Box<MirExpr> },
    Question { expr: Box<MirExpr> },
    ResultOk { expr: Box<MirExpr> },
    ResultErr { expr: Box<MirExpr> },
    DotResult,
    Old { expr: Box<MirExpr> },
    Constructor { struct_name: String, fields: Vec<(String, MirExpr)> },
    /// A tagged enum value: the tag, then the payload fields.
    EnumVariant { enum_name: String, variant: String, payload: Vec<(String, MirExpr)> },
    /// Binds a field of the scrutinee to a local, inside a `match` arm's pattern.
    PatternBind { bind_as: Option<String> },
    MakeClosure { closure_fn: String, captures: Vec<MirExpr> },
    EnvLoad { slot: u32, ty: MirType },
    ClosureCall {
        closure: Box<MirExpr>,
        args: Vec<MirExpr>,
        /// The parameter types of the callee, without its environment.
        user_param_tys: Vec<MirType>,
        ret_ty: MirType,
    },
}

/// The first problem of an expression, its parts checked depth first in
/// source order: a blank variable or member name, or a closure call whose
/// argument count differs from its signature's.
pub open spec fn mexpr_error(e: MirExpr) -> Option<Seq<char>>
    decreases e,
{
    match e {
        MirExpr::Var(n) => if blank(n@) {
            Some("empty variable expression in MIR"@)
        } else {
            None
        },
        MirExpr::List(items) => mexprs_error(items@),
        MirExpr::MapLit(entries) => mpairs_error(entries@),
        MirExpr::Member { object, field, object_type: _ } => first_error(
            mexpr_error(*object),
            if blank(field@) {
                Some("empty member field in MIR"@)
            } else {
                None
            },
        ),
        MirExpr::Index { object, index, object_is_str: _ } => first_error(
            mexpr_error(*object),
            mexpr_error(*index),
        ),
        MirExpr::Slice { object, start, end, object_is_str: _ } => first_error(
            mexpr_error(*object),
            first_error(
                match start {
                    Some(s) => mexpr_error(*s),
                    None => None,
                },
                match end {
                    Some(x) => mexpr_error(*x),
                    None => None,
                },
            ),
        ),
        MirExpr::Call { callee, args } => first_error(mexpr_error(*callee), mexprs_error(args@)),
        MirExpr::Binary { left, op: _, right } => first_error(mexpr_error(*left), mexpr_error(*right)),
        MirExpr::Unary { op: _, expr } => mexpr_error(*expr),
        MirExpr::Async { expr } => mexpr_error(*expr),
        MirExpr::Await { expr } => mexpr_error(*expr),
        MirExpr::Question { expr } => mexpr_error(*expr),
        MirExpr::ResultOk { expr } => mexpr_error(*expr),
        MirExpr::ResultErr { expr } => mexpr_error(*expr),
        MirExpr::Old { expr } => mexpr_error(*expr),
        MirExpr::Constructor { struct_name: _, fields } => named_error(fields@),
        MirExpr::EnumVariant { enum_name: _, variant: _, payload } => named_error(payload@),
        MirExpr::MakeClosure { closure_fn: _, captures } => mexprs_error(captures@),
        MirExpr::ClosureCall { closure, args, user_param_tys, ret_ty: _ } => first_error(
            first_error(mexpr_error(*closure), mexprs_error(args@)),
            if user_param_tys@.len() != args@.len() {
                Some("closure call arg count mismatch vs signature"@)
            } else {
                None
            },
        ),
        _ => None,
    }
}

/// The first problem of a list of expressions, in order.
pub open spec fn mexprs_error(s: Seq<MirExpr>) -> Option<Seq<char>>
    decreases s,
{
    if s.len() == 0 {
        None
    } else {
        first_error(mexpr_error(s[0]), mexprs_error(s.subrange(1, s.len() as int)))
    }
}

/// The first problem of a list of key/value pairs, each key before its value.
pub open spec fn mpairs_error(s: Seq<(MirExpr, MirExpr)>) -> Option<Seq<char>>
    decreases s,
{
    if s.len() == 0 {
        None
    } else {
        first_error(
            first_error(mexpr_error(s[0].0), mexpr_error(s[0].1)),
            mpairs_error(s.subrange(1, s.len() as int)),
        )
    }
}

/// The first problem of the values of named fields, in order.
pub open spec fn named_error(s: Seq<(String, MirExpr)>) -> Option<Seq<char>>
    decreases s,
{
    if s.len() == 0 {
        None
    } else {
        first_error(mexpr_error(s[0].1), named_error(s.subrange(1, s.len() as int)))
    }
}

/// The first problem of a statement, its parts checked in source order.
pub open spec fn mstmt_error(st: MirStmt) -> Option<Seq<char>>
    decreases st,
{
    match st {
        MirStmt::Let { name, expr } => if blank(name@) {
            Some("empty binding name in MIR"@)
        } else {
            mexpr_error(expr)
        },
        MirStmt::Assign { name, expr } => if blank(name@) {
            Some("empty assignment target in MIR"@)
        } else {
            mexpr_error(expr)
        },
        MirStmt::Expr(e) => mexpr_error(e),
        MirStmt::Return(e) => mexpr_error(e),
        MirStmt::Go(e) => mexpr_error(e),
        MirStmt::Thread(e) => mexpr_error(e),
        MirStmt::ContractCheck { kind: _, expr } => mexpr_error(expr),
        MirStmt::For { var, iter, iter_kind: _, body } => if blank(var@) {
            Some("empty for-loop variable in MIR"@)
        } else {
            first_error(mexpr_error(iter), mstmts_error(body@))
        },
        MirStmt::If { cond, then_body, else_body } => first_error(
            mexpr_error(cond),
            first_error(mstmts_error(then_body@), mstmts_error(else_body@)),
        ),
        MirStmt::While { cond, body } => first_error(mexpr_error(cond), mstmts_error(body@)),
        MirStmt::Repeat { count, body } => first_error(mexpr_error(count), mstmts_error(body@)),
        MirStmt::Break => None,
        MirStmt::Continue => None,
        MirStmt::Select { cases } => mcases_error(cases@),
        MirStmt::Match { scrutinee, arms, default_action } => first_error(
            mexpr_error(scrutinee),
            first_error(
                arms_error(arms@),
                match default_action {
                    Some(d) => mexpr_error(d),
                    None => None,
                },
            ),
        ),
    }
}

/// The first problem of a block, in order.
pub open spec fn mstmts_error(s: Seq<MirStmt>) -> Option<Seq<char>>
    decreases s,
{
    if s.len() == 0 {
        None
    } else {
        first_error(mstmt_error(s[0]), mstmts_error(s.subrange(1, s.len() as int)))
    }
}

/// The first problem of a select case: its pattern, then its action.
pub open spec fn mcase_error(c: MirSelectCase) -> Option<Seq<char>>
    decreases c,
{
    first_error(
        match c.pattern {
            MirSelectPattern::Receive { binding, source } => if blank(binding@) {
                Some("empty select receive binding in MIR"@)
            } else {
                mexpr_error(source)
            },
            MirSelectPattern::After { duration_literal } => if blank(duration_literal@) {
                Some("empty select after duration in MIR"@)
            } else {
                None
            },
            MirSelectPattern::Closed { ident } => if blank(ident@) {
                Some("empty select closed identifier in MIR"@)
            } else {
                None
            },
            MirSelectPattern::Default => None,
        },
        mexpr_error(c.action),
    )
}

/// The first problem of the cases of a select, in order.
pub open spec fn mcases_error(s: Seq<MirSelectCase>) -> Option<Seq<char>>
    decreases s,
{
    if s.len() == 0 {
        None
    } else {
        first_error(mcase_error(s[0]), mcases_error(s.subrange(1, s.len() as int)))
    }
}

/// The first problem of the arms of a match: each pattern, then its action.
pub open spec fn arms_error(s: Seq<MirMatchArm>) -> Option<Seq<char>>
    decreases s,
{
    if s.len() == 0 {
        None
    } else {
        first_error(
            first_error(mexpr_error(s[0].pattern), mexpr_error(s[0].action)),
            arms_error(s.subrange(1, s.len() as int)),
        )
    }
}

/// The first problem of the functions `fs`, given the names `seen` of the
/// functions before them: a blank name, a name seen before, then the
/// problems of the body.
pub open spec fn mfunctions_error(fs: Seq<MirFunction>, seen: Seq<Seq<char>>) -> Option<Seq<char>>
    decreases fs.len(),
{
    if fs.len() == 0 {
        None
    } else {
        let f = fs[0];
        if blank(f.name@) {
            Some("empty function name in MIR"@)
        } else if seen.contains(f.name@) {
            Some("duplicate function `"@ + f.name@ + "` in MIR"@)
        } else {
            first_error(
                mstmts_error(f.body@),
                mfunctions_error(fs.subrange(1, fs.len() as int), seen.push(f.name@)),
            )
        }
    }
}

/// The first problem of a program, as `verify_mir` reports it.
pub open spec fn mir_error(program: MirProgram) -> Option<Seq<char>> {
    mfunctions_error(program.functions@, Seq::empty())
}

fn check_mexpr(e: &MirExpr) -> (r: Result<(), String>)
    ensures
        reports(r, mexpr_error(*e)),
    decreases e,
{
    match e {
        MirExpr::Var(n) => {
            if is_blank(n.as_str()) {
                return fail("empty variable expression in MIR");
            }
            Ok(())
        },
        MirExpr::List(items) => check_mexprs(items),
        MirExpr::MapLit(entries) => check_mpairs(entries),
        MirExpr::Member { object, field, object_type: _ } => {
            let r = check_mexpr(object);
            if r.is_err() {
                return r;
            }
            if is_blank(field.as_str()) {
                return fail("empty member field in MIR");
            }
            Ok(())
        },
        MirExpr::Index { object, index, object_is_str: _ } => {
            let r = check_mexpr(object);
            if r.is_err() {
                return r;
            }
            check_mexpr(index)
        },
        MirExpr::Slice { object, start, end, object_is_str: _ } => {
            let r = check_mexpr(object);
            if r.is_err() {
                return r;
            }
            match start {
                Some(x) => {
                    let r = check_mexpr(x);
                    if r.is_err() {
                        return r;
                    }
                },
                None => {},
            }
            match end {
                Some(x) => check_mexpr(x),
                None => Ok(()),
            }
        },
        MirExpr::Call { callee, args } => {
            let r = check_mexpr(callee);
            if r.is_err() {
                return r;
            }
            check_mexprs(args)
        },
        MirExpr::Binary { left, op: _, right } => {
            let r = check_mexpr(left);
            if r.is_err() {
                return r;
            }
            check_mexpr(right)
        },
        MirExpr::Unary { op: _, expr } => check_mexpr(expr),
        MirExpr::Async { expr } => check_mexpr(expr),
        MirExpr::Await { expr } => check_mexpr(expr),
        MirExpr::Question { expr } => check_mexpr(expr),
        MirExpr::ResultOk { expr } => check_mexpr(expr),
        MirExpr::ResultErr { expr } => check_mexpr(expr),
        MirExpr::Old { expr } => check_mexpr(expr),
        MirExpr::Constructor { struct_name: _, fields } => check_named(fields),
        MirExpr::EnumVariant { enum_name: _, variant: _, payload } => check_named(payload),
        MirExpr::MakeClosure { closure_fn: _, captures } => check_mexprs(captures),
        MirExpr::ClosureCall { closure, args, user_param_tys, ret_ty: _ } => {
            let r = check_mexpr(closure);
            if r.is_err() {
                return r;
            }
            let r = check_mexprs(args);
            if r.is_err() {
                return r;
            }
            if user_param_tys.len() != args.len() {
                return fail("closure call arg count mismatch vs signature");
            }
            Ok(())
        },
        _ => Ok(()),
    }
}

fn check_mexprs(items: &Vec<MirExpr>) -> (r: Result<(), String>)
    ensures
        reports(r, mexprs_error(items@)),
    decreases items,
{
    let ghost s = items@;
    let mut i: usize = 0;
    assert(s.subrange(0, s.len() as int) =~= s);
    while i < items.len()
        invariant
            s == items@,
            i <= s.len(),
            mexprs_error(s) == mexprs_error(s.subrange(i as int, s.len() as int)),
        decreases items.len() - i,
    {
        let ghost t = s.subrange(i as int, s.len() as int);
        assert(t[0] == s[i as int]);
        assert(t.subrange(1, t.len() as int) =~= s.subrange(i + 1, s.len() as int));
        let r = check_mexpr(&items[i]);
        if r.is_err() {
            return r;
        }
        i = i + 1;
    }
    Ok(())
}

fn check_mpairs(items: &Vec<(MirExpr, MirExpr)>) -> (r: Result<(), String>)
    ensures
        reports(r, mpairs_error(items@)),
    decreases items,
{
    let ghost s = items@;
    let mut i: usize = 0;
    assert(s.subrange(0, s.len() as int) =~= s);
    while i < items.len()
        invariant
            s == items@,
            i <= s.len(),
            mpairs_error(s) == mpairs_error(s.subrange(i as int, s.len() as int)),
        decreases items.len() - i,
    {
        let ghost t = s.subrange(i as int, s.len() as int);
        assert(t[0] == s[i as int]);
        assert(t.subrange(1, t.len() as int) =~= s.subrange(i + 1, s.len() as int));
        let r = check_mexpr(&items[i].0);
        if r.is_err() {
            return r;
        }
        let r = check_mexpr(&items[i].1);
        if r.is_err() {
            return r;
        }
        i = i + 1;
    }
    Ok(())
}

fn check_named(items: &Vec<(String, MirExpr)>) -> (r: Result<(), String>)
    ensures
        reports(r, named_error(items@)),
    decreases items,
{
    let ghost s = items@;
    let mut i: usize = 0;
    assert(s.subrange(0, s.len() as int) =~= s);
    while i < items.len()
        invariant
            s == items@,
            i <= s.len(),
            named_error(s) == named_error(s.subrange(i as int, s.len() as int)),
        decreases items.len() - i,
    {
        let ghost t = s.subrange(i as int, s.len() as int);
        assert(t[0] == s[i as int]);
        assert(t.subrange(1, t.len() as int) =~= s.subrange(i + 1, s.len() as int));
        let r = check_mexpr(&items[i].1);
        if r.is_err() {
            return r;
        }
        i = i + 1;
    }
    Ok(())
}

fn check_mstmt(st: &MirStmt) -> (r: Result<(), String>)
    ensures
        reports(r, mstmt_error(*st)),
    decreases st,
{
    match st {
        MirStmt::Let { name, expr } => {
            if is_blank(name.as_str()) {
                return fail("empty binding name in MIR");
            }
            check_mexpr(expr)
        },
        MirStmt::Assign { name, expr } => {
            if is_blank(name.as_str()) {
                return fail("empty assignment target in MIR");
            }
            check_mexpr(expr)
        },
        MirStmt::Expr(e) => check_mexpr(e),
        MirStmt::Return(e) => check_mexpr(e),
        MirStmt::Go(e) => check_mexpr(e),
        MirStmt::Thread(e) => check_mexpr(e),
        MirStmt::ContractCheck { kind: _, expr } => check_mexpr(expr),
        MirStmt::For { var, iter, iter_kind: _, body } => {
            if is_blank(var.as_str()) {
                return fail("empty for-loop variable in MIR");
            }
            let r = check_mexpr(iter);
            if r.is_err() {
                return r;
            }
            check_mstmts(body)
        },
        MirStmt::If { cond, then_body, else_body } => {
            let r = check_mexpr(cond);
            if r.is_err() {
                return r;
            }
            let r = check_mstmts(then_body);
            if r.is_err() {
                return r;
            }
            check_mstmts(else_body)
        },
        MirStmt::While { cond, body } => {
            let r = check_mexpr(cond);
            if r.is_err() {
                return r;
            }
            check_mstmts(body)
        },
        MirStmt::Repeat { count, body } => {
            let r = check_mexpr(count);
            if r.is_err() {
                return r;
            }
            check_mstmts(body)
        },
        MirStmt::Break => Ok(()),
        MirStmt::Continue => Ok(()),
        MirStmt::Select { cases } => check_mcases(cases),
        MirStmt::Match { scrutinee, arms, default_action } => {
            let r = check_mexpr(scrutinee);
            if r.is_err() {
                return r;
            }
            let r = check_arms(arms);
            if r.is_err() {
                return r;
            }
            match default_action {
                Some(d) => check_mexpr(d),
                None => Ok(()),
            }
        },
    }
}

fn check_mcase(c: &MirSelectCase) -> (r: Result<(), String>)
    ensures
        reports(r, mcase_error(*c)),
    decreases c,
{
    match &c.pattern {
        MirSelectPattern::Receive { binding, source } => {
            if is_blank(binding.as_str()) {
                return fail("empty select receive binding in MIR");
            }
            let r = check_mexpr(source);
            if r.is_err() {
                return r;
            }
        },
        MirSelectPattern::After { duration_literal } => {
            if is_blank(duration_literal.as_str()) {
                return fail("empty select after duration in MIR");
            }
        },
        MirSelectPattern::Closed { ident } => {
            if is_blank(ident.as_str()) {
                return fail("empty select closed identifier in MIR");
            }
        },
        MirSelectPattern::Default => {},
    }
    check_mexpr(&c.action)
}

fn check_mstmts(items: &Vec<MirStmt>) -> (r: Result<(), String>)
    ensures
        reports(r, mstmts_error(items@)),
    decreases items,
{
    let ghost s = items@;
    let mut i: usize = 0;
    assert(s.subrange(0, s.len() as int) =~= s);
    while i < items.len()
        invariant
            s == items@,
            i <= s.len(),
            mstmts_error(s) == mstmts_error(s.subrange(i as int, s.len() as int)),
        decreases items.len() - i,
    {
        let ghost t = s.subrange(i as int, s.len() as int);
        assert(t[0] == s[i as int]);
        assert(t.subrange(1, t.len() as int) =~= s.subrange(i + 1, s.len() as int));
        let r = check_mstmt(&items[i]);
        if r.is_err() {
            return r;
        }
        i = i + 1;
    }
    Ok(())
}

fn check_mcases(items: &Vec<MirSelectCase>) -> (r: Result<(), String>)
    ensures
        reports(r, mcases_error(items@)),
    decreases items,
{
    let ghost s = items@;
    let mut i: usize = 0;
    assert(s.subrange(0, s.len() as int) =~= s);
    while i < items.len()
        invariant
            s == items@,
            i <= s.len(),
            mcases_error(s) == mcases_error(s.subrange(i as int, s.len() as int)),
        decreases items.len() - i,
    {
        let ghost t = s.subrange(i as int, s.len() as int);
        assert(t[0] == s[i as int]);
        assert(t.subrange(1, t.len() as int) =~= s.subrange(i + 1, s.len() as int));
        let r = check_mcase(&items[i]);
        if r.is_err() {
            return r;
        }
        i = i + 1;
    }
    Ok(())
}

fn check_arms(items: &Vec<MirMatchArm>) -> (r: Result<(), String>)
    ensures
        reports(r, arms_error(items@)),
    decreases items,
{
    let ghost s = items@;
    let mut i: usize = 0;
    assert(s.subrange(0, s.len() as int) =~= s);
    while i < items.len()
        invariant
            s == items@,
            i <= s.len(),
            arms_error(s) == arms_error(s.subrange(i as int, s.len() as int)),
        decreases items.len() - i,
    {
        let ghost t = s.subrange(i as int, s.len() as int);
        assert(t[0] == s[i as int]);
        assert(t.subrange(1, t.len() as int) =~= s.subrange(i + 1, s.len() as int));
        let r = check_mexpr(&items[i].pattern);
        if r.is_err() {
            return r;
        }
        let r = check_mexpr(&items[i].action);
        if r.is_err() {
            return r;
        }
        i = i + 1;
    }
    Ok(())
}

/// Checks a lowered program's structure: function names present and
/// distinct, no blank binding, variable, field or pattern name, and closure
/// calls with as many arguments as their signature. The first problem, in
/// source order, is reported.
pub fn verify_mir(program: &MirProgram) -> (r: Result<(), String>)
    ensures
        reports(r, mir_error(*program)),
{
    let ghost fs = program.functions@;
    let mut seen: Vec<String> = Vec::new();
    let mut i: usize = 0;
    assert(fs.subrange(0, fs.len() as int) =~= fs);
    assert(crate::order::views(seen@) =~= Seq::<Seq<char>>::empty());
    while i < program.functions.len()
        invariant
            fs == program.functions@,
            i <= fs.len(),
            mir_error(*program) == mfunctions_error(
                fs.subrange(i as int, fs.len() as int),
                crate::order::views(seen@),
            ),
        decreases program.functions.len() - i,
    {
        let f = &program.functions[i];
        let ghost t = fs.subrange(i as int, fs.len() as int);
        assert(t[0] == *f);
        assert(t.subrange(1, t.len() as int) =~= fs.subrange(i + 1, fs.len() as int));
        if is_blank(f.name.as_str()) {
            return fail("empty function name in MIR");
        }
        if contains_name(&seen, f.name.as_str()) {
            let mut msg = to_owned_string("duplicate function `");
            push_str(&mut msg, f.name.as_str());
            push_str(&mut msg, "` in MIR");
            return Err(msg);
        }
        let r = check_mstmts(&f.body);
        if r.is_err() {
            return r;
        }
        let ghost before = crate::order::views(seen@);
        seen.push(to_owned_string(f.name.as_str()));
        assert(crate::order::views(seen@) =~= before.push(f.name@));
        i = i + 1;
    }
    Ok(())
}

} // verus!
