use vstd::prelude::*;

use crate::diagnostics::Span;
use crate::hir::{BinaryOp, UnaryOp};

verus! {

/// A type as written in the source: its tokens' text.
#[derive(Debug, Clone, PartialEq, Eq)]
pub struct TypeRef {
    pub raw: String,
}

/// A parameter of a function or of a function literal.
#[derive(Debug)]
pub struct Param {
    pub name: String,
    pub ty: Option<TypeRef>,
    pub is_mut: bool,
    pub span: Span,
}

/// A source expression. A float literal keeps its text.
#[derive(Debug)]
pub enum Expr {
    Ident { name: String, span: Span },
    Int { value: i64, span: Span },
    Float { text: String, span: Span },
    Bool { value: bool, span: Span },
    String { value: String, span: Span },
    DotResult { span: Span },
    FnLiteral {
        params: Vec<Param>,
        return_type: Option<TypeRef>,
        body: Vec<Stmt>,
        tail_expr: Option<Box<Expr>>,
        span: Span,
    },
    EnumVariant { enum_name: String, variant: String, fields: Vec<(String, Expr)>, span: Span },
    Call { callee: Box<Expr>, args: Vec<Expr>, span: Span },
    Member { object: Box<Expr>, field: String, span: Span },
    Unary { op: UnaryOp, expr: Box<Expr>, span: Span },
    Async { expr: Box<Expr>, span: Span },
    Await { expr: Box<Expr>, span: Span },
    Question { expr: Box<Expr>, span: Span },
    Old { expr: Box<Expr>, span: Span },
    Index { object: Box<Expr>, index: Box<Expr>, span: Span },
    Slice {
        object: Box<Expr>,
        start: Option<Box<Expr>>,
        end: Option<Box<Expr>>,
        span: Span,
    },
    Binary { left: Box<Expr>, op: BinaryOp, right: Box<Expr>, span: Span },
    List { items: Vec<Expr>, span: Span },
    MapLit { entries: Vec<(Expr, Expr)>, span: Span },
    Constructor { struct_name: String, fields: Vec<(String, Expr)>, span: Span },
}

/// Where an expression stands in the source.
pub open spec fn expr_span(e: Expr) -> Span {
    match e {
        Expr::Ident { span, .. } => span,
        Expr::Int { span, .. } => span,
        Expr::Float { span, .. } => span,
        Expr::Bool { span, .. } => span,
        Expr::String { span, .. } => span,
        Expr::DotResult { span } => span,
        Expr::FnLiteral { span, .. } => span,
        Expr::EnumVariant { span, .. } => span,
        Expr::Call { span, .. } => span,
        Expr::Member { span, .. } => span,
        Expr::Unary { span, .. } => span,
        Expr::Async { span, .. } => span,
        Expr::Await { span, .. } => span,
        Expr::Question { span, .. } => span,
        Expr::Old { span, .. } => span,
        Expr::Index { span, .. } => span,
        Expr::Slice { span, .. } => span,
        Expr::Binary { span, .. } => span,
        Expr::List { span, .. } => span,
        Expr::MapLit { span, .. } => span,
        Expr::Constructor { span, .. } => span,
    }
}

impl Expr {
    /// Where the expression stands in the source.
    pub fn span(&self) -> (r: Span)
        ensures
            r == expr_span(*self),
    {
        match self {
            Expr::Ident { span, .. } => *span,
            Expr::Int { span, .. } => *span,
            Expr::Float { span, .. } => *span,
            Expr::Bool { span, .. } => *span,
            Expr::String { span, .. } => *span,
            Expr::DotResult { span } => *span,
            Expr::FnLiteral { span, .. } => *span,
            Expr::EnumVariant { span, .. } => *span,
            Expr::Call { span, .. } => *span,
            Expr::Member { span, .. } => *span,
            Expr::Unary { span, .. } => *span,
            Expr::Async { span, .. } => *span,
            Expr::Await { span, .. } => *span,
            Expr::Question { span, .. } => *span,
            Expr::Old { span, .. } => *span,
            Expr::Index { span, .. } => *span,
            Expr::Slice { span, .. } => *span,
            Expr::Binary { span, .. } => *span,
            Expr::List { span, .. } => *span,
            Expr::MapLit { span, .. } => *span,
            Expr::Constructor { span, .. } => *span,
        }
    }
}

/// A source statement.
#[derive(Debug)]
pub enum Stmt {
    Binding { name: String, is_mut: bool, expr: Expr, span: Span },
    Assignment { target: Expr, expr: Expr, span: Span },
    Return { expr: Expr, span: Span },
    ExprStmt { expr: Expr, span: Span },
    Go { expr: Expr, span: Span },
    Thread { expr: Expr, span: Span },
    For { var: String, iter: Expr, body: Vec<Stmt>, span: Span },
    If { cond: Expr, then_body: Vec<Stmt>, else_body: Vec<Stmt>, span: Span },
    While { cond: Expr, body: Vec<Stmt>, span: Span },
    Repeat { count: Expr, body: Vec<Stmt>, span: Span },
    Select { cases: Vec<SelectCase>, span: Span },
    Break { span: Span },
    Continue { span: Span },
    Match { scrutinee: Expr, arms: Vec<MatchArm>, default_action: Option<Expr>, span: Span },
}

/// A case of a `select` statement.
#[derive(Debug)]
pub struct SelectCase {
    pub pattern: SelectPattern,
    pub action: Expr,
    pub span: Span,
}

#[derive(Debug)]
pub enum SelectPattern {
    Receive { binding: String, expr: Expr },
    After { duration_literal: String },
    Closed { ident: String },
    Default,
}

/// An arm of a `match` statement.
#[derive(Debug)]
pub struct MatchArm {
    pub pattern: Expr,
    pub action: Expr,
    pub span: Span,
}

/// A field of a record type or of an enum variant.
#[derive(Debug)]
pub struct TypeField {
    pub name: String,
    pub ty: TypeRef,
}

#[derive(Debug)]
pub struct TypeDecl {
    pub is_public: bool,
    pub name: String,
    pub fields: Vec<TypeField>,
    pub span: Span,
}

#[derive(Debug)]
pub struct EnumVariantDecl {
    pub name: String,
    pub fields: Vec<TypeField>,
    pub span: Span,
}

#[derive(Debug)]
pub struct EnumDecl {
    pub is_public: bool,
    pub name: String,
    pub variants: Vec<EnumVariantDecl>,
    pub span: Span,
}

/// A case of an `@examples` contract: a call and the value it should give.
#[derive(Debug)]
pub struct ExampleCase {
    pub call: Expr,
    pub expected: Expr,
    pub span: Span,
}

/// A contract annotation of a function.
#[derive(Debug)]
pub enum Contract {
    Intent { text: String, span: Span },
    Examples { cases: Vec<ExampleCase>, span: Span },
    Require { expr: Expr, span: Span },
    Ensure { expr: Expr, span: Span },
    Effect { name: String, span: Span },
    Native { symbol: String, span: Span },
}

#[derive(Debug)]
pub struct FunctionDecl {
    pub is_public: bool,
    pub name: String,
    pub type_params: Vec<String>,
    pub params: Vec<Param>,
    pub return_type: Option<TypeRef>,
    pub contracts: Vec<Contract>,
    pub body: Vec<Stmt>,
    pub tail_expr: Option<Expr>,
    pub span: Span,
}

#[derive(Debug)]
pub enum Declaration {
    Type(TypeDecl),
    Enum(EnumDecl),
    Function(FunctionDecl),
}

/// A parsed source file: its module name, imports and declarations.
#[derive(Debug)]
pub struct FileAst {
    pub module: Option<String>,
    pub imports: Vec<String>,
    pub declarations: Vec<Declaration>,
}

} // verus!
