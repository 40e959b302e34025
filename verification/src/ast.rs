//! The syntax tree of a Kujav program.
use vstd::prelude::*;
use crate::types::{KType, TypeModel};

verus! {

/// An expression.
#[derive(Debug)]
pub enum Expr {
    Number(i32),
    String(String),
    Boolean(bool),
    Identifier(String),
    /// Left operand, operator symbol, right operand.
    Binary(Box<Expr>, String, Box<Expr>),
    /// Callee and arguments.
    Call(String, Vec<Expr>),
    /// A number read from the program's input.
    Input,
    ArrayLiteral(Vec<Expr>),
    /// Array variable and index.
    ArrayAccess(String, Box<Expr>),
}

/// A statement.
#[derive(Debug)]
pub enum Stmt {
    /// Name, initialiser and the declared type as written, if any.
    Let(String, Expr, Option<String>),
    Print(Expr),
    /// Condition, then-body and else-body, if any.
    If(Expr, Vec<Stmt>, Option<Vec<Stmt>>),
    /// Condition and body.
    While(Expr, Vec<Stmt>),
    /// Name, parameters with their types, body and return type.
    Function(String, Vec<(String, KType)>, Vec<Stmt>, KType),
    /// Callee and arguments.
    Call(String, Vec<Expr>),
    Return(Option<Expr>),
    /// Array variable, index and new value.
    IndexAssign(String, Expr, Expr),
}

/// An expression as a mathematical value.
pub enum ExprModel {
    Number(int),
    Text(Seq<char>),
    Boolean(bool),
    Identifier(Seq<char>),
    Binary(Box<ExprModel>, Seq<char>, Box<ExprModel>),
    Call(Seq<char>, Seq<ExprModel>),
    Input,
    ArrayLiteral(Seq<ExprModel>),
    ArrayAccess(Seq<char>, Box<ExprModel>),
}

/// A statement as a mathematical value.
pub enum StmtModel {
    Let(Seq<char>, ExprModel, Option<Seq<char>>),
    Print(ExprModel),
    If(ExprModel, Seq<StmtModel>, Option<Seq<StmtModel>>),
    While(ExprModel, Seq<StmtModel>),
    Function(Seq<char>, Seq<(Seq<char>, TypeModel)>, Seq<StmtModel>, TypeModel),
    Call(Seq<char>, Seq<ExprModel>),
    Return(Option<ExprModel>),
    IndexAssign(Seq<char>, ExprModel, ExprModel),
}

/// The mathematical value of an expression.
pub open spec fn expr_model(e: Expr) -> ExprModel
    decreases e,
{
    match e {
        Expr::Number(v) => ExprModel::Number(v as int),
        Expr::String(s) => ExprModel::Text(s@),
        Expr::Boolean(b) => ExprModel::Boolean(b),
        Expr::Identifier(name) => ExprModel::Identifier(name@),
        Expr::Binary(l, op, r) => ExprModel::Binary(
            Box::new(expr_model(*l)),
            op@,
            Box::new(expr_model(*r)),
        ),
        Expr::Call(name, args) => ExprModel::Call(name@, exprs_model(args@)),
        Expr::Input => ExprModel::Input,
        Expr::ArrayLiteral(elems) => ExprModel::ArrayLiteral(exprs_model(elems@)),
        Expr::ArrayAccess(name, index) => ExprModel::ArrayAccess(
            name@,
            Box::new(expr_model(*index)),
        ),
    }
}

/// The mathematical values of a list of expressions.
pub open spec fn exprs_model(es: Seq<Expr>) -> Seq<ExprModel>
    decreases es,
{
    Seq::new(es.len(), |i: int| if 0 <= i < es.len() { expr_model(es[i]) } else { ExprModel::Input })
}

/// The mathematical values of a list of parameters.
pub open spec fn params_model(ps: Seq<(String, KType)>) -> Seq<(Seq<char>, TypeModel)> {
    Seq::new(ps.len(), |i: int| (ps[i].0@, ps[i].1@))
}

/// The mathematical value of a statement.
pub open spec fn stmt_model(s: Stmt) -> StmtModel
    decreases s,
{
    match s {
        Stmt::Let(name, init, declared) => StmtModel::Let(
            name@,
            expr_model(init),
            match declared {
                Some(t) => Some(t@),
                None => None,
            },
        ),
        Stmt::Print(e) => StmtModel::Print(expr_model(e)),
        Stmt::If(cond, then_body, else_body) => StmtModel::If(
            expr_model(cond),
            stmts_model(then_body@),
            match else_body {
                Some(body) => Some(stmts_model(body@)),
                None => None,
            },
        ),
        Stmt::While(cond, body) => StmtModel::While(expr_model(cond), stmts_model(body@)),
        Stmt::Function(name, params, body, ret) => StmtModel::Function(
            name@,
            params_model(params@),
            stmts_model(body@),
            ret@,
        ),
        Stmt::Call(name, args) => StmtModel::Call(name@, exprs_model(args@)),
        Stmt::Return(value) => StmtModel::Return(
            match value {
                Some(e) => Some(expr_model(e)),
                None => None,
            },
        ),
        Stmt::IndexAssign(name, index, value) => StmtModel::IndexAssign(
            name@,
            expr_model(index),
            expr_model(value),
        ),
    }
}

/// The mathematical values of a list of statements.
pub open spec fn stmts_model(ss: Seq<Stmt>) -> Seq<StmtModel>
    decreases ss,
{
    Seq::new(ss.len(), |i: int| if 0 <= i < ss.len() { stmt_model(ss[i]) } else { StmtModel::Return(None) })
}

impl View for Expr {
    type V = ExprModel;

    open spec fn view(&self) -> ExprModel {
        expr_model(*self)
    }
}

impl View for Stmt {
    type V = StmtModel;

    open spec fn view(&self) -> StmtModel {
        stmt_model(*self)
    }
}

} // verus!
