//! Statements, untyped and typed.
use vstd::prelude::*;

use crate::expr::Expr;
use crate::expr::TypedExpr;
use crate::types::Type;

verus! {

/// A statement as the parser produces it.
#[derive(Debug, PartialEq, Eq)]
pub enum Statement {
    Expr(Expr),
    Return(Expr),
    If(Box<Expr>, Box<Statement>),
    IfElse(Box<Expr>, Box<Statement>, Box<Statement>),
    While(Box<Expr>, Box<Statement>),
    For(Box<Expr>, Box<Expr>, Box<Expr>, Box<Statement>),
    Block(Vec<Statement>),
    VariableDeclaration(String, Type),
}

/// A statement whose expressions carry their result types.
#[derive(Debug, PartialEq, Eq)]
pub enum TypedStatement {
    Expr(TypedExpr),
    Return(TypedExpr),
    If(Box<TypedExpr>, Box<TypedStatement>),
    IfElse(Box<TypedExpr>, Box<TypedStatement>, Box<TypedStatement>),
    While(Box<TypedExpr>, Box<TypedStatement>),
    For(Box<TypedExpr>, Box<TypedExpr>, Box<TypedExpr>, Box<TypedStatement>),
    Block(Vec<TypedStatement>),
    VariableDeclaration(String, Type),
}

} // verus!
