//! Expressions, untyped and typed.
use vstd::prelude::*;

use crate::types::Type;

verus! {

/// An expression as the parser produces it: no type annotations yet.
#[derive(Debug, PartialEq, Eq)]
pub enum Expr {
    Add(Box<Expr>, Box<Expr>),
    Sub(Box<Expr>, Box<Expr>),
    Mul(Box<Expr>, Box<Expr>),
    Div(Box<Expr>, Box<Expr>),
    Num(i32),
    LessThan(Box<Expr>, Box<Expr>),
    LessEqual(Box<Expr>, Box<Expr>),
    Equal(Box<Expr>, Box<Expr>),
    NotEqual(Box<Expr>, Box<Expr>),
    GreaterThan(Box<Expr>, Box<Expr>),
    GreaterEqual(Box<Expr>, Box<Expr>),
    Assign(Box<Expr>, Box<Expr>),
    Variable(String),
    FunctionCall(String, Vec<Expr>),
    Address(Box<Expr>),
    Dereference(Box<Expr>),
    Sizeof(Box<Expr>),
}

/// An expression annotated with its result type. Comparisons and `sizeof`
/// are always `Int`, so they carry no annotation.
#[derive(Debug, PartialEq, Eq)]
pub enum TypedExpr {
    Add(Type, Box<TypedExpr>, Box<TypedExpr>),
    Sub(Type, Box<TypedExpr>, Box<TypedExpr>),
    Mul(Type, Box<TypedExpr>, Box<TypedExpr>),
    Div(Type, Box<TypedExpr>, Box<TypedExpr>),
    IntNum(i32),
    LessThan(Box<TypedExpr>, Box<TypedExpr>),
    LessEqual(Box<TypedExpr>, Box<TypedExpr>),
    Equal(Box<TypedExpr>, Box<TypedExpr>),
    NotEqual(Box<TypedExpr>, Box<TypedExpr>),
    GreaterThan(Box<TypedExpr>, Box<TypedExpr>),
    GreaterEqual(Box<TypedExpr>, Box<TypedExpr>),
    Assign(Type, Box<TypedExpr>, Box<TypedExpr>),
    Variable(Type, String),
    FunctionCall(Type, String, Vec<TypedExpr>),
    Address(Type, Box<TypedExpr>),
    Dereference(Type, Box<TypedExpr>),
    Sizeof(Box<TypedExpr>),
}

impl TypedExpr {
    /// The annotated result type of this expression.
    pub open spec fn spec_get_type(&self) -> Type {
        match self {
            TypedExpr::Add(t, _, _) => *t,
            TypedExpr::Sub(t, _, _) => *t,
            TypedExpr::Mul(t, _, _) => *t,
            TypedExpr::Div(t, _, _) => *t,
            TypedExpr::Assign(t, _, _) => *t,
            TypedExpr::Variable(t, _) => *t,
            TypedExpr::FunctionCall(t, _, _) => *t,
            TypedExpr::Address(t, _) => *t,
            TypedExpr::Dereference(t, _) => *t,
            TypedExpr::IntNum(_) => Type::IntTyp,
            TypedExpr::LessThan(_, _) => Type::IntTyp,
            TypedExpr::LessEqual(_, _) => Type::IntTyp,
            TypedExpr::Equal(_, _) => Type::IntTyp,
            TypedExpr::NotEqual(_, _) => Type::IntTyp,
            TypedExpr::GreaterThan(_, _) => Type::IntTyp,
            TypedExpr::GreaterEqual(_, _) => Type::IntTyp,
            TypedExpr::Sizeof(_) => Type::IntTyp,
        }
    }

    pub fn get_type(&self) -> (r: Type)
        ensures
            r == self.spec_get_type(),
    {
        match self {
            TypedExpr::Add(t, _, _)
            | TypedExpr::Sub(t, _, _)
            | TypedExpr::Mul(t, _, _)
            | TypedExpr::Div(t, _, _)
            | TypedExpr::Assign(t, _, _)
            | TypedExpr::Variable(t, _)
            | TypedExpr::FunctionCall(t, _, _)
            | TypedExpr::Address(t, _)
            | TypedExpr::Dereference(t, _) => t.clone(),
            TypedExpr::IntNum(_)
            | TypedExpr::LessThan(_, _)
            | TypedExpr::LessEqual(_, _)
            | TypedExpr::Equal(_, _)
            | TypedExpr::NotEqual(_, _)
            | TypedExpr::GreaterThan(_, _)
            | TypedExpr::GreaterEqual(_, _)
            | TypedExpr::Sizeof(_) => Type::IntTyp,
        }
    }

    /// The same expression with an array annotation rewritten to the
    /// corresponding pointer annotation; any other expression is unchanged.
    pub open spec fn spec_decay(self) -> TypedExpr {
        match self.spec_get_type() {
            Type::Array(ty, n) => match self {
                TypedExpr::Add(_, lhs, rhs) => TypedExpr::Add(Type::Pointer(ty), lhs, rhs),
                TypedExpr::Sub(_, lhs, rhs) => TypedExpr::Sub(Type::Pointer(ty), lhs, rhs),
                TypedExpr::Mul(_, lhs, rhs) => TypedExpr::Mul(Type::Pointer(ty), lhs, rhs),
                TypedExpr::Div(_, lhs, rhs) => TypedExpr::Div(Type::Pointer(ty), lhs, rhs),
                TypedExpr::Assign(_, lhs, rhs) => TypedExpr::Assign(Type::Pointer(ty), lhs, rhs),
                TypedExpr::Variable(_, name) => TypedExpr::Variable(Type::Pointer(ty), name),
                TypedExpr::FunctionCall(_, name, args) => TypedExpr::FunctionCall(
                    Type::Pointer(ty),
                    name,
                    args,
                ),
                TypedExpr::Address(_, e) => TypedExpr::Address(Type::Pointer(ty), e),
                TypedExpr::Dereference(_, e) => TypedExpr::Dereference(Type::Pointer(ty), e),
                _ => self,
            },
            _ => self,
        }
    }

    /// Rewrites an array-typed expression's annotation to the pointer type;
    /// leaves every other expression unchanged.
    pub fn decay_if_array(self) -> (r: Self)
        ensures
            r == self.spec_decay(),
    {
        match self {
            TypedExpr::Add(t, lhs, rhs) => match t {
                Type::Array(ty, _) => TypedExpr::Add(Type::Pointer(ty), lhs, rhs),
                other => TypedExpr::Add(other, lhs, rhs),
            },
            TypedExpr::Sub(t, lhs, rhs) => match t {
                Type::Array(ty, _) => TypedExpr::Sub(Type::Pointer(ty), lhs, rhs),
                other => TypedExpr::Sub(other, lhs, rhs),
            },
            TypedExpr::Mul(t, lhs, rhs) => match t {
                Type::Array(ty, _) => TypedExpr::Mul(Type::Pointer(ty), lhs, rhs),
                other => TypedExpr::Mul(other, lhs, rhs),
            },
            TypedExpr::Div(t, lhs, rhs) => match t {
                Type::Array(ty, _) => TypedExpr::Div(Type::Pointer(ty), lhs, rhs),
                other => TypedExpr::Div(other, lhs, rhs),
            },
            TypedExpr::Assign(t, lhs, rhs) => match t {
                Type::Array(ty, _) => TypedExpr::Assign(Type::Pointer(ty), lhs, rhs),
                other => TypedExpr::Assign(other, lhs, rhs),
            },
            TypedExpr::Variable(t, name) => match t {
                Type::Array(ty, _) => TypedExpr::Variable(Type::Pointer(ty), name),
                other => TypedExpr::Variable(other, name),
            },
            TypedExpr::FunctionCall(t, name, args) => match t {
                Type::Array(ty, _) => TypedExpr::FunctionCall(Type::Pointer(ty), name, args),
                other => TypedExpr::FunctionCall(other, name, args),
            },
            TypedExpr::Address(t, e) => match t {
                Type::Array(ty, _) => TypedExpr::Address(Type::Pointer(ty), e),
                other => TypedExpr::Address(other, e),
            },
            TypedExpr::Dereference(t, e) => match t {
                Type::Array(ty, _) => TypedExpr::Dereference(Type::Pointer(ty), e),
                other => TypedExpr::Dereference(other, e),
            },
            other => other,
        }
    }
}

} // verus!
