//! Top-level items of a translation unit.
use vstd::prelude::*;

use crate::statement::Statement;
use crate::statement::TypedStatement;
use crate::types::Type;

verus! {

/// A top-level item: a function definition with a body, or an `extern`
/// declaration of a function supplied by another translation unit.
#[derive(Debug, PartialEq, Eq)]
pub enum TopLevel {
    FunctionDefinition(String, Vec<(String, Type)>, Type, Vec<Statement>),
    ExternalFunctionDeclaration(String, Vec<(String, Type)>, Type),
}

/// A typed function definition. Besides the typed body it carries the
/// function's local type environment (parameters and declared locals, in
/// declaration order, each name once).
#[derive(Debug, PartialEq, Eq)]
pub enum TypedTopLevel {
    FunctionDefinition(String, Vec<(String, Type)>, Type, Vec<TypedStatement>, Vec<(String, Type)>),
}

} // verus!
