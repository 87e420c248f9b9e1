//! The source language's types and their byte sizes.
use vstd::prelude::*;

verus! {

/// A type of the source language: 4-byte signed integers, 8-byte pointers,
/// and arrays of `N` contiguous elements.
#[derive(Debug, PartialEq, Eq)]
pub enum Type {
    IntTyp,
    Pointer(Box<Type>),
    Array(Box<Type>, usize),
}

impl Type {
    /// Byte size of a value of this type: `int` is 4 bytes, a pointer is 8,
    /// an array of `N` elements of `T` is `N * size(T)`.
    pub open spec fn spec_size(&self) -> nat
        decreases self,
    {
        match self {
            Type::IntTyp => 4,
            Type::Pointer(_) => 8,
            Type::Array(t, n) => t.spec_size() * (n as nat),
        }
    }

    pub open spec fn is_array(&self) -> bool {
        self is Array
    }

    pub fn get_size(&self) -> (r: usize)
        requires
            self.spec_size() <= usize::MAX,
        ensures
            r == self.spec_size(),
        decreases *self,
    {
        let r: usize = match self {
            Type::Pointer(_) => 8,
            Type::IntTyp => 4,
            Type::Array(t, n) => {
                if *n == 0 {
                    proof {
                        assert(t.spec_size() * (*n as nat) == 0) by (nonlinear_arith)
                            requires *n == 0
                        ;
                    }
                    0
                } else {
                    proof {
                        assert(t.spec_size() <= t.spec_size() * (*n as nat)) by (nonlinear_arith)
                            requires *n >= 1
                        ;
                    }
                    let e = t.get_size();
                    e * *n
                }
            },
        };
        r
    }

    /// Structural equality, usable from verified code.
    pub fn type_eq(&self, other: &Type) -> (r: bool)
        ensures
            r == (*self == *other),
        decreases *self,
    {
        match (self, other) {
            (Type::IntTyp, Type::IntTyp) => true,
            (Type::Pointer(a), Type::Pointer(b)) => a.type_eq(b),
            (Type::Array(a, n), Type::Array(b, m)) => *n == *m && a.type_eq(b),
            _ => false,
        }
    }
}

impl Clone for Type {
    fn clone(&self) -> (r: Self)
        ensures
            r == *self,
        decreases *self,
    {
        match self {
            Type::IntTyp => Type::IntTyp,
            Type::Pointer(t) => Type::Pointer(Box::new((**t).clone())),
            Type::Array(t, n) => Type::Array(Box::new((**t).clone()), *n),
        }
    }
}

pub open spec fn spec_pointer_to(t: Type) -> Type {
    Type::Pointer(Box::new(t))
}

/// Array-to-pointer decay at the type level: an array of `T` becomes a
/// pointer to `T`; every other type is unchanged.
pub open spec fn decay_type(t: Type) -> Type {
    match t {
        Type::Array(el, _) => Type::Pointer(el),
        _ => t,
    }
}

/// Signature of a function: its parameter types and its return type.
pub type FunctionType = (Vec<Type>, Box<Type>);

} // verus!
