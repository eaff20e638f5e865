use vstd::prelude::*;
use crate::utils::Location;

verus! {

/// A form of the source language that the compiler recognises but does not
/// translate.
#[derive(Debug, Clone, Copy, PartialEq, Eq, Structural)]
pub enum Construct {
    While,
    Return,
    AssignIndex,
    List,
    AccessIndex,
    Float,
    NestedFunction,
    NestedClass,
    ClassMember,
}

/// What went wrong during a compilation.
#[derive(Debug, Clone, Copy, PartialEq, Eq, Structural)]
pub enum ErrorKind {
    /// A local name is already bound in the innermost scope.
    Redefinition,
    /// Assignment to a name that was declared with `val`.
    Immutable,
    /// An operator applied to the wrong number of arguments.
    ArityMismatch,
    /// A form that the compiler does not translate.
    Unsupported(Construct),
    /// A constant pool index, local slot, argument count, length or jump
    /// target that does not fit the field that has to hold it.
    PoolOverflow,
    /// A state that correct use of the compiler never reaches.
    InvariantViolation,
}

/// A compile error with the span of source text that caused it, where there
/// is one.
#[derive(Debug, Clone, Copy, PartialEq, Eq)]
pub struct CompileError {
    pub kind: ErrorKind,
    pub location: Option<Location>,
}

impl CompileError {
    /// The error of the given kind at the given span.
    pub open spec fn at(kind: ErrorKind, location: Location) -> CompileError {
        CompileError { kind, location: Some(location) }
    }

    pub fn new(kind: ErrorKind, location: Location) -> (r: Self)
        ensures
            r == Self::at(kind, location),
    {
        CompileError { kind, location: Some(location) }
    }
}

} // verus!
