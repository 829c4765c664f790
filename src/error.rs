use vstd::prelude::*;

verus! {

/// Failure while laying out the witness of a gate.
#[derive(Clone, Copy, Debug, PartialEq, Eq, Structural)]
pub enum SynthesisError {
    /// Two sequences that must run in parallel differ in length.
    LengthMismatch,
    /// The aggregate kind is none of `sum`, `count`, `max`, `min`.
    UnknownAggregate,
    /// A sequence claimed to be sorted is not non-decreasing.
    NotSorted,
    /// A sequence claimed to be a sorted copy holds other values.
    NotPermutation,
}

/// Failure while lowering a query onto gate operations.
#[derive(Clone, Debug, PartialEq, Eq)]
pub enum CompileError {
    /// A table or column name does not resolve in the catalog.
    Resolution(String),
    /// The text is not in the accepted subset of SQL.
    Grammar(String),
}

/// Which of the two kinds a compile error is.
#[derive(Clone, Copy, Debug, PartialEq, Eq, Structural)]
pub enum CompileErrorKind {
    Resolution,
    Grammar,
}

/// The kind of a compile error.
pub open spec fn error_kind(e: CompileError) -> CompileErrorKind {
    match e {
        CompileError::Resolution(_) => CompileErrorKind::Resolution,
        CompileError::Grammar(_) => CompileErrorKind::Grammar,
    }
}

impl CompileError {
    /// The kind of this error.
    pub fn kind(&self) -> (k: CompileErrorKind)
        ensures
            k == error_kind(*self),
    {
        match self {
            CompileError::Resolution(_) => CompileErrorKind::Resolution,
            CompileError::Grammar(_) => CompileErrorKind::Grammar,
        }
    }
}

} // verus!
