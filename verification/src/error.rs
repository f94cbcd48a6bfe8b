use vstd::prelude::*;

use crate::arena::Handle;

verus! {

/// Source-location metadata attached to a syntax node, carried into
/// diagnostics.
#[derive(Clone, Copy, Debug, PartialEq, Eq, Structural)]
pub struct TokenMetadata {
    pub line: usize,
    pub start: usize,
    pub end: usize,
}

/// A condition that is invalid source-on-IR semantics.  Each variant names
/// the offending handle or accessor so the caller can report it.
#[derive(Debug)]
pub enum SemanticError {
    /// The type of the expression at this handle could not be derived.
    UnresolvedType(Handle),
    /// The expression at this handle does not fold to a compile-time value.
    UnfoldableConstant(Handle),
    /// Folding the expression at this handle overflowed its scalar type.
    ConstantOverflow(Handle),
    /// A swizzle whose letters are not all drawn from one component set, or
    /// reach past the vector's size.
    InvalidSwizzle(String),
    /// A swizzle selecting no component, or more than four.
    BadSwizzleLength(String),
    /// A `.name` accessor applied to a type that is neither a struct nor a
    /// vector.
    BadAccessBase(String),
    /// A storage size that does not fit the byte count's range.
    OversizedType(Handle),
    /// An array extent whose constant is missing or not a usable count.
    InvalidArraySize(Handle),
}

/// A capability this stage deliberately does not provide.  Distinguished
/// from semantic errors: the input may be valid, the limitation is ours.
#[derive(Clone, Copy, Debug, PartialEq, Eq, Structural)]
pub enum Unsupported {
    PointerSize,
    ValuePointerSize,
    DynamicArraySize,
    CompositeArraySize,
    StructSize,
    ImageSize,
    SamplerSize,
    FunctionCall,
    BuiltinVariable(crate::ir::BuiltIn),
}

/// The outcome of a fallible operation.  Every failure is returned to the
/// immediate caller; nothing here recovers or retries.
#[derive(Debug)]
pub enum ErrorKind {
    SemanticError(SemanticError),
    /// A named lookup failed against a struct: the source location and the
    /// requested member name.
    UnknownField(TokenMetadata, String),
    NotImplemented(Unsupported),
}

/// A specification-level image of an error, with every name reduced to its
/// characters.  Contracts speak of errors through this view, since two
/// `String`s holding the same characters stand for the same diagnostic.
pub ghost enum ErrorView {
    UnresolvedType(Handle),
    UnfoldableConstant(Handle),
    ConstantOverflow(Handle),
    InvalidSwizzle(Seq<char>),
    BadSwizzleLength(Seq<char>),
    BadAccessBase(Seq<char>),
    OversizedType(Handle),
    InvalidArraySize(Handle),
    UnknownField(TokenMetadata, Seq<char>),
    NotImplemented(Unsupported),
}

impl ErrorKind {
    pub open spec fn view(self) -> ErrorView {
        match self {
            ErrorKind::SemanticError(s) => match s {
                SemanticError::UnresolvedType(h) => ErrorView::UnresolvedType(h),
                SemanticError::UnfoldableConstant(h) => ErrorView::UnfoldableConstant(h),
                SemanticError::ConstantOverflow(h) => ErrorView::ConstantOverflow(h),
                SemanticError::InvalidSwizzle(n) => ErrorView::InvalidSwizzle(n@),
                SemanticError::BadSwizzleLength(n) => ErrorView::BadSwizzleLength(n@),
                SemanticError::BadAccessBase(n) => ErrorView::BadAccessBase(n@),
                SemanticError::OversizedType(h) => ErrorView::OversizedType(h),
                SemanticError::InvalidArraySize(h) => ErrorView::InvalidArraySize(h),
            },
            ErrorKind::UnknownField(meta, n) => ErrorView::UnknownField(meta, n@),
            ErrorKind::NotImplemented(u) => ErrorView::NotImplemented(u),
        }
    }
}

/// The view of a fallible result: successes stay as they are, failures are
/// seen through `ErrorView`.
pub open spec fn result_view<T>(r: Result<T, ErrorKind>) -> Result<T, ErrorView> {
    match r {
        Ok(v) => Ok(v),
        Err(e) => Err(e@),
    }
}

} // verus!
