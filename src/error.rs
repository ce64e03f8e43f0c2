use vstd::prelude::*;

verus! {

/// What a semantic check found wrong.
#[derive(Clone, Copy, Debug, PartialEq, Eq, Structural)]
pub enum SemanticError {
    UndefinedVariable,
    Redefinition,
    InvalidOperands,
    NotAnLvalue,
    MalformedNode,
}

/// The first error of a compilation; compilation stops there.
#[derive(Clone, Copy, Debug, PartialEq, Eq, Structural)]
pub enum CompileError {
    /// A character that starts no token, or a literal out of range, at this
    /// character index.
    LexicalError(usize),
    /// An unexpected token at this token index.
    SyntaxError(usize),
    SemanticError(SemanticError),
    /// An expression needs more scratch registers than the pool holds, or a
    /// counter of the generator ran out.
    ResourceExhaustedError,
}

} // verus!
