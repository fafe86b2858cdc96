//! The two-level error taxonomy: syntax errors from tokenization (grammar
//! shape does not match, with the failing rule and byte position) and
//! semantic errors from typed conversion (well-shaped bytes, invalid value).

use vstd::prelude::*;

verus! {

/// The grammar production at which tokenization failed.
#[derive(Debug, Clone, Copy, PartialEq, Eq, Structural)]
pub enum Rule {
    Version,
    StatusCode,
    Reason,
    Transport,
    Host,
    Port,
    Param,
    Header,
    Separator,
}

/// The input does not match the expected grammar shape: carries the failing
/// rule and the byte position at which matching stopped.
#[derive(Debug, Clone, Copy, PartialEq, Eq, Structural)]
pub struct SyntaxError {
    pub rule: Rule,
    pub pos: usize,
}

/// Ghost counterpart of `SyntaxError`, with an unbounded position.
pub ghost struct SynView {
    pub rule: Rule,
    pub pos: int,
}

impl View for SyntaxError {
    type V = SynView;

    open spec fn view(&self) -> SynView {
        SynView { rule: self.rule, pos: self.pos as int }
    }
}

/// The bytes were syntactically well-formed but the value is out of range or
/// not in a mandatory closed vocabulary.
#[derive(Debug, Clone, Copy, PartialEq, Eq, Structural)]
pub enum SemanticError {
    /// A version-shaped token that is not a recognized protocol version.
    Version,
    /// A status code outside `[100, 699]` or not three digits.
    StatusCode,
    /// A present port that does not parse as an unsigned 16-bit integer.
    Port,
}

/// Any failure of the tokenize-then-convert pipeline.
#[derive(Debug, Clone, Copy, PartialEq, Eq, Structural)]
pub enum Error {
    Syntax(SyntaxError),
    Semantic(SemanticError),
}

} // verus!

verus! {

impl SemanticError {
    /// The human-readable cause of this error.
    pub fn message(&self) -> (r: &'static str)
        ensures
            *self == SemanticError::Version ==> r@ == "unrecognized protocol version"@,
            *self == SemanticError::StatusCode ==> r@ == "status code outside 100..=699"@,
            *self == SemanticError::Port ==> r@ == "port is not an unsigned 16-bit integer"@,
    {
        match self {
            SemanticError::Version => "unrecognized protocol version",
            SemanticError::StatusCode => "status code outside 100..=699",
            SemanticError::Port => "port is not an unsigned 16-bit integer",
        }
    }
}

} // verus!
