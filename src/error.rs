//! The ways in which parsing or evaluation fails.
use vstd::prelude::*;

verus! {

/// An error of the language.
#[derive(Clone, Debug, PartialEq, Eq)]
pub enum RispError {
    /// Operands that the ordering does not relate.
    ArgumentMismatch,
    /// A list operation applied to an atom.
    NoChildren,
    /// A value that should be numeric is not, or a number out of range.
    NotANumber,
    /// A builtin's arity was violated: expected, received.
    NumArguments(usize, usize),
    /// Malformed source text, with a diagnostic.
    ParseError(String),
    /// A name that the environment does not hold.
    UnknownFunction(String),
    /// A value of the wrong shape: expected, received.
    WrongType(String, String),
}

/// The mathematical model of a `RispError`.
pub enum Fault {
    ArgumentMismatch,
    NoChildren,
    NotANumber,
    NumArguments(nat, nat),
    ParseError(Seq<char>),
    UnknownFunction(Seq<char>),
    WrongType(Seq<char>, Seq<char>),
}

impl View for RispError {
    type V = Fault;

    open spec fn view(&self) -> Fault {
        match self {
            RispError::ArgumentMismatch => Fault::ArgumentMismatch,
            RispError::NoChildren => Fault::NoChildren,
            RispError::NotANumber => Fault::NotANumber,
            RispError::NumArguments(e, r) => Fault::NumArguments(*e as nat, *r as nat),
            RispError::ParseError(m) => Fault::ParseError(m@),
            RispError::UnknownFunction(n) => Fault::UnknownFunction(n@),
            RispError::WrongType(e, r) => Fault::WrongType(e@, r@),
        }
    }
}

} // verus!
