//! The errors a run can end with.
use vstd::prelude::*;

verus! {

/// Why evaluating a parsed program failed.
#[derive(Debug, Clone, Copy, PartialEq, Eq, Structural)]
pub enum EvalError {
    /// A variable was read before any assignment bound it.
    UnboundVariable,
    /// `/` or `%` with a zero divisor.
    DivisionByZero,
    /// The exact result does not fit in a 64-bit signed integer.
    Overflow,
    /// `printa` was given a number that is no Unicode scalar value.
    InvalidChar,
    /// `print` or `printa` was used where a number is needed.
    VoidValue,
    /// A call names a function that is not registered.
    UnknownFunction,
    /// A call passes more or fewer arguments than the function has parameters.
    ArgumentCount,
    /// User-function calls nested deeper than the budget allows.
    RecursionTooDeep,
    /// `while` iterations went past the budget.
    StepLimit,
}

/// What is wrong with a piece of source text.
#[derive(Debug, Clone, Copy, PartialEq, Eq, Structural)]
pub enum ParseErrorKind {
    /// An expression, or an argument of one, is empty.
    EmptyExpression,
    /// An integer literal does not fit in a 64-bit signed integer.
    LiteralOutOfRange,
    /// An operator or function call has the wrong number of arguments.
    Arity,
    /// A `for` or `func` header that does not have the required shape.
    MalformedHeader,
    /// A second function of the same name.
    DuplicateFunction,
    /// A block header without its closing `}`.
    UnclosedBlock,
    /// A `}` that closes no block.
    UnmatchedBrace,
}

/// A parse failure and the line (counted from 1) where it was found.
#[derive(Debug, Clone, Copy, PartialEq, Eq, Structural)]
pub struct ParseError {
    pub line: usize,
    pub kind: ParseErrorKind,
}

/// Why a whole run from source text failed.
#[derive(Debug, Clone, Copy, PartialEq, Eq, Structural)]
pub enum RunError {
    Parse(ParseError),
    Eval(EvalError),
}

} // verus!
