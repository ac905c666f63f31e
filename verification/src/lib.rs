//! A small calculator library: a token source for arithmetic text, a
//! recursive-descent parser producing an abstract syntax tree, and a
//! tree-walking evaluator that is generic over a pluggable numeric type
//! and keeps a persistent variable environment.

use vstd::prelude::*;

pub mod computer;
pub mod fixed;
pub mod parser;
pub mod lexer;

verus! {

/// The error of whichever pipeline stage failed: the three families are
/// disjoint and never coerced into one another.
#[derive(Debug, Clone, PartialEq)]
pub enum EvalError<T> {
    LexerError(crate::lexer::LexerError),
    ParserError(crate::parser::ParserError<T>),
    ComputeError(crate::computer::ComputeError),
}

/// The mathematical image of a pipeline error.
pub enum EvalErrorV<T> {
    LexerError(crate::lexer::LexerErrorV),
    ParserError(crate::parser::ParserErrorV<T>),
    ComputeError(crate::computer::ComputeErrorV),
}

impl<T> View for EvalError<T> {
    type V = EvalErrorV<T>;

    open spec fn view(&self) -> EvalErrorV<T> {
        match self {
            EvalError::LexerError(e) => EvalErrorV::LexerError(e@),
            EvalError::ParserError(e) => EvalErrorV::ParserError(e@),
            EvalError::ComputeError(e) => EvalErrorV::ComputeError(e@),
        }
    }
}

/// The mathematical image of what `eval` returned.
pub open spec fn eres_view<T>(r: Result<T, EvalError<T>>) -> Result<T, EvalErrorV<T>> {
    match r {
        Ok(v) => Ok(v),
        Err(e) => Err(e@),
    }
}

} // verus!
