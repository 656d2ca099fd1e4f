//! Failures of the front end and of evaluation.
use crate::env::{EnvId, EnvType};
use crate::model::Failure;
use vstd::prelude::*;

verus! {

/// Why a token sequence has no parse.
#[derive(Debug, PartialEq, Eq, Clone, Copy)]
pub enum ParseError {
    /// A `)` came with no form open, or a `(` was never closed.
    UnbalancedParentheses,
}

/// Why an evaluation stopped without a result.
#[derive(Debug)]
pub enum EvalError<'a> {
    /// No scope from the current one up to the root binds the symbol.
    UnboundSymbol(String),
    /// The operator of an application is a value that cannot be applied.
    NotCallable(EnvType<'a>),
    /// A native procedure got the wrong number of arguments.
    NativeArity,
    /// A native procedure got an argument of the wrong kind.
    NativeType,
    /// A native procedure value names no native procedure.
    UnknownNativeProcedure(String),
    /// A `define` or `lambda` form does not have the shape of one.
    MalformedSpecialForm,
    /// The scope identifier is not one of the store.
    InvalidScopeId(EnvId),
    /// A form that yields no value stands where a value is needed: as
    /// an argument, or as the expression of a `define`.
    NoValue,
    /// A form without children was evaluated.
    EmptyForm,
    /// The evaluation needs more depth than it was given.
    DepthExceeded,
}

impl<'a> View for EvalError<'a> {
    type V = Failure;

    open spec fn view(&self) -> Failure {
        match self {
            EvalError::UnboundSymbol(name) => Failure::UnboundSymbol(name@),
            EvalError::NotCallable(v) => Failure::NotCallable(v@),
            EvalError::NativeArity => Failure::NativeArity,
            EvalError::NativeType => Failure::NativeType,
            EvalError::UnknownNativeProcedure(name) => Failure::UnknownNativeProcedure(name@),
            EvalError::MalformedSpecialForm => Failure::MalformedSpecialForm,
            EvalError::InvalidScopeId(id) => Failure::InvalidScopeId(id@),
            EvalError::NoValue => Failure::NoValue,
            EvalError::EmptyForm => Failure::EmptyForm,
            EvalError::DepthExceeded => Failure::DepthExceeded,
        }
    }
}

} // verus!
