use std::rc::Rc;
use vstd::prelude::*;

use crate::object::Object;

verus! {

/// Which part of the interpreter an error comes from.
#[derive(Clone, Copy, Debug, PartialEq, Eq, Structural)]
pub enum LispErrorKind {
    Parser,
    Eval,
    RustFunc,
}

/// Errors of the reader.
#[derive(Clone, Debug, PartialEq)]
pub enum ParserError {
    /// The input ended inside an open list.
    UnmatchedToken(char),
    /// A token that cannot stand where it was found.
    InvalidToken(String),
    /// A token that is no atom.
    UnparsableAtom(String),
    /// A quote with nothing to quote.
    EmptyQuote,
}

/// Errors of the evaluator.
#[derive(Clone, Debug, PartialEq)]
pub enum EvalError {
    /// A symbol with no binding in any scope nor among the globals.
    UnknownSymbol(String),
    /// A second definition of a global name.
    GlobalExists(String),
    /// A call whose head is no function; holds the whole call.
    NonFunction(Rc<Object>),
    /// The evaluation step budget of the interpreter ran out.
    StepLimit,
}

/// How an argument list handed to a native function was malformed.
#[derive(Clone, Copy, Debug, PartialEq, Eq, Structural)]
pub enum ArgumentsError {
    TooMany,
    NotEnough,
    WrongType,
    DottedPair,
}

/// Errors returned by native functions.
#[derive(Debug, PartialEq)]
pub enum RustFuncError {
    InvalidArguments(ArgumentsError),
    LispError(Box<LispError>),
}

/// The specific error a `LispError` carries.
#[derive(Debug, PartialEq)]
pub enum ErrorCause {
    Parser(ParserError),
    Eval(EvalError),
    RustFunc(RustFuncError),
}

/// An error of the interpreter: its kind and its cause.
#[derive(Debug, PartialEq)]
pub struct LispError {
    pub kind: LispErrorKind,
    pub error: ErrorCause,
}

impl LispError {
    pub fn new(kind: LispErrorKind, error: ErrorCause) -> (r: Self)
        ensures
            r.kind == kind,
            r.error == error,
    {
        LispError { kind, error }
    }

    /// A reader error.
    pub open spec fn parser_spec(e: ParserError) -> LispError {
        LispError { kind: LispErrorKind::Parser, error: ErrorCause::Parser(e) }
    }

    /// An evaluator error.
    pub open spec fn eval_spec(e: EvalError) -> LispError {
        LispError { kind: LispErrorKind::Eval, error: ErrorCause::Eval(e) }
    }

    /// An error of a native function.
    pub open spec fn rust_func_spec(e: RustFuncError) -> LispError {
        LispError { kind: LispErrorKind::RustFunc, error: ErrorCause::RustFunc(e) }
    }

    pub fn parser(e: ParserError) -> (r: Self)
        ensures
            r == Self::parser_spec(e),
    {
        LispError { kind: LispErrorKind::Parser, error: ErrorCause::Parser(e) }
    }

    pub fn eval(e: EvalError) -> (r: Self)
        ensures
            r == Self::eval_spec(e),
    {
        LispError { kind: LispErrorKind::Eval, error: ErrorCause::Eval(e) }
    }

    pub fn rust_func(e: RustFuncError) -> (r: Self)
        ensures
            r == Self::rust_func_spec(e),
    {
        LispError { kind: LispErrorKind::RustFunc, error: ErrorCause::RustFunc(e) }
    }
}

impl RustFuncError {
    pub fn new_args_error(error: ArgumentsError) -> (r: Self)
        ensures
            r == RustFuncError::InvalidArguments(error),
    {
        RustFuncError::InvalidArguments(error)
    }

    /// Wraps an error of a nested evaluation.
    pub fn from_lisp(error: LispError) -> (r: Self)
        ensures
            r == RustFuncError::LispError(Box::new(error)),
    {
        RustFuncError::LispError(Box::new(error))
    }
}

} // verus!
