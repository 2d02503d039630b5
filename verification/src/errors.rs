//! The single error channel of the language.

use vstd::prelude::*;
use vstd::string::StringExecFns;

verus! {

/// An error raised while parsing or evaluating a program.
#[derive(Debug)]
pub enum BaseError {
    /// The token stream is not a program.
    ParseError(String),
    /// A type mismatch, arity mismatch, unknown name, index out of bounds,
    /// failed cast or unassignable target.
    InterpreterError(String),
}

/// Mathematical model of a [`BaseError`]: the kind and the message text.
pub enum ErrorModel {
    Parse(Seq<char>),
    Interpreter(Seq<char>),
}

impl View for BaseError {
    type V = ErrorModel;

    open spec fn view(&self) -> ErrorModel {
        match self {
            BaseError::ParseError(m) => ErrorModel::Parse(m@),
            BaseError::InterpreterError(m) => ErrorModel::Interpreter(m@),
        }
    }
}

impl Clone for BaseError {
    fn clone(&self) -> (res: Self)
        ensures
            res@ == self@,
    {
        match self {
            BaseError::ParseError(m) => BaseError::ParseError(m.clone()),
            BaseError::InterpreterError(m) => BaseError::InterpreterError(m.clone()),
        }
    }
}

impl BaseError {
    /// The message carried by the error, whatever its kind.
    pub open spec fn spec_message(&self) -> Seq<char> {
        match self {
            BaseError::ParseError(m) => m@,
            BaseError::InterpreterError(m) => m@,
        }
    }

    /// The message carried by the error, whatever its kind.
    pub fn message(&self) -> (res: String)
        ensures
            res@ == self.spec_message(),
    {
        match self {
            BaseError::ParseError(m) => m.clone(),
            BaseError::InterpreterError(m) => m.clone(),
        }
    }
}

/// The model of an evaluation error with the given message.
pub open spec fn failure(message: Seq<char>) -> ErrorModel {
    ErrorModel::Interpreter(message)
}

/// An evaluation error with the given message.
pub fn interpreter_error(message: &str) -> (res: BaseError)
    ensures
        res@ == failure(message@),
{
    BaseError::InterpreterError(String::from_str(message))
}

/// A parse error with the given message.
pub fn parse_error(message: &str) -> (res: BaseError)
    ensures
        res@ == ErrorModel::Parse(message@),
{
    BaseError::ParseError(String::from_str(message))
}

} // verus!
