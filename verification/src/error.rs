//! The error that the generator reports.
use vstd::prelude::*;
use vstd::string::StringExecFns;

verus! {

/// What can go wrong while a contract is turned into WebAssembly.
#[derive(Debug)]
pub enum GeneratorError {
    /// The construct has no translation yet.
    NotImplemented,
    /// The generator or its input is not in the state that it must be in.
    InternalError(String),
    /// A type is missing, or is not the one that is needed.
    TypeError(String),
}

/// The mathematical value of a `GeneratorError`.
pub enum Failure {
    NotImplemented,
    InternalError(Seq<char>),
    TypeError(Seq<char>),
}

impl GeneratorError {
    pub open spec fn view(&self) -> Failure {
        match *self {
            GeneratorError::NotImplemented => Failure::NotImplemented,
            GeneratorError::InternalError(text) => Failure::InternalError(text@),
            GeneratorError::TypeError(text) => Failure::TypeError(text@),
        }
    }

    /// The text that is shown to the author of the contract.
    pub fn message(&self) -> (text: String)
        ensures
            text@ == match self@ {
                Failure::NotImplemented => "Not implemented"@,
                Failure::InternalError(reason) => "Internal error: "@ + reason,
                Failure::TypeError(reason) => "Type error: "@ + reason,
            },
    {
        match self {
            GeneratorError::NotImplemented => "Not implemented".to_owned(),
            GeneratorError::InternalError(reason) => {
                "Internal error: ".to_owned().concat(reason.as_str())
            },
            GeneratorError::TypeError(reason) => "Type error: ".to_owned().concat(reason.as_str()),
        }
    }

    /// The generator has no advice to give with its errors.
    pub fn suggestion(&self) -> (advice: Option<String>)
        ensures
            advice is None,
    {
        None
    }
}

/// An internal error with the given reason.
pub fn internal_error(reason: &str) -> (error: GeneratorError)
    ensures
        error@ == Failure::InternalError(reason@),
{
    GeneratorError::InternalError(reason.to_owned())
}

/// A type error with the given reason.
pub fn type_error(reason: &str) -> (error: GeneratorError)
    ensures
        error@ == Failure::TypeError(reason@),
{
    GeneratorError::TypeError(reason.to_owned())
}

/// The failure that a result stands for, if it is one.
pub open spec fn failure_of<T>(result: Result<T, GeneratorError>) -> Option<Failure> {
    match result {
        Ok(_) => None,
        Err(error) => Some(error@),
    }
}

} // verus!
