//! The error value that every fallible operation of the library returns.
use vstd::prelude::*;

verus! {

/// An error with a stable machine-readable `code` and a human-readable `message`.
#[derive(Debug, Clone, PartialEq, Eq)]
pub struct AppError {
    pub code: String,
    pub message: String,
}

/// The mathematical value of an [`AppError`].
pub struct ErrorSpec {
    pub code: Seq<char>,
    pub message: Seq<char>,
}

impl View for AppError {
    type V = ErrorSpec;

    open spec fn view(&self) -> ErrorSpec {
        ErrorSpec { code: self.code@, message: self.message@ }
    }
}

pub open spec fn error_spec(code: Seq<char>, message: Seq<char>) -> ErrorSpec {
    ErrorSpec { code, message }
}

impl AppError {
    pub fn new(code: &str, message: String) -> (r: AppError)
        ensures
            r.code@ == code@,
            r.message@ == message@,
    {
        AppError { code: String::from_str(code), message }
    }
}

} // verus!
