//! The error type of the library.
use vstd::prelude::*;

verus! {

/// Why an operation failed, with a message for the user.
#[derive(Debug)]
pub enum AppError {
    /// The input could not be used.
    Internal(String),
    /// Something looked for is not there.
    NotFound(String),
}

impl AppError {
    /// The message that the error carries.
    pub open spec fn text(&self) -> Seq<char> {
        match self {
            AppError::Internal(m) => m@,
            AppError::NotFound(m) => m@,
        }
    }

    /// The message that the error carries, for the user.
    pub fn message(&self) -> (r: String)
        ensures
            r@ == self.text(),
    {
        match self {
            AppError::Internal(m) => m.clone(),
            AppError::NotFound(m) => m.clone(),
        }
    }
}

} // verus!
