//! The library's error type.
use vstd::prelude::*;

verus! {

/// An error with a human-readable message.
#[derive(Debug)]
pub struct AppError {
    pub message: String,
}

impl AppError {
    /// An error carrying `message`.
    pub fn msg(message: String) -> (e: AppError)
        ensures
            e.message@ == message@,
    {
        AppError { message }
    }

    /// The message of the error.
    pub fn to_message(&self) -> (m: String)
        ensures
            m@ == self.message@,
    {
        self.message.clone()
    }
}

/// Results of the library.
pub type AppResult<T> = Result<T, AppError>;

} // verus!
