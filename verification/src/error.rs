//! The errors that the library reports.
use vstd::prelude::*;

verus! {

/// What went wrong, with a message for the user.
#[derive(Debug, Clone)]
pub enum AppError {
    /// The caller handed in a value that the rules refuse.
    InvalidInput(String),
    /// An outside command or process failed.
    CommandFailed(String),
    /// The store refused a change.
    Database(String),
    /// Reading or writing a file failed.
    Io(String),
}

impl AppError {
    /// The message that the error carries.
    pub fn message(&self) -> (r: &str)
        ensures
            r@ == match self {
                AppError::InvalidInput(m) => m@,
                AppError::CommandFailed(m) => m@,
                AppError::Database(m) => m@,
                AppError::Io(m) => m@,
            },
    {
        match self {
            AppError::InvalidInput(m) => m.as_str(),
            AppError::CommandFailed(m) => m.as_str(),
            AppError::Database(m) => m.as_str(),
            AppError::Io(m) => m.as_str(),
        }
    }
}

} // verus!
