//! The error type every fallible operation of the library reports.
use vstd::prelude::*;

verus! {

/// Why an operation failed; each variant carries the user-facing message.
#[derive(Debug)]
pub enum AppError {
    NotFoundError(String),
    InvalidInput(String),
    ConfigError(String),
    IoError(String),
    UserCancelled(String),
    FileProcessingError(String),
}

impl AppError {
    /// The message, without the variant.
    pub open spec fn message_view(&self) -> Seq<char> {
        match self {
            AppError::NotFoundError(m) => m@,
            AppError::InvalidInput(m) => m@,
            AppError::ConfigError(m) => m@,
            AppError::IoError(m) => m@,
            AppError::UserCancelled(m) => m@,
            AppError::FileProcessingError(m) => m@,
        }
    }

    /// The message this error carries.
    pub fn message(&self) -> (r: String)
        ensures
            r@ == self.message_view(),
    {
        match self {
            AppError::NotFoundError(m) => m.clone(),
            AppError::InvalidInput(m) => m.clone(),
            AppError::ConfigError(m) => m.clone(),
            AppError::IoError(m) => m.clone(),
            AppError::UserCancelled(m) => m.clone(),
            AppError::FileProcessingError(m) => m.clone(),
        }
    }
}

} // verus!
