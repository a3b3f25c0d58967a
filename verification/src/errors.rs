//! Error taxonomy for the store: validation failures, missing records,
//! storage-layer failures, unreadable obfuscated fields, and I/O errors
//! reported by the surrounding process.

use vstd::prelude::*;

verus! {

/// One error category per failure class that can cross the library
/// boundary.
#[derive(Debug, Clone)]
pub enum AppError {
    Database(String),
    Validation(String),
    NotFound(String),
    Encryption(String),
    Io(String),
}

impl AppError {
    /// The human-readable message for this error: a category prefix
    /// followed by the detail text.
    pub open spec fn spec_message(&self) -> Seq<char> {
        match self {
            AppError::Database(m) => "Database error: "@ + m@,
            AppError::Validation(m) => "Validation error: "@ + m@,
            AppError::NotFound(m) => "Not found: "@ + m@,
            AppError::Encryption(m) => "Encryption error: "@ + m@,
            AppError::Io(m) => "IO error: "@ + m@,
        }
    }

    /// Render the error as one line of text.
    pub fn message(&self) -> (r: String)
        ensures
            r@ == self.spec_message(),
    {
        match self {
            AppError::Database(m) => String::from_str("Database error: ").concat(m.as_str()),
            AppError::Validation(m) => String::from_str("Validation error: ").concat(m.as_str()),
            AppError::NotFound(m) => String::from_str("Not found: ").concat(m.as_str()),
            AppError::Encryption(m) => String::from_str("Encryption error: ").concat(m.as_str()),
            AppError::Io(m) => String::from_str("IO error: ").concat(m.as_str()),
        }
    }
}

} // verus!
