//! Typed errors surfaced by the library. Store failures become `Database`,
//! rejected query parameters become `InvalidInput`; the producing loops are
//! expected to log such errors and keep running.

use vstd::prelude::*;

verus! {

/// Error taxonomy of the library.
#[derive(Debug, Clone)]
pub enum AppError {
    /// The persistence layer rejected or failed an operation.
    Database(String),
    /// A query parameter was rejected (an invalid time range, an out-of-range
    /// timestamp, a negative duration).
    InvalidInput(String),
    /// A referenced entity does not exist.
    NotFound(String),
    /// Screenshot handling failed.
    Screenshot(String),
    /// Icon extraction failed.
    IconExtraction(String),
}

impl AppError {
    /// A human-readable description of the error.
    pub fn message(&self) -> (r: String)
        ensures
            r@ == self.message_spec(),
    {
        let (prefix, detail): (&str, &String) = match self {
            AppError::Database(s) => ("database error: ", s),
            AppError::InvalidInput(s) => ("invalid input: ", s),
            AppError::NotFound(s) => ("not found: ", s),
            AppError::Screenshot(s) => ("screenshot error: ", s),
            AppError::IconExtraction(s) => ("icon extraction error: ", s),
        };
        let mut r = String::from_str(prefix);
        r.append(detail.as_str());
        r
    }

    pub open spec fn message_spec(self) -> Seq<char> {
        match self {
            AppError::Database(s) => "database error: "@ + s@,
            AppError::InvalidInput(s) => "invalid input: "@ + s@,
            AppError::NotFound(s) => "not found: "@ + s@,
            AppError::Screenshot(s) => "screenshot error: "@ + s@,
            AppError::IconExtraction(s) => "icon extraction error: "@ + s@,
        }
    }
}

} // verus!
