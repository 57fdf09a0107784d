//! The library's error type.

use vstd::prelude::*;

verus! {

/// What is known of a failed HTTP request: its description, whether it timed
/// out or failed to connect, and the response status, if one came.
#[derive(Clone, Debug)]
pub struct HttpFailure {
    pub message: String,
    pub timeout: bool,
    pub connect: bool,
    pub status: Option<u16>,
}

#[derive(Clone, Debug)]
pub enum AppError {
    Config(String),
    Database(String),
    Migration(String),
    Http(HttpFailure),
    Parse(String),
    Io(String),
    InvalidData(String),
}

pub type Result<T> = std::result::Result<T, AppError>;

/// The message of an error: its kind, then its details.
pub open spec fn error_text(e: AppError) -> Seq<char> {
    match e {
        AppError::Config(m) => "Configuration error: "@ + m@,
        AppError::Database(m) => "Database error: "@ + m@,
        AppError::Migration(m) => "Migration error: "@ + m@,
        AppError::Http(f) => "HTTP request error: "@ + f.message@,
        AppError::Parse(m) => "Parse error: "@ + m@,
        AppError::Io(m) => "IO error: "@ + m@,
        AppError::InvalidData(m) => "Invalid data: "@ + m@,
    }
}

impl AppError {
    /// The message of this error (see `error_text`).
    pub fn to_string(&self) -> (r: String)
        ensures
            r@ == error_text(*self),
    {
        let (kind, detail) = match self {
            AppError::Config(m) => ("Configuration error: ", m),
            AppError::Database(m) => ("Database error: ", m),
            AppError::Migration(m) => ("Migration error: ", m),
            AppError::Http(f) => ("HTTP request error: ", &f.message),
            AppError::Parse(m) => ("Parse error: ", m),
            AppError::Io(m) => ("IO error: ", m),
            AppError::InvalidData(m) => ("Invalid data: ", m),
        };
        let mut r = crate::text::text(kind);
        r.append(detail.as_str());
        r
    }
}

} // verus!
