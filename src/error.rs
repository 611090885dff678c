//! Errors reported to the caller of the library.
use vstd::prelude::*;
use vstd::string::*;

verus! {

/// The failures that abort an operation: unreadable schema text, and
/// failures to read or write files.
#[derive(Debug)]
pub enum AppError {
    ParseError(String),
    Io(String),
    LayoutError(String),
}

pub open spec fn error_text(e: AppError) -> Seq<char> {
    match e {
        AppError::ParseError(m) => "Failed to parse DBML: "@ + m@,
        AppError::Io(m) => "IO error: "@ + m@,
        AppError::LayoutError(m) => "Layout file error: "@ + m@,
    }
}

impl AppError {
    /// The message shown for this error.
    pub fn message(&self) -> (r: String)
        ensures
            r@ == error_text(*self),
    {
        let (prefix, detail) = match self {
            AppError::ParseError(m) => ("Failed to parse DBML: ", m),
            AppError::Io(m) => ("IO error: ", m),
            AppError::LayoutError(m) => ("Layout file error: ", m),
        };
        let mut r = String::from_str(prefix);
        r.append(detail.as_str());
        r
    }
}

} // verus!
