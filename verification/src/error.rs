//! Error handling for the library.

use vstd::prelude::*;
use vstd::string::StringExecFns;

verus! {

/// The main error type for library operations. Each variant carries the
/// message it was raised with; `message` hands the text back.
#[derive(Debug, Clone)]
pub enum Error {
    /// A failure that fits no more specific category.
    Generic(String),
    /// An operating-system or I/O failure, reported by its message.
    System(String),
    /// An invalid argument.
    Argument(String),
    /// A limit was exceeded.
    Limit(String),
    /// An unsupported feature or format.
    Unsupported(String),
    /// Malformed data.
    Format(String),
    /// A syntax error in parsed input.
    Syntax(String),
    /// A PDF-level error.
    Pdf(String),
    /// An encryption error.
    Encryption(String),
    /// A font error.
    Font(String),
    /// An image error.
    Image(String),
    /// Unexpected end of input.
    Eof,
    /// The operation was aborted.
    Abort,
}

impl Error {
    pub fn generic(msg: &str) -> (e: Error)
        ensures
            (e matches Error::Generic(m) && m@ == msg@),
    {
        Error::Generic(String::from_str(msg))
    }

    pub fn system(msg: &str) -> (e: Error)
        ensures
            (e matches Error::System(m) && m@ == msg@),
    {
        Error::System(String::from_str(msg))
    }

    pub fn argument(msg: &str) -> (e: Error)
        ensures
            (e matches Error::Argument(m) && m@ == msg@),
    {
        Error::Argument(String::from_str(msg))
    }

    pub fn limit(msg: &str) -> (e: Error)
        ensures
            (e matches Error::Limit(m) && m@ == msg@),
    {
        Error::Limit(String::from_str(msg))
    }

    pub fn unsupported(msg: &str) -> (e: Error)
        ensures
            (e matches Error::Unsupported(m) && m@ == msg@),
    {
        Error::Unsupported(String::from_str(msg))
    }

    pub fn format(msg: &str) -> (e: Error)
        ensures
            (e matches Error::Format(m) && m@ == msg@),
    {
        Error::Format(String::from_str(msg))
    }

    pub fn syntax(msg: &str) -> (e: Error)
        ensures
            (e matches Error::Syntax(m) && m@ == msg@),
    {
        Error::Syntax(String::from_str(msg))
    }

    pub fn pdf(msg: &str) -> (e: Error)
        ensures
            (e matches Error::Pdf(m) && m@ == msg@),
    {
        Error::Pdf(String::from_str(msg))
    }

    pub fn encryption(msg: &str) -> (e: Error)
        ensures
            (e matches Error::Encryption(m) && m@ == msg@),
    {
        Error::Encryption(String::from_str(msg))
    }

    pub fn font(msg: &str) -> (e: Error)
        ensures
            (e matches Error::Font(m) && m@ == msg@),
    {
        Error::Font(String::from_str(msg))
    }

    pub fn image(msg: &str) -> (e: Error)
        ensures
            (e matches Error::Image(m) && m@ == msg@),
    {
        Error::Image(String::from_str(msg))
    }

    /// The message the error was raised with, or a fixed description for
    /// the variants that carry none.
    pub fn message(&self) -> (m: &str)
        ensures
            match self {
                Error::Generic(s) => m@ == s@,
                Error::System(s) => m@ == s@,
                Error::Argument(s) => m@ == s@,
                Error::Limit(s) => m@ == s@,
                Error::Unsupported(s) => m@ == s@,
                Error::Format(s) => m@ == s@,
                Error::Syntax(s) => m@ == s@,
                Error::Pdf(s) => m@ == s@,
                Error::Encryption(s) => m@ == s@,
                Error::Font(s) => m@ == s@,
                Error::Image(s) => m@ == s@,
                Error::Eof => m@ == "Unexpected end of file"@,
                Error::Abort => m@ == "Operation aborted"@,
            },
    {
        match self {
            Error::Generic(s) => s.as_str(),
            Error::System(s) => s.as_str(),
            Error::Argument(s) => s.as_str(),
            Error::Limit(s) => s.as_str(),
            Error::Unsupported(s) => s.as_str(),
            Error::Format(s) => s.as_str(),
            Error::Syntax(s) => s.as_str(),
            Error::Pdf(s) => s.as_str(),
            Error::Encryption(s) => s.as_str(),
            Error::Font(s) => s.as_str(),
            Error::Image(s) => s.as_str(),
            Error::Eof => "Unexpected end of file",
            Error::Abort => "Operation aborted",
        }
    }
}

} // verus!
