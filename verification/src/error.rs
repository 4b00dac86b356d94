//! The error taxonomy surfaced to callers of the engine.

use vstd::prelude::*;
use vstd::string::*;

verus! {

/// What can go wrong while a definition is parsed, resolved against a
/// schema, or composed into an operator.
#[derive(Debug)]
pub enum Error {
    /// An underlying input/output failure, reported by the host.
    Io(String),
    /// A general error with a fixed description.
    General(&'static str),
    /// A syntax error in a definition, carrying the offending fragment.
    Syntax(String),
    /// An operator-specific failure: operator name and detail.
    Operator(&'static str, &'static str),
    /// A header differed from what was expected.
    InvalidHeader { expected: String, found: String },
    /// Something else differed from what was expected.
    Unexpected { message: String, expected: String, found: String },
    /// No operator of this name is registered; the second field is a hint.
    NotFound(String, String),
    /// A chain of `^`-indirections exceeded the recursion bound.
    Recursion(String, String),
    /// A schema entry without a default found no value.
    MissingParam(String),
    /// A value could not be coerced to its declared type.
    BadParam(String, String),
    /// An error nothing more specific fits.
    Unknown,
}

/// The description `text` returns for each error.
pub open spec fn error_text_spec(e: Error) -> Seq<char> {
    match e {
        Error::Io(_) => "i/o error"@,
        Error::General(m) => "error: "@ + m@,
        Error::Syntax(d) => "syntax error: "@ + d@,
        Error::Operator(name, detail) => name@ + ": "@ + detail@,
        Error::InvalidHeader { expected, found } => "invalid header (expected \""@ + expected@
            + "\", found \""@ + found@ + "\")"@,
        Error::Unexpected { message, expected, found } => "\""@ + message@ + "\" (expected \""@
            + expected@ + "\", found \""@ + found@ + "\")"@,
        Error::NotFound(name, hint) => "operator "@ + name@ + " not found"@ + hint@,
        Error::Recursion(key, at) => "recursion too deep for "@ + key@ + ", at "@ + at@,
        Error::MissingParam(key) => "missing required parameter "@ + key@,
        Error::BadParam(key, value) => "malformed value for parameter "@ + key@ + ": "@ + value@,
        Error::Unknown => "unknown error"@,
    }
}

impl Error {
    /// The error's description, one line of text.
    pub fn text(&self) -> (r: String)
        ensures
            r@ == error_text_spec(*self),
    {
        match self {
            Error::Io(_) => String::from_str("i/o error"),
            Error::General(m) => {
                let mut r = String::from_str("error: ");
                r.append(m);
                r
            },
            Error::Syntax(d) => {
                let mut r = String::from_str("syntax error: ");
                r.append(d.as_str());
                r
            },
            Error::Operator(name, detail) => {
                let mut r = String::from_str(*name);
                r.append(": ");
                r.append(detail);
                r
            },
            Error::InvalidHeader { expected, found } => {
                let mut r = String::from_str("invalid header (expected \"");
                r.append(expected.as_str());
                r.append("\", found \"");
                r.append(found.as_str());
                r.append("\")");
                r
            },
            Error::Unexpected { message, expected, found } => {
                let mut r = String::from_str("\"");
                r.append(message.as_str());
                r.append("\" (expected \"");
                r.append(expected.as_str());
                r.append("\", found \"");
                r.append(found.as_str());
                r.append("\")");
                r
            },
            Error::NotFound(name, hint) => {
                let mut r = String::from_str("operator ");
                r.append(name.as_str());
                r.append(" not found");
                r.append(hint.as_str());
                r
            },
            Error::Recursion(key, at) => {
                let mut r = String::from_str("recursion too deep for ");
                r.append(key.as_str());
                r.append(", at ");
                r.append(at.as_str());
                r
            },
            Error::MissingParam(key) => {
                let mut r = String::from_str("missing required parameter ");
                r.append(key.as_str());
                r
            },
            Error::BadParam(key, value) => {
                let mut r = String::from_str("malformed value for parameter ");
                r.append(key.as_str());
                r.append(": ");
                r.append(value.as_str());
                r
            },
            Error::Unknown => String::from_str("unknown error"),
        }
    }
}

} // verus!
