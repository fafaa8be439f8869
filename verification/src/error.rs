//! The errors of the library and their messages.

use vstd::prelude::*;
use crate::text::{concat, concat3, owned, push_str};

verus! {

/// Everything that can go wrong in a command.
#[derive(Debug)]
pub enum OadigError {
    /// A file or stdin could not be read; `source` is the system's message.
    Read { path: String, source: String },
    ParseJson { pointer: String, message: String },
    ParseYaml(String),
    SchemaNotFound(String),
    OperationNotFound { method: String, path: String },
    OperationIdNotFound { id: String },
    OperationIdAmbiguous { id: String, matches: String },
    Other(String),
}

/// What `format!("{:?}", s)` gives for a string: the text quoted, with escapes.
pub uninterp spec fn debug_quoted_spec(s: Seq<char>) -> Seq<char>;

/// The `Debug` rendering of a string (std's `<str as Debug>::fmt`).
#[verifier::external_body]
pub(crate) fn debug_quoted(s: &str) -> (r: String)
    ensures
        r@ == debug_quoted_spec(s@),
{
    format!("{:?}", s)
}

pub open spec fn read_message(path: Seq<char>, source: Seq<char>) -> Seq<char> {
    "failed to read "@ + path + ": "@ + source
}

impl OadigError {
    /// The error for an input that could not be read.
    pub fn read(path: &str, source: String) -> (e: Self)
        ensures
            e matches OadigError::Read { path: p, source: s } && p@ == path@ && s@ == source@,
    {
        OadigError::Read { path: owned(path), source }
    }

    /// The text of the error, as it is shown to the user.
    pub open spec fn message_spec(&self) -> Seq<char> {
        match self {
            OadigError::Read { path, source } => read_message(path@, source@),
            OadigError::ParseJson { pointer, message } => "failed to parse JSON at "@ + pointer@ + ": "@ + message@,
            OadigError::ParseYaml(m) => "failed to parse YAML: "@ + m@,
            OadigError::SchemaNotFound(n) => "schema not found: "@ + n@,
            OadigError::OperationNotFound { method, path } => "operation not found: "@ + method@ + " "@ + path@,
            OadigError::OperationIdNotFound { id } => "no operation with id "@ + debug_quoted_spec(id@)
                + "\nhint: run `oadig operations <file>` to list available operations"@,
            OadigError::OperationIdAmbiguous { id, matches } => "multiple operations match id "@ + debug_quoted_spec(id@)
                + ":\n"@ + matches@ + "\nhint: use -m/-p to disambiguate"@,
            OadigError::Other(m) => m@,
        }
    }

    pub fn message(&self) -> (r: String)
        ensures
            r@ == self.message_spec(),
    {
        match self {
            OadigError::Read { path, source } => {
                let mut r = concat3("failed to read ", path.as_str(), ": ");
                push_str(&mut r, source.as_str());
                r
            },
            OadigError::ParseJson { pointer, message } => {
                let mut r = concat3("failed to parse JSON at ", pointer.as_str(), ": ");
                push_str(&mut r, message.as_str());
                r
            },
            OadigError::ParseYaml(m) => concat("failed to parse YAML: ", m.as_str()),
            OadigError::SchemaNotFound(n) => concat("schema not found: ", n.as_str()),
            OadigError::OperationNotFound { method, path } => {
                let mut r = concat3("operation not found: ", method.as_str(), " ");
                push_str(&mut r, path.as_str());
                r
            },
            OadigError::OperationIdNotFound { id } => {
                let q = debug_quoted(id.as_str());
                concat3("no operation with id ", q.as_str(), "\nhint: run `oadig operations <file>` to list available operations")
            },
            OadigError::OperationIdAmbiguous { id, matches } => {
                let q = debug_quoted(id.as_str());
                let mut r = concat3("multiple operations match id ", q.as_str(), ":\n");
                push_str(&mut r, matches.as_str());
                push_str(&mut r, "\nhint: use -m/-p to disambiguate");
                r
            },
            OadigError::Other(m) => m.clone(),
        }
    }
}

/// `e` is an `Other` error with the text `m`.
pub open spec fn is_other(e: &OadigError, m: Seq<char>) -> bool {
    match e {
        OadigError::Other(x) => x@ == m,
        _ => false,
    }
}

/// An `Other` error with the given text.
pub fn other(msg: String) -> (e: OadigError)
    ensures
        e == OadigError::Other(msg),
{
    OadigError::Other(msg)
}

} // verus!
