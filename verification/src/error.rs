//! The single error type of the library.
//!
//! Every failure is terminal for the invocation: it carries a kind, a detail
//! string, and renders as one human-readable line.

use vstd::prelude::*;
use vstd::string::*;

verus! {

/// What went wrong.
#[derive(Clone, Copy, PartialEq, Eq, Structural, Debug)]
pub enum ErrorKind {
    /// A malformed parameter token.
    Argument,
    /// The base URL did not parse.
    Url,
    /// A JSON-typed parameter value was not valid JSON.
    Json,
    /// The transport failed (DNS, connection, TLS, ...).
    Http,
    /// Writing the output file failed.
    Io,
}

/// One terminal failure, with the detail text that the message embeds.
#[derive(Debug)]
pub struct Error {
    kind: ErrorKind,
    detail: String,
}

/// The fixed message prefix of each error kind.
pub open spec fn kind_prefix(k: ErrorKind) -> Seq<char> {
    match k {
        ErrorKind::Argument => "An invalid argument was provided: "@,
        ErrorKind::Url => "An error occurred while parsing the URL: "@,
        ErrorKind::Json => "An error occurred while parsing a JSON argument: "@,
        ErrorKind::Http => "An error occurred while making an HTTP request: "@,
        ErrorKind::Io => "An I/O error occured: "@,
    }
}

impl Error {
    pub closed spec fn spec_kind(&self) -> ErrorKind {
        self.kind
    }

    pub closed spec fn spec_detail(&self) -> Seq<char> {
        self.detail@
    }

    /// The message this error renders as.
    pub open spec fn spec_message(&self) -> Seq<char> {
        kind_prefix(self.spec_kind()) + self.spec_detail()
    }

    pub fn new(kind: ErrorKind, detail: String) -> (e: Error)
        ensures
            e.spec_kind() == kind,
            e.spec_detail() == detail@,
    {
        Error { kind, detail }
    }

    /// An error for a parameter token that matched no grammar; it carries the
    /// offending token verbatim.
    pub fn argument_error(arg: &str) -> (e: Error)
        ensures
            e.spec_kind() == ErrorKind::Argument,
            e.spec_detail() == arg@,
    {
        Error { kind: ErrorKind::Argument, detail: String::from_str(arg) }
    }

    pub fn kind(&self) -> (k: ErrorKind)
        ensures
            k == self.spec_kind(),
    {
        self.kind
    }

    pub fn detail(&self) -> (d: &str)
        ensures
            d@ == self.spec_detail(),
    {
        self.detail.as_str()
    }

    /// The single human-readable line that surfaces at the top level.
    pub fn message(&self) -> (m: String)
        ensures
            m@ == self.spec_message(),
    {
        let prefix: &str = match self.kind {
            ErrorKind::Argument => "An invalid argument was provided: ",
            ErrorKind::Url => "An error occurred while parsing the URL: ",
            ErrorKind::Json => "An error occurred while parsing a JSON argument: ",
            ErrorKind::Http => "An error occurred while making an HTTP request: ",
            ErrorKind::Io => "An I/O error occured: ",
        };
        String::from_str(prefix).concat(self.detail.as_str())
    }
}

} // verus!
