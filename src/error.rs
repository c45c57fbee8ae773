//! The errors that end a decode.

use vstd::prelude::*;

verus! {

/// Why a decode ended early.
///
/// Transport failures carry a description of their cause; protocol failures
/// carry what the decoder saw.
#[derive(Debug)]
pub enum Error {
    /// The request failed before any byte of the body arrived.
    HttpRequest(String),
    /// Reading the body failed after streaming had begun.
    HttpStream(String),
    /// The stream closed while an event was still incomplete.
    UnexpectedEof,
    /// A line that does not follow the event-stream grammar, as text.
    InvalidLine(String),
    /// An event type that is not well-formed UTF-8.
    InvalidEventType(std::str::Utf8Error),
    /// Any other failure, with a description of its cause.
    Unexpected(String),
}

/// The result of a fallible decoder operation.
pub type Result<T> = std::result::Result<T, Error>;

/// The mathematical content of an [`Error`]: its kind and its text.
pub enum ErrorView {
    HttpRequest(Seq<char>),
    HttpStream(Seq<char>),
    UnexpectedEof,
    InvalidLine(Seq<char>),
    InvalidEventType,
    Unexpected(Seq<char>),
}

impl View for Error {
    type V = ErrorView;

    open spec fn view(&self) -> ErrorView {
        match self {
            Error::HttpRequest(m) => ErrorView::HttpRequest(m@),
            Error::HttpStream(m) => ErrorView::HttpStream(m@),
            Error::UnexpectedEof => ErrorView::UnexpectedEof,
            Error::InvalidLine(m) => ErrorView::InvalidLine(m@),
            Error::InvalidEventType(_) => ErrorView::InvalidEventType,
            Error::Unexpected(m) => ErrorView::Unexpected(m@),
        }
    }
}

/// Two errors compare equal only when both are invalid lines with the same
/// text, or both are premature ends of stream; errors that wrap a cause are
/// never equal.
pub open spec fn errors_match(a: ErrorView, b: ErrorView) -> bool {
    match (a, b) {
        (ErrorView::InvalidLine(x), ErrorView::InvalidLine(y)) => x == y,
        (ErrorView::UnexpectedEof, ErrorView::UnexpectedEof) => true,
        _ => false,
    }
}

impl PartialEq for Error {
    fn eq(&self, other: &Error) -> (r: bool)
        ensures
            r == errors_match(self@, other@),
    {
        match (self, other) {
            (Error::InvalidLine(a), Error::InvalidLine(b)) => a.eq(b),
            (Error::UnexpectedEof, Error::UnexpectedEof) => true,
            _ => false,
        }
    }
}

impl vstd::std_specs::cmp::PartialEqSpecImpl for Error {
    open spec fn obeys_eq_spec() -> bool {
        true
    }

    open spec fn eq_spec(&self, other: &Error) -> bool {
        errors_match(self@, other@)
    }
}

impl Error {
    /// Whether this is a failure while reading an already open body.
    pub fn is_http_stream_error(&self) -> (r: bool)
        ensures
            r <==> self@ is HttpStream,
    {
        if let Error::HttpStream(_) = self {
            return true;
        }
        false
    }

    /// The description of the underlying cause, for the kinds that wrap one.
    pub fn source(&self) -> (r: Option<&String>)
        ensures
            match self {
                Error::HttpRequest(m) => r == Some(m),
                Error::HttpStream(m) => r == Some(m),
                Error::Unexpected(m) => r == Some(m),
                _ => r is None,
            },
    {
        match self {
            Error::HttpRequest(m) => Some(m),
            Error::HttpStream(m) => Some(m),
            Error::Unexpected(m) => Some(m),
            _ => None,
        }
    }

    /// Whether the error came from the transport rather than from the
    /// stream's content; only such failures are worth a new connection.
    pub fn is_transport_error(&self) -> (r: bool)
        ensures
            r <==> (self@ is HttpRequest || self@ is HttpStream),
    {
        match self {
            Error::HttpRequest(_) | Error::HttpStream(_) => true,
            _ => false,
        }
    }
}

} // verus!
