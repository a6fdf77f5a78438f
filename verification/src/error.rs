//! The error type of the library.

use vstd::prelude::*;
use vstd::std_specs::convert::{FromSpec, FromSpecImpl};

use crate::number::{decimal, decimal_text};
use crate::text::{join2, join3};

verus! {

/// Errors returned by network and channel helpers.
#[derive(Debug, Clone, PartialEq, Eq)]
pub enum Error {
    /// DNS resolution failed.
    Dns(String),
    /// TLS handshake or certificate validation failed.
    Tls(String),
    /// The server responded with an HTTP error status.
    Http {
        /// HTTP status code returned by the server.
        status: u16,
        /// Response body returned with the error status.
        body: String,
    },
    /// General I/O error.
    Io(String),
    /// The operation timed out.
    Timeout,
}

/// What an [`Error`] says.
pub enum ErrorView {
    /// See [`Error::Dns`].
    Dns(Seq<char>),
    /// See [`Error::Tls`].
    Tls(Seq<char>),
    /// See [`Error::Http`].
    Http {
        /// The status code.
        status: u16,
        /// The response body.
        body: Seq<char>,
    },
    /// See [`Error::Io`].
    Io(Seq<char>),
    /// See [`Error::Timeout`].
    Timeout,
}

impl View for Error {
    type V = ErrorView;

    open spec fn view(&self) -> ErrorView {
        match *self {
            Error::Dns(message) => ErrorView::Dns(message@),
            Error::Tls(message) => ErrorView::Tls(message@),
            Error::Http { status, body } => ErrorView::Http { status, body: body@ },
            Error::Io(message) => ErrorView::Io(message@),
            Error::Timeout => ErrorView::Timeout,
        }
    }
}

/// A result with its error as a view.
pub open spec fn result_view<T>(r: Result<T, Error>) -> Result<T, ErrorView> {
    match r {
        Ok(value) => Ok(value),
        Err(error) => Err(error@),
    }
}

impl ErrorView {
    /// The error in words.
    pub open spec fn text(self) -> Seq<char> {
        match self {
            ErrorView::Dns(message) => "DNS error: "@ + message,
            ErrorView::Tls(message) => "TLS error: "@ + message,
            ErrorView::Http { status, body } => "HTTP "@ + decimal(status as nat) + ": "@ + body,
            ErrorView::Io(message) => "I/O error: "@ + message,
            ErrorView::Timeout => "operation timed out"@,
        }
    }
}

impl Error {
    /// The error in words.
    pub fn to_string(&self) -> (r: String)
        ensures
            r@ == self@.text(),
    {
        match self {
            Error::Dns(message) => join2("DNS error: ", message.as_str()),
            Error::Tls(message) => join2("TLS error: ", message.as_str()),
            Error::Http { status, body } => {
                let head = join3("HTTP ", decimal_text(*status as u64).as_str(), ": ");
                join2(head.as_str(), body.as_str())
            },
            Error::Io(message) => join2("I/O error: ", message.as_str()),
            Error::Timeout => "operation timed out".to_owned(),
        }
    }
}

/// The classes of I/O failure that are told apart.
#[derive(Debug, Clone, Copy, PartialEq, Eq, Structural)]
pub enum IoKind {
    /// The operation ran into its time limit.
    TimedOut,
    /// The stream ended where more was due.
    UnexpectedEof,
    /// Anything else.
    Other,
}

/// A failed I/O operation: its class, and the failure in words.
#[derive(Debug, Clone, PartialEq, Eq)]
pub struct IoFailure {
    /// The class of the failure.
    pub kind: IoKind,
    /// The failure in words.
    pub message: String,
}

impl IoFailure {
    /// What the failure is to the callers of the library.
    pub open spec fn error(self) -> ErrorView {
        if self.kind == IoKind::TimedOut {
            ErrorView::Timeout
        } else {
            ErrorView::Io(self.message@)
        }
    }
}

impl From<IoFailure> for Error {
    fn from(failure: IoFailure) -> (r: Error) {
        if failure.kind == IoKind::TimedOut {
            Error::Timeout
        } else {
            Error::Io(failure.message)
        }
    }
}

impl FromSpecImpl<IoFailure> for Error {
    open spec fn obeys_from_spec() -> bool {
        true
    }

    open spec fn from_spec(failure: IoFailure) -> Error {
        if failure.kind == IoKind::TimedOut {
            Error::Timeout
        } else {
            Error::Io(failure.message)
        }
    }
}

/// The error in words: its class, and what it says. An HTTP error says the status in decimal notation
/// and the body.
pub proof fn law_error_in_words(message: Seq<char>, status: u16, body: Seq<char>)
    ensures
        ErrorView::Dns(message).text() == "DNS error: "@ + message,
        ErrorView::Tls(message).text() == "TLS error: "@ + message,
        ErrorView::Io(message).text() == "I/O error: "@ + message,
        (ErrorView::Http { status, body }).text() == "HTTP "@ + decimal(status as nat) + ": "@ + body,
        ErrorView::Timeout.text() == "operation timed out"@,
{
}

/// A failure of a stream is a timeout exactly if it ran into its time limit. Any other is an I/O error
/// with its words.
pub proof fn law_failure_is_reported(failure: IoFailure)
    ensures
        failure.kind is TimedOut ==> failure.error() == ErrorView::Timeout,
        !(failure.kind is TimedOut) ==> failure.error() == ErrorView::Io(failure.message@),
        <Error as FromSpec<IoFailure>>::from_spec(failure)@ == failure.error(),
{
}

/// An error is seen with its class and all that it says.
pub proof fn law_error_is_seen_whole<T>(error: Error, value: Result<T, Error>)
    ensures
        match error {
            Error::Dns(message) => error@ == ErrorView::Dns(message@),
            Error::Tls(message) => error@ == ErrorView::Tls(message@),
            Error::Http { status, body } => error@ == (ErrorView::Http { status, body: body@ }),
            Error::Io(message) => error@ == ErrorView::Io(message@),
            Error::Timeout => error@ == ErrorView::Timeout,
        },
        match value {
            Ok(v) => result_view(value) == Ok::<T, ErrorView>(v),
            Err(e) => result_view(value) == Err::<T, ErrorView>(e@),
        },
{
}

} // verus!
