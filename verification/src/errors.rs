//! The errors a request can fail with.  Every parsing or framing failure is
//! a value of `RequestError`; none aborts a worker.

use vstd::prelude::*;

verus! {

/// Why a request could not be read or parsed.
///
/// `TransportError` is connection-fatal: the stream failed, and no response
/// is sent.  `MalformedLength` is a framing failure; the parse failures are
/// the remaining variants.  Each of those is answered with one error
/// response, and then the connection is closed.
#[derive(Debug)]
pub enum RequestError {
    /// The stream failed while a message was being read.
    TransportError,
    /// A `Content-Length` header held no unsigned integer.
    MalformedLength,
    /// The first line held fewer than two tokens.
    MalformedStatusLine,
    /// A header line held no `": "` separator.
    MalformedHeader,
    /// The method token, carried here, named no known method.
    UnknownMethod(String),
    /// Header text or a text body was not UTF-8.
    InvalidEncoding,
    /// A multipart body could not be decoded.
    MalformedFormdata,
}

/// The mathematical form of a `RequestError`: the method token becomes a
/// character sequence.
pub enum ErrView {
    TransportError,
    MalformedLength,
    MalformedStatusLine,
    MalformedHeader,
    UnknownMethod(Seq<char>),
    InvalidEncoding,
    MalformedFormdata,
}

impl View for RequestError {
    type V = ErrView;

    open spec fn view(&self) -> ErrView {
        match self {
            RequestError::TransportError => ErrView::TransportError,
            RequestError::MalformedLength => ErrView::MalformedLength,
            RequestError::MalformedStatusLine => ErrView::MalformedStatusLine,
            RequestError::MalformedHeader => ErrView::MalformedHeader,
            RequestError::UnknownMethod(m) => ErrView::UnknownMethod(m@),
            RequestError::InvalidEncoding => ErrView::InvalidEncoding,
            RequestError::MalformedFormdata => ErrView::MalformedFormdata,
        }
    }
}

/// The text that an error response carries for each error.
pub open spec fn spec_message(e: ErrView) -> Seq<char> {
    match e {
        ErrView::TransportError => "Transport error"@,
        ErrView::MalformedLength => "Invalid Content-Length value"@,
        ErrView::MalformedStatusLine => "Malformed status line"@,
        ErrView::MalformedHeader => "Malformed header"@,
        ErrView::UnknownMethod(m) => "Unknown HTTP method: "@ + m,
        ErrView::InvalidEncoding => "Invalid text encoding"@,
        ErrView::MalformedFormdata => "Error while parsing form data"@,
    }
}

impl RequestError {
    /// The error's text, as it is sent in an error response.
    pub fn message(&self) -> (r: String)
        ensures
            r@ == spec_message(self@),
    {
        match self {
            RequestError::TransportError => {
                let mut s = String::new();
                s.append("Transport error");
                s
            },
            RequestError::MalformedLength => {
                let mut s = String::new();
                s.append("Invalid Content-Length value");
                s
            },
            RequestError::MalformedStatusLine => {
                let mut s = String::new();
                s.append("Malformed status line");
                s
            },
            RequestError::MalformedHeader => {
                let mut s = String::new();
                s.append("Malformed header");
                s
            },
            RequestError::UnknownMethod(m) => {
                let mut s = String::new();
                s.append("Unknown HTTP method: ");
                s.append(m.as_str());
                s
            },
            RequestError::InvalidEncoding => {
                let mut s = String::new();
                s.append("Invalid text encoding");
                s
            },
            RequestError::MalformedFormdata => {
                let mut s = String::new();
                s.append("Error while parsing form data");
                s
            },
        }
    }
}

} // verus!
