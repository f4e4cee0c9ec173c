//! The per-connection protocol step: what to do next with a connection's
//! buffered bytes.  The surrounding loop owns the socket; it feeds chunks to
//! the framer and obeys the step returned here — read more, hand a parsed
//! request to the handler, or write an error response and close.

use vstd::prelude::*;
use vstd::utf8::encode_utf8;

use crate::errors::{spec_message, ErrView, RequestError};
use crate::framer::{spec_frame, Framer, FrameStep};
use crate::request::{spec_parse, Request};
use crate::response::{spec_serialize, Response, ResponseView};

verus! {

/// The wire form of the error response that answers `e`: status 500, no
/// extra headers, the error's text as the body.
pub open spec fn spec_error_response(e: ErrView) -> Seq<u8> {
    spec_serialize(
        ResponseView {
            status_code: 500,
            headers: Seq::empty(),
            body: Some(encode_utf8(spec_message(e))),
        },
    )
}

/// The error response that answers `e`, serialized.
pub fn error_response(e: &RequestError) -> (r: Vec<u8>)
    ensures
        r@ == spec_error_response(e@),
{
    let msg = e.message();
    Response::new(500).body(msg.as_str()).into_bytes()
}

/// What the connection loop does next.
pub enum ConnStep {
    /// No whole message is buffered: read more bytes, or close cleanly if
    /// the peer is done.
    NeedMore,
    /// A request was parsed: hand it to the handler, write the handler's
    /// response, and step again, since pipelined requests may already be
    /// buffered.
    Dispatch(Request),
    /// The message was unusable: write these bytes as a best-effort error
    /// response, then close the connection.
    SendErrorAndClose(Vec<u8>),
}

/// One protocol step on a connection's buffered bytes: frames the next
/// message if it is whole, parses it, and turns any failure into the error
/// response that closes the connection.
pub fn connection_step(framer: &mut Framer) -> (r: ConnStep)
    ensures
        match spec_frame(old(framer)@) {
            FrameStep::Incomplete => r is NeedMore && final(framer)@ == old(framer)@,
            FrameStep::Invalid(e) => {
                &&& (r matches ConnStep::SendErrorAndClose(b) && b@ == spec_error_response(e))
                &&& final(framer)@ == old(framer)@
            },
            FrameStep::Complete { head, body, rest } => {
                &&& final(framer)@ == rest
                &&& match spec_parse(head, body) {
                    Ok(rv) => r matches ConnStep::Dispatch(req) && req@ == rv && req.wf(),
                    Err(e) => r matches ConnStep::SendErrorAndClose(b) && b@
                        == spec_error_response(e),
                }
            },
        },
{
    match framer.try_frame() {
        Ok(None) => ConnStep::NeedMore,
        Err(e) => ConnStep::SendErrorAndClose(error_response(&e)),
        Ok(Some((head, body))) => match Request::parse(head, body) {
            Ok(req) => ConnStep::Dispatch(req),
            Err(e) => ConnStep::SendErrorAndClose(error_response(&e)),
        },
    }
}

} // verus!
