//! The response builder: a status code, optional headers and an optional
//! body, serialized to the wire form the protocol asks for.

use vstd::prelude::*;
use vstd::utf8::encode_utf8;

use crate::headers::Headers;
use crate::text::{chars_to_string, spec_dec, usize_to_dec};

verus! {

/// An HTTP response.
#[derive(Debug)]
pub struct Response {
    pub status_code: u16,
    pub headers: Option<Headers>,
    pub body: Option<Vec<u8>>,
}

/// The mathematical form of a response: absent headers are the empty entry
/// sequence.
#[verifier::ext_equal]
pub struct ResponseView {
    pub status_code: u16,
    pub headers: Seq<(Seq<char>, Seq<char>)>,
    pub body: Option<Seq<u8>>,
}

impl View for Response {
    type V = ResponseView;

    open spec fn view(&self) -> ResponseView {
        ResponseView {
            status_code: self.status_code,
            headers: match &self.headers {
                Some(h) => h@,
                None => Seq::empty(),
            },
            body: match &self.body {
                Some(b) => Some(b@),
                None => None,
            },
        }
    }
}

/// The header entries serialized in order, each as `Key: Value` and a line
/// break.
pub open spec fn spec_headers_chars(entries: Seq<(Seq<char>, Seq<char>)>, upto: int) -> Seq<char>
    decreases upto,
{
    if upto <= 0 {
        Seq::empty()
    } else {
        spec_headers_chars(entries, upto - 1) + entries[upto - 1].0 + ": "@ + entries[upto - 1].1
            + "\r\n"@
    }
}

/// The textual head of a serialized response: the status line, the headers,
/// the fixed server and connection lines, a `Content-Length` line exactly
/// when a body is present, and the blank line terminator.
pub open spec fn spec_head_chars(r: ResponseView) -> Seq<char> {
    "HTTP/1.1 "@ + spec_dec(r.status_code as nat) + "\r\n"@ + spec_headers_chars(
        r.headers,
        r.headers.len() as int,
    ) + "Connection: keep-alive\r\n"@ + "Server: Blitzkrieg\r\n"@ + (match r.body {
        Some(b) => "Content-Length: "@ + spec_dec(b.len()) + "\r\n"@,
        None => Seq::empty(),
    }) + "\r\n"@
}

/// The wire form of a response: the head as UTF-8, then the body bytes
/// verbatim, none when the body is absent.
pub open spec fn spec_serialize(r: ResponseView) -> Seq<u8> {
    encode_utf8(spec_head_chars(r)) + (match r.body {
        Some(b) => b,
        None => Seq::empty(),
    })
}

impl Response {
    /// A response with the given status and neither headers nor body.
    pub fn new(status_code: u16) -> (r: Response)
        ensures
            r@.status_code == status_code,
            r@.headers == Seq::<(Seq<char>, Seq<char>)>::empty(),
            r@.body is None,
    {
        Response { status_code, headers: None, body: None }
    }

    /// The same response carrying the given headers.
    pub fn headers(self, headers: Headers) -> (r: Response)
        ensures
            r@.status_code == self@.status_code,
            r@.headers == headers@,
            r@.body == self@.body,
    {
        Response { headers: Some(headers), ..self }
    }

    /// The same response carrying the given text as its body, UTF-8
    /// encoded.
    pub fn body(self, body: &str) -> (r: Response)
        ensures
            r@.status_code == self@.status_code,
            r@.headers == self@.headers,
            r@.body == Some(encode_utf8(body@)),
    {
        let bytes = body.as_bytes_vec();
        Response { body: Some(bytes), ..self }
    }

    /// The response's wire form, exactly as `spec_serialize` names it.
    #[verifier::loop_isolation(false)]
    pub fn into_bytes(self) -> (r: Vec<u8>)
        ensures
            r@ == spec_serialize(self@),
    {
        let mut head = String::new();
        head.append("HTTP/1.1 ");
        let status_digits = chars_to_string(&usize_to_dec(self.status_code as usize));
        head.append(status_digits.as_str());
        head.append("\r\n");
        match &self.headers {
            None => {},
            Some(headers) => {
                let n = headers.len();
                let mut i: usize = 0;
                while i < n
                    invariant
                        i <= n,
                        n == headers@.len(),
                        head@ == "HTTP/1.1 "@ + spec_dec(self.status_code as nat) + "\r\n"@
                            + spec_headers_chars(headers@, i as int),
                    decreases n - i,
                {
                    let entry = headers.entry_at(i);
                    head.append(entry.0.as_str());
                    head.append(": ");
                    head.append(entry.1.as_str());
                    head.append("\r\n");
                    i = i + 1;
                }
            },
        }
        head.append("Connection: keep-alive\r\n");
        head.append("Server: Blitzkrieg\r\n");
        match &self.body {
            None => {},
            Some(b) => {
                head.append("Content-Length: ");
                let len_digits = chars_to_string(&usize_to_dec(b.len()));
                head.append(len_digits.as_str());
                head.append("\r\n");
            },
        }
        head.append("\r\n");
        proof {
            assert(head@ =~= spec_head_chars(self@));
        }
        let mut out = head.as_str().as_bytes_vec();
        match self.body {
            None => {
                proof {
                    assert(out@ =~= spec_serialize(self@));
                }
                out
            },
            Some(body) => {
                let mut body = body;
                out.append(&mut body);
                proof {
                    assert(out@ =~= spec_serialize(self@));
                }
                out
            },
        }
    }
}

} // verus!
