//! The connection framer: it is fed raw byte chunks as they arrive from a
//! stream, and it cuts exact messages out of the accumulated bytes.
//!
//! A message is header text up to and including the blank line, followed by
//! exactly as many body bytes as the `Content-Length` header names (none
//! when the header is absent).  Because feeding bytes only concatenates
//! them, what is framed depends on the byte sequence alone, never on how it
//! was chunked; and one framer is reused for the next message of the same
//! stream, which is what request pipelining needs.

use vstd::prelude::*;
use vstd::utf8::{decode_utf8, valid_utf8};

use crate::bytes::{
    bfind_sub, bmatch_at, bsubvec, bytes_to_string, lemma_bfind_first, lemma_bfind_props,
    spec_bfind,
};
use crate::errors::{ErrView, RequestError};
use crate::text::{
    chars_of, find_sub, lemma_find_props, match_at, match_at_exec, parse_dec, spec_all_digits,
    spec_dec_val, spec_find, spec_split, spec_trim, split, subvec, trim,
};

verus! {

/// The header/body separator: a blank line.
pub open spec fn spec_crlfcrlf() -> Seq<u8> {
    seq![13u8, 10u8, 13u8, 10u8]
}

/// What one `Content-Length` line names, given the text after its first
/// colon: the digits with surrounding whitespace removed.  `Err(())` when
/// they name no unsigned integer that a length can hold.
pub open spec fn spec_cl_value(after_colon: Seq<char>) -> Result<int, ()> {
    let val = spec_trim(after_colon);
    if val.len() > 0 && spec_all_digits(val) && spec_dec_val(val) <= usize::MAX {
        Ok(spec_dec_val(val))
    } else {
        Err(())
    }
}

/// The content length named by `lines[..upto]`: the last `Content-Length`
/// line wins; `Ok(None)` when none is there; `Err(())` when one is
/// malformed.
pub open spec fn spec_cl_lines(lines: Seq<Seq<char>>, upto: int) -> Result<Option<int>, ()>
    decreases upto,
{
    if upto <= 0 {
        Ok(None)
    } else {
        match spec_cl_lines(lines, upto - 1) {
            Err(()) => Err(()),
            Ok(prev) => {
                let line = lines[upto - 1];
                if match_at(line, "Content-Length"@, 0) {
                    let c = spec_find(line, ":"@, 0);
                    if c < 0 {
                        Err(())
                    } else {
                        match spec_cl_value(line.subrange(c + 1, line.len() as int)) {
                            Err(()) => Err(()),
                            Ok(v) => Ok(Some(v)),
                        }
                    }
                } else {
                    Ok(prev)
                }
            },
        }
    }
}

/// The content length of a whole header text: its lines are scanned, absence
/// means zero.
pub open spec fn spec_content_length(head: Seq<char>) -> Result<int, ()> {
    let lines = spec_split(head, "\n"@);
    match spec_cl_lines(lines, lines.len() as int) {
        Err(()) => Err(()),
        Ok(None) => Ok(0),
        Ok(Some(v)) => Ok(v),
    }
}

/// Once a `Content-Length` line is malformed, the whole scan is.
proof fn lemma_cl_lines_err(lines: Seq<Seq<char>>, a: int, b: int)
    requires
        a <= b,
        spec_cl_lines(lines, a) is Err,
    ensures
        spec_cl_lines(lines, b) is Err,
    decreases b - a,
{
    if b > a {
        lemma_cl_lines_err(lines, a, b - 1);
    }
}

/// What framing a buffer yields.
pub enum FrameStep {
    /// No whole message is buffered yet: more bytes are needed, or the
    /// stream ended between messages.
    Incomplete,
    /// The buffered header is unusable; the carried error says why.
    Invalid(ErrView),
    /// One whole message: its header text, its body bytes, and the bytes
    /// after it, which belong to the next message.
    Complete { head: Seq<char>, body: Seq<u8>, rest: Seq<u8> },
}

/// What framing the buffered bytes `b` yields: the header text runs up to
/// and including the first blank line; the body is exactly as long as the
/// `Content-Length` header says.
pub open spec fn spec_frame(b: Seq<u8>) -> FrameStep {
    let h = spec_bfind(b, spec_crlfcrlf(), 0);
    if h < 0 {
        FrameStep::Incomplete
    } else {
        let head_bytes = b.subrange(0, h + 4);
        if !valid_utf8(head_bytes) {
            FrameStep::Invalid(ErrView::InvalidEncoding)
        } else {
            let head = decode_utf8(head_bytes);
            match spec_content_length(head) {
                Err(()) => FrameStep::Invalid(ErrView::MalformedLength),
                Ok(cl) => if h + 4 + cl <= b.len() {
                    FrameStep::Complete {
                        head,
                        body: b.subrange(h + 4, h + 4 + cl),
                        rest: b.subrange(h + 4 + cl, b.len() as int),
                    }
                } else {
                    FrameStep::Incomplete
                },
            }
        }
    }
}

/// Cuts messages out of a stream of byte chunks.
#[derive(Debug)]
pub struct Framer {
    buf: Vec<u8>,
}

impl View for Framer {
    type V = Seq<u8>;

    /// The bytes received and not yet consumed.
    closed spec fn view(&self) -> Seq<u8> {
        self.buf@
    }
}

impl Framer {
    /// A framer with nothing buffered.
    pub fn new() -> (r: Framer)
        ensures
            r@ == Seq::<u8>::empty(),
    {
        let r = Framer { buf: Vec::new() };
        proof {
            assert(r@ =~= Seq::<u8>::empty());
        }
        r
    }

    /// Hands the framer the next chunk of bytes from the stream.  Chunks
    /// only concatenate, so any chunking of the same bytes builds the same
    /// buffer.
    pub fn push_bytes(&mut self, chunk: &[u8])
        ensures
            final(self)@ == old(self)@ + chunk@,
    {
        let n = chunk.len();
        let mut k: usize = 0;
        while k < n
            invariant
                k <= n,
                n == chunk@.len(),
                self@ =~= old(self)@ + chunk@.subrange(0, k as int),
            decreases n - k,
        {
            self.buf.push(chunk[k]);
            proof {
                assert(self@ =~= old(self)@ + chunk@.subrange(0, k + 1 as int));
            }
            k = k + 1;
        }
        proof {
            assert(chunk@.subrange(0, n as int) =~= chunk@);
        }
    }

    /// Cuts the next whole message out of the buffer, if one is there: its
    /// header text and exactly the body bytes its `Content-Length` names.
    /// The message's bytes leave the buffer; what follows them stays for the
    /// next call.
    #[verifier::loop_isolation(false)]
    pub fn try_frame(&mut self) -> (r: Result<Option<(String, Vec<u8>)>, RequestError>)
        ensures
            match spec_frame(old(self)@) {
                FrameStep::Incomplete => r is Ok && r->Ok_0 is None && final(self)@ == old(self)@,
                FrameStep::Invalid(e) => r is Err && r->Err_0@ == e && final(self)@ == old(self)@,
                FrameStep::Complete { head, body, rest } => {
                    &&& (r matches Ok(p) && p matches Some(hb) && hb.0@ == head && hb.1@ == body)
                    &&& final(self)@ == rest
                },
            },
    {
        proof {
            reveal_strlit("\n");
            reveal_strlit(":");
            reveal_strlit("Content-Length");
        }
        let mut crlfcrlf: Vec<u8> = Vec::new();
        crlfcrlf.push(13u8);
        crlfcrlf.push(10u8);
        crlfcrlf.push(13u8);
        crlfcrlf.push(10u8);
        proof {
            assert(crlfcrlf@ =~= spec_crlfcrlf());
        }
        let buf_len = self.buf.len();
        let h = match bfind_sub(&self.buf, &crlfcrlf, 0) {
            None => {
                return Ok(None);
            },
            Some(h) => h,
        };
        proof {
            lemma_bfind_props(self@, spec_crlfcrlf(), 0);
            assert(bmatch_at(self@, spec_crlfcrlf(), h as int));
        }
        let head_bytes = bsubvec(&self.buf, 0, h + 4);
        let head = match bytes_to_string(head_bytes) {
            None => {
                return Err(RequestError::InvalidEncoding);
            },
            Some(s) => s,
        };
        // scan the header lines for the Content-Length value
        let head_chars = chars_of(head.as_str());
        let nl_pat = chars_of("\n");
        let lines = split(&head_chars, &nl_pat);
        let cl_pat = chars_of("Content-Length");
        let colon_pat = chars_of(":");
        let n_lines = lines.len();
        let mut cl: Option<usize> = None;
        let mut idx: usize = 0;
        while idx < n_lines
            invariant
                idx <= n_lines,
                n_lines == lines@.len(),
                spec_cl_lines(lines.deep_view(), idx as int) == Ok::<Option<int>, ()>(
                    match cl {
                        Some(v) => Some(v as int),
                        None => None,
                    },
                ),
            decreases n_lines - idx,
        {
            let line = &lines[idx];
            proof {
                assert(lines.deep_view()[idx as int] == lines@[idx as int]@);
            }
            if match_at_exec(line, &cl_pat, 0) {
                let c = match find_sub(line, &colon_pat, 0) {
                    None => {
                        proof {
                            assert(spec_cl_lines(lines.deep_view(), idx + 1 as int) is Err);
                            lemma_cl_lines_err(
                                lines.deep_view(),
                                idx + 1,
                                lines.deep_view().len() as int,
                            );
                        }
                        return Err(RequestError::MalformedLength);
                    },
                    Some(c) => c,
                };
                proof {
                    lemma_find_props(line@, ":"@, 0);
                    assert(match_at(line@, ":"@, c as int));
                }
                let line_len = line.len();
                let after = subvec(line, c + 1, line_len);
                let val = trim(&after);
                match parse_dec(&val) {
                    None => {
                        proof {
                            assert(spec_cl_lines(lines.deep_view(), idx + 1 as int) is Err);
                            lemma_cl_lines_err(
                                lines.deep_view(),
                                idx + 1,
                                lines.deep_view().len() as int,
                            );
                        }
                        return Err(RequestError::MalformedLength);
                    },
                    Some(v) => {
                        cl = Some(v);
                    },
                }
            }
            idx = idx + 1;
        }
        let content_length: usize = match cl {
            Some(v) => v,
            None => 0,
        };
        // the message is whole once that many body bytes are buffered
        if buf_len - (h + 4) < content_length {
            return Ok(None);
        }
        let body = bsubvec(&self.buf, h + 4, h + 4 + content_length);
        let rest = bsubvec(&self.buf, h + 4 + content_length, buf_len);
        self.buf = rest;
        Ok(Some((head, body)))
    }
}

/// The framer hands back exactly the declared number of body bytes: for any
/// buffered bytes that are one well-formed message — header text ending in
/// its first blank line, a content length that names the body's exact
/// length — framing yields precisely that header, that body, and the
/// remaining bytes, whatever chunking delivered them.
pub proof fn lemma_framer_reads_exact_body(head_bytes: Seq<u8>, body: Seq<u8>, rest: Seq<u8>)
    requires
        head_bytes.len() >= 4,
        head_bytes.subrange(head_bytes.len() - 4, head_bytes.len() as int) == spec_crlfcrlf(),
        forall|i: int|
            0 <= i < head_bytes.len() - 4 ==> #[trigger] head_bytes.subrange(i, i + 4)
                != spec_crlfcrlf(),
        valid_utf8(head_bytes),
        spec_content_length(decode_utf8(head_bytes)) == Ok::<int, ()>(body.len() as int),
    ensures
        spec_frame(head_bytes + body + rest) == (FrameStep::Complete {
            head: decode_utf8(head_bytes),
            body,
            rest,
        }),
{
    let s = head_bytes + body + rest;
    let p = spec_crlfcrlf();
    let hl = head_bytes.len() as int;
    assert(s.subrange(hl - 4, hl) =~= head_bytes.subrange(hl - 4, hl));
    assert(bmatch_at(s, p, hl - 4));
    assert forall|i: int| 0 <= i < hl - 4 implies !bmatch_at(s, p, i) by {
        if i + 4 <= s.len() {
            assert(s.subrange(i, i + 4) =~= head_bytes.subrange(i, i + 4));
        }
    }
    lemma_bfind_first(s, p, 0, hl - 4);
    assert(s.subrange(0, hl) =~= head_bytes);
    assert(s.subrange(hl, hl + body.len()) =~= body);
    assert(s.subrange(hl + body.len(), s.len() as int) =~= rest);
}

} // verus!
