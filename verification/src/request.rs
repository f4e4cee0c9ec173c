//! The request parser: header text and body bytes become a structured
//! request, with the body classified by the `Content-Type` header.

use vstd::prelude::*;
use vstd::utf8::{decode_utf8, valid_utf8};

use crate::bytes::bytes_to_string;
use crate::errors::{ErrView, RequestError};
use crate::headers::Headers;
use crate::methods::{spec_method_of, HTTPMethod};
use crate::multipart::{decode_formdata, spec_decode_formdata, FormdataBody, FormdataBodyView};
use crate::text::{
    chars_of, chars_to_string, contains_sub, find_sub, lemma_find_props, match_at, spec_find,
    spec_lower, spec_split, spec_two_tokens, split, subvec, to_lower, two_tokens,
};

verus! {

/// A file carried as a request body: the media type's extension and the raw
/// bytes.
#[derive(Debug)]
pub struct File {
    pub extension: String,
    pub content: Vec<u8>,
}

/// An HTTP request body.
#[derive(Debug)]
pub enum BodyType {
    Text(String),
    FormdataBody(FormdataBody),
    File(File),
}

/// An HTTP request.
#[derive(Debug)]
pub struct Request {
    pub method: HTTPMethod,
    pub path: String,
    pub headers: Headers,
    pub body: Option<BodyType>,
}

/// The mathematical form of a file body.
#[verifier::ext_equal]
pub struct FileView {
    pub extension: Seq<char>,
    pub content: Seq<u8>,
}

/// The mathematical form of a request body.
#[verifier::ext_equal]
pub enum BodyView {
    Text(Seq<char>),
    Formdata(FormdataBodyView),
    File(FileView),
}

/// The mathematical form of a request: the headers as the mapping they make
/// up.
#[verifier::ext_equal]
pub struct RequestView {
    pub method: HTTPMethod,
    pub path: Seq<char>,
    pub headers: Map<Seq<char>, Seq<char>>,
    pub body: Option<BodyView>,
}

impl View for File {
    type V = FileView;

    open spec fn view(&self) -> FileView {
        FileView { extension: self.extension@, content: self.content@ }
    }
}

impl View for BodyType {
    type V = BodyView;

    open spec fn view(&self) -> BodyView {
        match self {
            BodyType::Text(s) => BodyView::Text(s@),
            BodyType::FormdataBody(b) => BodyView::Formdata(b@),
            BodyType::File(f) => BodyView::File(f@),
        }
    }
}

impl View for Request {
    type V = RequestView;

    open spec fn view(&self) -> RequestView {
        RequestView {
            method: self.method,
            path: self.path@,
            headers: self.headers.spec_map(),
            body: match self.body {
                Some(b) => Some(b@),
                None => None,
            },
        }
    }
}

impl Request {
    /// The headers never repeat a key, and a multipart body's collections
    /// are absent rather than empty.
    pub open spec fn wf(&self) -> bool {
        &&& self.headers.wf()
        &&& match self.body {
            Some(BodyType::FormdataBody(fb)) => fb.wf(),
            _ => true,
        }
    }
}

/// Whether `p` occurs anywhere in `s`.
pub open spec fn spec_contains(s: Seq<char>, p: Seq<char>) -> bool {
    spec_find(s, p, 0) >= 0
}

/// The header mapping named by `lines[1..upto]`: every `Key: Value` line
/// written in order, empty lines skipped; `None` when a non-empty line holds
/// no `": "`.
pub open spec fn spec_header_entries(lines: Seq<Seq<char>>, upto: int) -> Option<
    Map<Seq<char>, Seq<char>>,
>
    decreases upto,
{
    if upto <= 1 {
        Some(Map::empty())
    } else {
        match spec_header_entries(lines, upto - 1) {
            None => None,
            Some(m) => {
                let line = lines[upto - 1];
                if line.len() == 0 {
                    Some(m)
                } else {
                    let k = spec_find(line, ": "@, 0);
                    if k < 0 {
                        None
                    } else {
                        Some(m.insert(line.subrange(0, k), line.subrange(k + 2, line.len() as int)))
                    }
                }
            },
        }
    }
}

/// The header mapping of a whole split header text.
pub open spec fn spec_headers_of(lines: Seq<Seq<char>>) -> Option<Map<Seq<char>, Seq<char>>> {
    spec_header_entries(lines, lines.len() as int)
}

/// Once a header line is malformed, the whole mapping is.
proof fn lemma_header_entries_none(lines: Seq<Seq<char>>, a: int, b: int)
    requires
        a <= b,
        spec_header_entries(lines, a) is None,
    ensures
        spec_header_entries(lines, b) is None,
    decreases b - a,
{
    if b > a {
        lemma_header_entries_none(lines, a, b - 1);
    }
}

/// A UTF-8 text body: absent when empty is handled by the caller, so here
/// the bytes only decode or fail.
pub open spec fn spec_text_body(body: Seq<u8>) -> Result<Option<BodyView>, ErrView> {
    if valid_utf8(body) {
        Ok(Some(BodyView::Text(decode_utf8(body))))
    } else {
        Err(ErrView::InvalidEncoding)
    }
}

/// The body a request carries, classified by the `Content-Type` value `ct`:
/// the media type is matched as a substring, without regard to letter case.
/// A zero-length body is always absent, whatever the content type.
pub open spec fn spec_body_of(ct: Option<Seq<char>>, body: Seq<u8>) -> Result<
    Option<BodyView>,
    ErrView,
> {
    if body.len() == 0 {
        Ok(None)
    } else {
        let c = match ct {
            Some(c) => c,
            None => Seq::empty(),
        };
        let lc = spec_lower(c);
        if spec_contains(lc, "multipart/form-data"@) {
            match spec_decode_formdata(body) {
                None => Err(ErrView::MalformedFormdata),
                Some(fb) => Ok(Some(BodyView::Formdata(fb))),
            }
        } else if spec_contains(lc, "application/json"@) || spec_contains(lc, "text/xml"@) {
            spec_text_body(body)
        } else if spec_contains(lc, "application/"@) || spec_contains(lc, "image/"@)
            || spec_contains(lc, "audio/"@) || spec_contains(lc, "video/"@) {
            Ok(
                Some(
                    BodyView::File(
                        FileView { extension: spec_split(c, "/"@).last(), content: body },
                    ),
                ),
            )
        } else {
            spec_text_body(body)
        }
    }
}

/// What parsing header text `head` with body bytes `body` yields: the
/// request, or the first error in the order the text is examined — status
/// line, method, headers, then body.
pub open spec fn spec_parse(head: Seq<char>, body: Seq<u8>) -> Result<RequestView, ErrView> {
    let lines = spec_split(head, "\r\n"@);
    match spec_two_tokens(lines[0]) {
        None => Err(ErrView::MalformedStatusLine),
        Some(toks) => match spec_method_of(toks.0) {
            None => Err(ErrView::UnknownMethod(toks.0)),
            Some(m) => match spec_headers_of(lines) {
                None => Err(ErrView::MalformedHeader),
                Some(hm) => {
                    let ct = if hm.contains_key("Content-Type"@) {
                        Some(hm["Content-Type"@])
                    } else {
                        None
                    };
                    let is_mp = ct is Some && spec_contains(
                        spec_lower(ct.unwrap()),
                        "multipart/form-data"@,
                    );
                    let hm2 = if is_mp {
                        hm.insert("Content-Type"@, "multipart/form-data"@)
                    } else {
                        hm
                    };
                    match spec_body_of(ct, body) {
                        Err(e) => Err(e),
                        Ok(b) => Ok(RequestView { method: m, path: toks.1, headers: hm2, body: b }),
                    }
                },
            },
        },
    }
}

impl Request {
    /// Parses a request from its header text and its body bytes.  The
    /// result is exactly `spec_parse` of the two; a zero-length body always
    /// yields an absent body.
    #[verifier::loop_isolation(false)]
    pub fn parse(request: String, body: Vec<u8>) -> (r: Result<Request, RequestError>)
        ensures
            match r {
                Ok(req) => req.wf() && spec_parse(request@, body@) == Ok::<RequestView, ErrView>(
                    req@,
                ),
                Err(e) => spec_parse(request@, body@) == Err::<RequestView, ErrView>(e@),
            },
            r is Ok && body@.len() == 0 ==> r.unwrap().body is None,
    {
        proof {
            reveal_strlit("\r\n");
            reveal_strlit(": ");
            reveal_strlit("/");
            reveal_strlit("multipart/form-data");
            reveal_strlit("application/json");
            reveal_strlit("text/xml");
            reveal_strlit("application/");
            reveal_strlit("image/");
            reveal_strlit("audio/");
            reveal_strlit("video/");
        }
        let head_chars = chars_of(request.as_str());
        let crlf_pat = chars_of("\r\n");
        let lines = split(&head_chars, &crlf_pat);
        let ghost slines = spec_split(request@, "\r\n"@);
        proof {
            assert(lines.deep_view() == slines);
            assert(lines.deep_view()[0] == lines@[0]@);
        }
        // the status line: its first two tokens
        let toks = match two_tokens(&lines[0]) {
            None => {
                return Err(RequestError::MalformedStatusLine);
            },
            Some(t) => t,
        };
        let method_text = chars_to_string(&toks.0);
        let method = match HTTPMethod::from_str(method_text.as_str()) {
            None => {
                return Err(RequestError::UnknownMethod(method_text));
            },
            Some(m) => m,
        };
        let path = chars_to_string(&toks.1);
        // the remaining lines: `Key: Value` headers
        let sep_pat = chars_of(": ");
        let mut headers = Headers::new();
        let n_lines = lines.len();
        let mut idx: usize = 1;
        while idx < n_lines
            invariant
                1 <= idx <= n_lines,
                n_lines == lines@.len(),
                sep_pat@ == ": "@,
                headers.wf(),
                spec_header_entries(lines.deep_view(), idx as int) == Some(headers.spec_map()),
            decreases n_lines - idx,
        {
            let line = &lines[idx];
            let line_len = line.len();
            proof {
                assert(lines.deep_view()[idx as int] == lines@[idx as int]@);
            }
            if line_len > 0 {
                let k = match find_sub(line, &sep_pat, 0) {
                    None => {
                        proof {
                            assert(spec_header_entries(lines.deep_view(), idx + 1 as int) is None);
                            lemma_header_entries_none(
                                lines.deep_view(),
                                idx + 1,
                                lines.deep_view().len() as int,
                            );
                        }
                        return Err(RequestError::MalformedHeader);
                    },
                    Some(k) => k,
                };
                proof {
                    lemma_find_props(line@, sep_pat@, 0);
                    assert(match_at(line@, sep_pat@, k as int));
                    assert(k + 2 <= line_len);
                }
                let key = chars_to_string(&subvec(line, 0, k));
                let value = chars_to_string(&subvec(line, k + 2, line_len));
                headers.insert(key, value);
            }
            idx = idx + 1;
        }
        // the body, classified by the Content-Type header
        let ct_chars: Option<Vec<char>> = match headers.get("Content-Type") {
            Some(v) => Some(chars_of(v.as_str())),
            None => None,
        };
        let ghost spec_ct: Option<Seq<char>> = match &ct_chars {
            Some(c) => Some(c@),
            None => None,
        };
        let multipart_pat = chars_of("multipart/form-data");
        let is_mp = match &ct_chars {
            Some(c) => contains_sub(&to_lower(c), &multipart_pat),
            None => false,
        };
        if is_mp {
            let ct_key = chars_to_string(&chars_of("Content-Type"));
            let ct_val = chars_to_string(&multipart_pat);
            headers.insert(ct_key, ct_val);
        }
        let body_len = body.len();
        let parsed_body: Option<BodyType> = if body_len == 0 {
            None
        } else {
            let c: Vec<char> = match ct_chars {
                Some(c) => c,
                None => Vec::new(),
            };
            proof {
                let sc = match spec_ct {
                    Some(c) => c,
                    None => Seq::<char>::empty(),
                };
                assert(c@ =~= sc);
            }
            let lc = to_lower(&c);
            if is_mp {
                match decode_formdata(&body) {
                    Err(e) => {
                        return Err(e);
                    },
                    Ok(fb) => Some(BodyType::FormdataBody(fb)),
                }
            } else if contains_sub(&lc, &chars_of("application/json")) || contains_sub(
                &lc,
                &chars_of("text/xml"),
            ) {
                match bytes_to_string(body) {
                    None => {
                        return Err(RequestError::InvalidEncoding);
                    },
                    Some(s) => Some(BodyType::Text(s)),
                }
            } else if contains_sub(&lc, &chars_of("application/")) || contains_sub(
                &lc,
                &chars_of("image/"),
            ) || contains_sub(&lc, &chars_of("audio/")) || contains_sub(&lc, &chars_of("video/")) {
                let slash_pat = chars_of("/");
                let parts = split(&c, &slash_pat);
                let last = &parts[parts.len() - 1];
                proof {
                    assert(parts.deep_view()[parts@.len() - 1] == parts@[parts@.len() - 1]@);
                }
                let extension = chars_to_string(last);
                Some(BodyType::File(File { extension, content: body }))
            } else {
                match bytes_to_string(body) {
                    None => {
                        return Err(RequestError::InvalidEncoding);
                    },
                    Some(s) => Some(BodyType::Text(s)),
                }
            }
        };
        let req = Request { method, path, headers, body: parsed_body };
        proof {
            let sp = spec_parse(request@, body@);
            assert(sp is Ok);
            assert(req@ =~~= sp->Ok_0);
        }
        Ok(req)
    }

    /// Decodes a multipart body, as `decode_formdata` does.
    pub fn parse_formdata(data: &Vec<u8>) -> (r: Result<FormdataBody, RequestError>)
        ensures
            match r {
                Ok(b) => b.wf() && spec_decode_formdata(data@) == Some(b@),
                Err(e) => e@ == ErrView::MalformedFormdata && spec_decode_formdata(data@) is None,
            },
    {
        decode_formdata(data)
    }
}

} // verus!
