//! The multipart/form-data decoder: a body's bytes become text fields and
//! files, in encounter order.
//!
//! The body is scanned as CRLF-delimited lines.  Boundary marker lines begin
//! with a dash and are skipped; a `form-data` line with a `filename`
//! attribute opens a file part (one content-type line and one blank line,
//! then raw bytes up to the CRLF that precedes the next two-dash boundary);
//! a `form-data` line without one opens a field (one blank line, then the
//! value up to the next CRLF).  Any other line is a fatal decoding error,
//! reported as a recoverable value, never as a crash.
//!
//! An empty field or file collection is canonically absent (`None`), never
//! present-but-empty.

use vstd::prelude::*;

use crate::bytes::{
    bfind_sub, bmatch_at, bsubvec, lemma_bfind_props, latin1_chars, spec_bfind, spec_latin1,
};
use crate::errors::{ErrView, RequestError};
use crate::text::{
    chars_of, chars_to_string, contains_sub, find_sub, lemma_find_props, match_at, spec_find,
    subvec,
};

verus! {

/// One decoded text field.
#[derive(Debug, PartialEq)]
pub struct FormdataText {
    pub name: String,
    pub value: String,
}

/// One decoded file.
#[derive(Debug, PartialEq)]
pub struct FormdataFile {
    pub name: String,
    pub file_name: String,
    pub content: Vec<u8>,
}

/// One decoded part, of either kind.
#[derive(Debug)]
pub enum Formdata {
    FormdataText(FormdataText),
    FormdataFile(FormdataFile),
}

/// A decoded multipart body: its fields and its files, each absent when
/// empty.
#[derive(Debug, PartialEq)]
pub struct FormdataBody {
    pub fields: Option<Vec<FormdataText>>,
    pub files: Option<Vec<FormdataFile>>,
}

/// The mathematical form of a text field.
#[verifier::ext_equal]
pub struct FieldView {
    pub name: Seq<char>,
    pub value: Seq<char>,
}

/// The mathematical form of a file.
#[verifier::ext_equal]
pub struct FormFileView {
    pub name: Seq<char>,
    pub file_name: Seq<char>,
    pub content: Seq<u8>,
}

/// The mathematical form of a decoded body: two sequences, in encounter
/// order; absence is the empty sequence.
#[verifier::ext_equal]
pub struct FormdataBodyView {
    pub fields: Seq<FieldView>,
    pub files: Seq<FormFileView>,
}

impl View for FormdataText {
    type V = FieldView;

    open spec fn view(&self) -> FieldView {
        FieldView { name: self.name@, value: self.value@ }
    }
}

impl DeepView for FormdataText {
    type V = FieldView;

    open spec fn deep_view(&self) -> FieldView {
        self@
    }
}

impl View for FormdataFile {
    type V = FormFileView;

    open spec fn view(&self) -> FormFileView {
        FormFileView { name: self.name@, file_name: self.file_name@, content: self.content@ }
    }
}

impl DeepView for FormdataFile {
    type V = FormFileView;

    open spec fn deep_view(&self) -> FormFileView {
        self@
    }
}

impl View for FormdataBody {
    type V = FormdataBodyView;

    open spec fn view(&self) -> FormdataBodyView {
        FormdataBodyView {
            fields: match self.fields {
                Some(v) => v.deep_view(),
                None => Seq::empty(),
            },
            files: match self.files {
                Some(v) => v.deep_view(),
                None => Seq::empty(),
            },
        }
    }
}

impl FormdataBody {
    /// An empty collection is held as `None`, never as an empty vector.
    pub open spec fn wf(&self) -> bool {
        &&& (self.fields is None <==> self@.fields.len() == 0)
        &&& (self.files is None <==> self@.files.len() == 0)
    }
}

/// The line separator.
pub open spec fn spec_crlf() -> Seq<u8> {
    seq![13u8, 10u8]
}

/// A line separator followed by the two dashes that open a boundary.
pub open spec fn spec_crlf_dashes() -> Seq<u8> {
    seq![13u8, 10u8, 45u8, 45u8]
}

/// The value of the quoted attribute that follows `marker` in `line`, if
/// both the marker and a closing quote are there.
pub open spec fn spec_attr(line: Seq<char>, marker: Seq<char>) -> Option<Seq<char>> {
    let a = spec_find(line, marker, 0);
    if a < 0 {
        None
    } else {
        let b = spec_find(line, seq!['"'], a + marker.len());
        if b < 0 {
            None
        } else {
            Some(line.subrange(a + marker.len(), b))
        }
    }
}

/// The parts of `data` from position `i` on: `None` when the remainder is
/// malformed, otherwise the fields and files in encounter order.
pub open spec fn spec_decode_from(data: Seq<u8>, i: int) -> Option<
    (Seq<FieldView>, Seq<FormFileView>),
>
    decreases data.len() - i,
    when 0 <= i
    via spec_decode_from_decreases
{
    if i >= data.len() {
        Some((Seq::empty(), Seq::empty()))
    } else {
        let j = spec_bfind(data, spec_crlf(), i);
        if j < 0 {
            None
        } else {
            let line = spec_latin1(data.subrange(i, j));
            if line.len() == 0 || line[0] == '-' {
                spec_decode_from(data, j + 2)
            } else if spec_find(line, "form-data"@, 0) >= 0 {
                if spec_find(line, "filename"@, 0) >= 0 {
                    spec_decode_file(data, i, j, line)
                } else {
                    spec_decode_field(data, i, j, line)
                }
            } else {
                None
            }
        }
    }
}

/// The parts of `data` from position `i` on, where the line from `i` to `j`
/// opens a file part.
pub open spec fn spec_decode_file(data: Seq<u8>, i: int, j: int, line: Seq<char>) -> Option<
    (Seq<FieldView>, Seq<FormFileView>),
>
    decreases data.len() - i, 1int,
    when 0 <= i <= j && j + 2 <= data.len()
    via spec_decode_file_decreases
{
    let name = spec_attr(line, "; name=\""@);
    let fname = spec_attr(line, "; filename=\""@);
    if name is None || fname is None {
        None
    } else {
        let k = spec_bfind(data, spec_crlf(), j + 2);
        if k < 0 {
            None
        } else if !(k + 4 <= data.len() && data[k + 2] == 13 && data[k + 3] == 10) {
            None
        } else {
            let e = spec_bfind(data, spec_crlf_dashes(), k + 4);
            if e < 0 {
                None
            } else {
                match spec_decode_from(data, e + 2) {
                    None => None,
                    Some(rest) => Some(
                        (
                            rest.0,
                            seq![
                                FormFileView {
                                    name: name.unwrap(),
                                    file_name: fname.unwrap(),
                                    content: data.subrange(k + 4, e),
                                },
                            ] + rest.1,
                        ),
                    ),
                }
            }
        }
    }
}

/// The parts of `data` from position `i` on, where the line from `i` to `j`
/// opens a text field.
pub open spec fn spec_decode_field(data: Seq<u8>, i: int, j: int, line: Seq<char>) -> Option<
    (Seq<FieldView>, Seq<FormFileView>),
>
    decreases data.len() - i, 1int,
    when 0 <= i <= j && j + 2 <= data.len()
    via spec_decode_field_decreases
{
    let name = spec_attr(line, "; name=\""@);
    if name is None {
        None
    } else if !(j + 4 <= data.len() && data[j + 2] == 13 && data[j + 3] == 10) {
        None
    } else {
        let ve = spec_bfind(data, spec_crlf(), j + 4);
        if ve < 0 {
            None
        } else {
            match spec_decode_from(data, ve + 2) {
                None => None,
                Some(rest) => Some(
                    (
                        seq![
                            FieldView {
                                name: name.unwrap(),
                                value: spec_latin1(data.subrange(j + 4, ve)),
                            },
                        ] + rest.0,
                        rest.1,
                    ),
                ),
            }
        }
    }
}

#[via_fn]
proof fn spec_decode_from_decreases(data: Seq<u8>, i: int) {
    if i < data.len() {
        let j = spec_bfind(data, spec_crlf(), i);
        if j >= 0 {
            lemma_bfind_props(data, spec_crlf(), i);
            assert(bmatch_at(data, spec_crlf(), j));
        }
    }
}

#[via_fn]
proof fn spec_decode_file_decreases(data: Seq<u8>, i: int, j: int, line: Seq<char>) {
    let k = spec_bfind(data, spec_crlf(), j + 2);
    if k >= 0 {
        lemma_bfind_props(data, spec_crlf(), j + 2);
        assert(bmatch_at(data, spec_crlf(), k));
        let e = spec_bfind(data, spec_crlf_dashes(), k + 4);
        if e >= 0 && k + 4 <= data.len() {
            lemma_bfind_props(data, spec_crlf_dashes(), k + 4);
            assert(bmatch_at(data, spec_crlf_dashes(), e));
        }
    }
}

#[via_fn]
proof fn spec_decode_field_decreases(data: Seq<u8>, i: int, j: int, line: Seq<char>) {
    if j + 4 <= data.len() {
        let ve = spec_bfind(data, spec_crlf(), j + 4);
        if ve >= 0 {
            lemma_bfind_props(data, spec_crlf(), j + 4);
            assert(bmatch_at(data, spec_crlf(), ve));
        }
    }
}

/// The decoded form of a whole multipart body, or `None` when it is
/// malformed.
pub open spec fn spec_decode_formdata(data: Seq<u8>) -> Option<FormdataBodyView> {
    match spec_decode_from(data, 0) {
        None => None,
        Some(p) => Some(FormdataBodyView { fields: p.0, files: p.1 }),
    }
}

/// The value of the quoted attribute that follows `marker` in `line`.
fn attr_value(line: &Vec<char>, marker: &Vec<char>) -> (r: Option<Vec<char>>)
    ensures
        match r {
            Some(v) => spec_attr(line@, marker@) == Some(v@),
            None => spec_attr(line@, marker@) is None,
        },
{
    let mut quote: Vec<char> = Vec::new();
    quote.push('"');
    proof {
        assert(quote@ =~= seq!['"']);
    }
    match find_sub(line, marker, 0) {
        None => None,
        Some(a) => {
            let line_len = line.len();
            proof {
                lemma_find_props(line@, marker@, 0);
                assert(match_at(line@, marker@, a as int));
                assert(a + marker@.len() <= line_len);
            }
            let start = a + marker.len();
            match find_sub(line, &quote, start) {
                None => None,
                Some(b) => {
                    proof {
                        lemma_find_props(line@, quote@, start as int);
                        assert(match_at(line@, quote@, b as int));
                    }
                    Some(subvec(line, start, b))
                },
            }
        },
    }
}

/// Decodes a multipart body into its fields and files, in encounter order;
/// a malformed body is reported as an error value.
pub fn decode_formdata(data: &Vec<u8>) -> (r: Result<FormdataBody, RequestError>)
    ensures
        match r {
            Ok(b) => b.wf() && spec_decode_formdata(data@) == Some(b@),
            Err(e) => e@ == ErrView::MalformedFormdata && spec_decode_formdata(data@) is None,
        },
{
    let mut crlf: Vec<u8> = Vec::new();
    crlf.push(13u8);
    crlf.push(10u8);
    proof {
        assert(crlf@ =~= spec_crlf());
    }
    let mut crlf_dashes: Vec<u8> = Vec::new();
    crlf_dashes.push(13u8);
    crlf_dashes.push(10u8);
    crlf_dashes.push(45u8);
    crlf_dashes.push(45u8);
    proof {
        assert(crlf_dashes@ =~= spec_crlf_dashes());
    }
    let form_data_marker = chars_of("form-data");
    let filename_marker = chars_of("filename");
    let name_attr = chars_of("; name=\"");
    let filename_attr = chars_of("; filename=\"");

    let n = data.len();
    let mut i: usize = 0;
    let mut fields: Vec<FormdataText> = Vec::new();
    let mut files: Vec<FormdataFile> = Vec::new();
    proof {
        if spec_decode_from(data@, 0) is Some {
            let p = spec_decode_from(data@, 0).unwrap();
            assert(fields.deep_view() + p.0 =~= p.0);
            assert(files.deep_view() + p.1 =~= p.1);
        }
    }
    while i < n
        invariant
            n == data@.len(),
            crlf@ == spec_crlf(),
            crlf_dashes@ == spec_crlf_dashes(),
            form_data_marker@ == "form-data"@,
            filename_marker@ == "filename"@,
            name_attr@ == "; name=\""@,
            filename_attr@ == "; filename=\""@,
            spec_decode_from(data@, i as int) is None ==> spec_decode_from(data@, 0) is None,
            spec_decode_from(data@, i as int) is Some ==> {
                &&& spec_decode_from(data@, 0) is Some
                &&& spec_decode_from(data@, 0).unwrap().0 == fields.deep_view()
                    + spec_decode_from(data@, i as int).unwrap().0
                &&& spec_decode_from(data@, 0).unwrap().1 == files.deep_view()
                    + spec_decode_from(data@, i as int).unwrap().1
            },
        decreases n - i,
    {
        let j = match bfind_sub(data, &crlf, i) {
            None => {
                return Err(RequestError::MalformedFormdata);
            },
            Some(j) => j,
        };
        proof {
            lemma_bfind_props(data@, spec_crlf(), i as int);
            assert(bmatch_at(data@, spec_crlf(), j as int));
        }
        let line = latin1_chars(data, i, j);
        let ghost specline = spec_latin1(data@.subrange(i as int, j as int));
        if line.len() == 0 || line[0] == '-' {
            // a boundary marker line, or an empty line: skip it
            i = j + 2;
        } else if contains_sub(&line, &form_data_marker) {
            if contains_sub(&line, &filename_marker) {
                // a file part
                let ghost spec_result = spec_decode_file(data@, i as int, j as int, specline);
                proof {
                    assert(spec_decode_from(data@, i as int) == spec_result);
                }
                let name = match attr_value(&line, &name_attr) {
                    None => {
                        return Err(RequestError::MalformedFormdata);
                    },
                    Some(v) => v,
                };
                let fname = match attr_value(&line, &filename_attr) {
                    None => {
                        return Err(RequestError::MalformedFormdata);
                    },
                    Some(v) => v,
                };
                let k = match bfind_sub(data, &crlf, j + 2) {
                    None => {
                        return Err(RequestError::MalformedFormdata);
                    },
                    Some(k) => k,
                };
                proof {
                    lemma_bfind_props(data@, spec_crlf(), j + 2 as int);
                    assert(bmatch_at(data@, spec_crlf(), k as int));
                }
                if !(n - k >= 4 && data[k + 2] == 13 && data[k + 3] == 10) {
                    return Err(RequestError::MalformedFormdata);
                }
                let e = match bfind_sub(data, &crlf_dashes, k + 4) {
                    None => {
                        return Err(RequestError::MalformedFormdata);
                    },
                    Some(e) => e,
                };
                proof {
                    lemma_bfind_props(data@, spec_crlf_dashes(), k + 4 as int);
                    assert(bmatch_at(data@, spec_crlf_dashes(), e as int));
                }
                let content = bsubvec(data, k + 4, e);
                let file = FormdataFile {
                    name: chars_to_string(&name),
                    file_name: chars_to_string(&fname),
                    content,
                };
                let ghost old_files = files.deep_view();
                let ghost filev = file@;
                files.push(file);
                proof {
                    assert(files.deep_view() =~~= old_files.push(filev));
                    if spec_decode_from(data@, e + 2 as int) is Some {
                        let rest = spec_decode_from(data@, e + 2 as int).unwrap();
                        assert(spec_result == Some((rest.0, seq![filev] + rest.1)));
                        assert(old_files + (seq![filev] + rest.1) =~~= files.deep_view() + rest.1);
                    }
                }
                i = e + 2;
            } else {
                // a text field
                let ghost spec_result = spec_decode_field(data@, i as int, j as int, specline);
                proof {
                    assert(spec_decode_from(data@, i as int) == spec_result);
                }
                let name = match attr_value(&line, &name_attr) {
                    None => {
                        return Err(RequestError::MalformedFormdata);
                    },
                    Some(v) => v,
                };
                if !(n - j >= 4 && data[j + 2] == 13 && data[j + 3] == 10) {
                    return Err(RequestError::MalformedFormdata);
                }
                let ve = match bfind_sub(data, &crlf, j + 4) {
                    None => {
                        return Err(RequestError::MalformedFormdata);
                    },
                    Some(ve) => ve,
                };
                proof {
                    lemma_bfind_props(data@, spec_crlf(), j + 4 as int);
                    assert(bmatch_at(data@, spec_crlf(), ve as int));
                }
                let value = latin1_chars(data, j + 4, ve);
                let field = FormdataText {
                    name: chars_to_string(&name),
                    value: chars_to_string(&value),
                };
                let ghost old_fields = fields.deep_view();
                let ghost fieldv = field@;
                fields.push(field);
                proof {
                    assert(fields.deep_view() =~~= old_fields.push(fieldv));
                    if spec_decode_from(data@, ve + 2 as int) is Some {
                        let rest = spec_decode_from(data@, ve + 2 as int).unwrap();
                        assert(spec_result == Some((seq![fieldv] + rest.0, rest.1)));
                        assert(old_fields + (seq![fieldv] + rest.0) =~~= fields.deep_view()
                            + rest.0);
                    }
                }
                i = ve + 2;
            }
        } else {
            return Err(RequestError::MalformedFormdata);
        }
    }
    proof {
        assert(spec_decode_from(data@, i as int) == Some(
            (Seq::<FieldView>::empty(), Seq::<FormFileView>::empty()),
        ));
        let p = spec_decode_from(data@, 0).unwrap();
        assert(p.0 =~= fields.deep_view());
        assert(p.1 =~= files.deep_view());
    }
    let fields_opt = if fields.len() == 0 {
        None
    } else {
        Some(fields)
    };
    let files_opt = if files.len() == 0 {
        None
    } else {
        Some(files)
    };
    let body = FormdataBody { fields: fields_opt, files: files_opt };
    proof {
        assert(body@.fields =~= spec_decode_from(data@, 0).unwrap().0);
        assert(body@.files =~= spec_decode_from(data@, 0).unwrap().1);
        assert(spec_decode_formdata(data@) == Some(body@));
    }
    Ok(body)
}

} // verus!
