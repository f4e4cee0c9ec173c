//! The multipart decoder on concrete bodies.

use blitzkrieg::{Request, RequestError};

#[test]
fn two_text_fields_decode_in_order() {
    let body = b"--BOUND\r\nContent-Disposition: form-data; name=\"name\"\r\n\r\nadhom\r\n--BOUND\r\nContent-Disposition: form-data; name=\"age\"\r\n\r\n23\r\n--BOUND--\r\n".to_vec();
    let decoded = Request::parse_formdata(&body).unwrap();
    let fields = decoded.fields.unwrap();
    assert_eq!(fields.len(), 2);
    assert_eq!(fields[0].name, "name");
    assert_eq!(fields[0].value, "adhom");
    assert_eq!(fields[1].name, "age");
    assert_eq!(fields[1].value, "23");
    assert_eq!(decoded.files, None);
}

#[test]
fn file_part_keeps_raw_content() {
    let body = b"--BOUND\r\nContent-Disposition: form-data; name=\"upload\"; filename=\"a.txt\"\r\nContent-Type: text/plain\r\n\r\nfile bytes here\r\n--BOUND--\r\n".to_vec();
    let decoded = Request::parse_formdata(&body).unwrap();
    assert_eq!(decoded.fields, None);
    let files = decoded.files.unwrap();
    assert_eq!(files.len(), 1);
    assert_eq!(files[0].name, "upload");
    assert_eq!(files[0].file_name, "a.txt");
    assert_eq!(files[0].content, b"file bytes here".to_vec());
}

#[test]
fn empty_body_decodes_to_absent_collections() {
    let decoded = Request::parse_formdata(&vec![]).unwrap();
    assert_eq!(decoded.fields, None);
    assert_eq!(decoded.files, None);
}

#[test]
fn stray_line_is_malformed() {
    let body = b"not a boundary and not a part\r\n".to_vec();
    match Request::parse_formdata(&body) {
        Err(RequestError::MalformedFormdata) => {}
        other => panic!("expected MalformedFormdata, got {:?}", other),
    }
}

#[test]
fn truncated_body_is_malformed() {
    // a form-data line whose value never ends in a line break
    let body = b"--BOUND\r\nContent-Disposition: form-data; name=\"a\"\r\n\r\nno ending".to_vec();
    match Request::parse_formdata(&body) {
        Err(RequestError::MalformedFormdata) => {}
        other => panic!("expected MalformedFormdata, got {:?}", other),
    }
}
