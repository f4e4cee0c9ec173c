//! Parsing and serialization, exercised on concrete messages.

use blitzkrieg::request::BodyType;
use blitzkrieg::{FormdataText, HTTPMethod, Request, RequestError, Response};

#[test]
fn parse_http_string_works() {
    let req = Request::parse("GET /get-request-test HTTP/1.1\r\nHost: localhost:7878\r\nAccept-Encoding: gzip, deflate, br\r\nAccept: */*\r\nConnection: keep-alive".into(),
        vec![],
    ).unwrap();
    assert_eq!(req.method, HTTPMethod::GET);
    assert_eq!(req.path, "/get-request-test");
    assert_eq!(req.headers.get("Host").unwrap(), "localhost:7878");
}

#[test]
fn parse_http_string_plain_body_works() {
    let req = Request::parse("POST / HTTP/1.1\r\nHost: localhost:7878\r\nUser-Agent: insomnia/2022.7.3\r\nContent-Type: text/plain\r\nAuthorization: token\r\nAccept: */*\r\nContent-Length: 15\r\n\r\n".into(), vec![115, 111, 109, 101, 32, 112, 108, 97, 105, 110, 32, 98, 111, 100, 121]).unwrap();
    assert_eq!(req.method, HTTPMethod::POST);
    assert_eq!(req.headers.get("Content-Type").unwrap(), "text/plain");
    match req.body.unwrap() {
        BodyType::Text(body) => assert_eq!(body, "some plain body"),
        BodyType::FormdataBody(_) => panic!("Bodytype shouldn't be formdata"),
        BodyType::File(_) => panic!("Bodytype shouldn't be file"),
    }
}

#[test]
fn test_empty_body() {
    let req = Request::parse("POST / HTTP/1.1\r\nHost: localhost:7878\r\nUser-Agent: insomnia/2022.7.3\r\nContent-Type: text/plain\r\nAuthorization: token\r\nAccept: */*\r\nContent-Length: 15\r\n\r\n".into(), vec![]).unwrap();
    match req.body {
        None => assert!(true),
        _ => panic!("Body should be None"),
    }
}

#[test]
fn parse_http_string_formdata_body_works() {
    let req = Request::parse("POST / HTTP/1.1\r\nHost: localhost:7878\r\nUser-Agent: insomnia/2022.7.3\r\nContent-Type: multipart/form-data; boundary=X-INSOMNIA-BOUNDARY\r\nAuthorization: dqweqw\r\nAccept: */*\r\nContent-Length: 175\r\n\r\n".into(), vec![45, 45, 88, 45, 73, 78, 83, 79, 77, 78, 73, 65, 45, 66, 79, 85, 78, 68, 65, 82, 89, 13, 10, 67, 111, 110, 116, 101, 110, 116, 45, 68, 105, 115, 112, 111, 115, 105, 116, 105, 111, 110, 58, 32, 102, 111, 114, 109, 45, 100, 97, 116, 97, 59, 32, 110, 97, 109, 101, 61, 34, 110, 97, 109, 101, 34, 13, 10, 13, 10, 97, 100, 104, 111, 109, 13, 10, 45, 45, 88, 45, 73, 78, 83, 79, 77, 78, 73, 65, 45, 66, 79, 85, 78, 68, 65, 82, 89, 13, 10, 67, 111, 110, 116, 101, 110, 116, 45, 68, 105, 115, 112, 111, 115, 105, 116, 105, 111, 110, 58, 32, 102, 111, 114, 109, 45, 100, 97, 116, 97, 59, 32, 110, 97, 109, 101, 61, 34, 97, 103, 101, 34, 13, 10, 13, 10, 50, 51, 13, 10, 45, 45, 88, 45, 73, 78, 83, 79, 77, 78, 73, 65, 45, 66, 79, 85, 78, 68, 65, 82, 89, 45, 45, 13, 10]
    ).unwrap();
    assert_eq!(req.method, HTTPMethod::POST);
    assert_eq!(req.headers.get("Content-Type").unwrap(), "multipart/form-data");
    match req.body.unwrap() {
        BodyType::Text(_) => panic!("Bodytype shouldn't be text/plain"),
        BodyType::File(_) => panic!("Bodytype shouldn't be file"),
        BodyType::FormdataBody(body) => {
            let mut expected_body: Vec<FormdataText> = Vec::new();
            expected_body.push(FormdataText {
                name: "name".into(),
                value: "adhom".into(),
            });
            expected_body.push(FormdataText {
                name: "age".into(),
                value: "23".into(),
            });
            assert_eq!(body.fields.unwrap(), expected_body);
            assert_eq!(body.files, None);
        }
    }
}

#[test]
fn serialize_then_parse_status_line_works() {
    let bytes = Response::new(200).body("Hello, world!").into_bytes();
    let text = String::from_utf8(bytes.clone()).unwrap();
    let status_line = text.split("\r\n").next().unwrap();
    let mut parts = status_line.split_whitespace();
    assert_eq!(parts.next().unwrap(), "HTTP/1.1");
    let status: u16 = parts.next().unwrap().parse().unwrap();
    assert_eq!(status, 200);
    let body_text = "Hello, world!";
    let body_bytes = &bytes[bytes.len() - body_text.len()..];
    assert_eq!(body_bytes, body_text.as_bytes());
    assert!(text.contains("\r\nContent-Length: 13\r\n"));
}

#[test]
fn serialize_without_body_ends_with_blank_line() {
    let bytes = Response::new(404).into_bytes();
    let text = String::from_utf8(bytes).unwrap();
    assert!(text.starts_with("HTTP/1.1 404\r\n"));
    assert!(text.ends_with("\r\n\r\n"));
    assert!(!text.contains("Content-Length"));
    assert!(text.contains("Connection: keep-alive\r\n"));
    assert!(text.contains("Server: Blitzkrieg\r\n"));
}

#[test]
fn serialize_carries_headers() {
    let mut headers = blitzkrieg::Headers::new();
    headers.insert("X-One".into(), "1".into());
    let bytes = Response::new(200).headers(headers).body("ok").into_bytes();
    let text = String::from_utf8(bytes).unwrap();
    assert!(text.contains("\r\nX-One: 1\r\n"));
}

#[test]
fn unknown_method_is_reported() {
    let err = Request::parse("FOO /path HTTP/1.1\r\nHost: x\r\n\r\n".into(), vec![]).unwrap_err();
    match err {
        RequestError::UnknownMethod(tok) => assert_eq!(tok, "FOO"),
        other => panic!("expected UnknownMethod, got {:?}", other),
    }
}

#[test]
fn malformed_status_line_is_reported() {
    let err = Request::parse("GET\r\nHost: x\r\n\r\n".into(), vec![]).unwrap_err();
    match err {
        RequestError::MalformedStatusLine => {}
        other => panic!("expected MalformedStatusLine, got {:?}", other),
    }
}

#[test]
fn malformed_header_is_reported() {
    let err = Request::parse("GET / HTTP/1.1\r\nNoSeparatorHere\r\n\r\n".into(), vec![]).unwrap_err();
    match err {
        RequestError::MalformedHeader => {}
        other => panic!("expected MalformedHeader, got {:?}", other),
    }
}

#[test]
fn invalid_encoding_is_reported() {
    let err = Request::parse(
        "POST / HTTP/1.1\r\nContent-Type: text/plain\r\n\r\n".into(),
        vec![0xff, 0xfe],
    )
    .unwrap_err();
    match err {
        RequestError::InvalidEncoding => {}
        other => panic!("expected InvalidEncoding, got {:?}", other),
    }
}

#[test]
fn file_body_takes_extension_from_media_type() {
    let req = Request::parse(
        "POST /upload HTTP/1.1\r\nContent-Type: application/pdf\r\n\r\n".into(),
        vec![1, 2, 3],
    )
    .unwrap();
    match req.body.unwrap() {
        BodyType::File(f) => {
            assert_eq!(f.extension, "pdf");
            assert_eq!(f.content, vec![1, 2, 3]);
        }
        other => panic!("expected a file body, got {:?}", other),
    }
}

#[test]
fn json_body_is_text() {
    let req = Request::parse(
        "POST / HTTP/1.1\r\nContent-Type: application/json\r\n\r\n".into(),
        b"{\"a\":1}".to_vec(),
    )
    .unwrap();
    match req.body.unwrap() {
        BodyType::Text(t) => assert_eq!(t, "{\"a\":1}"),
        other => panic!("expected a text body, got {:?}", other),
    }
}

#[test]
fn content_type_match_ignores_letter_case() {
    let req = Request::parse(
        "POST / HTTP/1.1\r\nContent-Type: TEXT/XML\r\n\r\n".into(),
        b"<a/>".to_vec(),
    )
    .unwrap();
    match req.body.unwrap() {
        BodyType::Text(t) => assert_eq!(t, "<a/>"),
        other => panic!("expected a text body, got {:?}", other),
    }
    let body = b"--B\r\nContent-Disposition: form-data; name=\"k\"\r\n\r\nv\r\n--B--\r\n".to_vec();
    let req = Request::parse(
        "POST / HTTP/1.1\r\nContent-Type: MultiPart/Form-Data; boundary=B\r\n\r\n".into(),
        body,
    )
    .unwrap();
    assert_eq!(req.headers.get("Content-Type").unwrap(), "multipart/form-data");
    match req.body.unwrap() {
        BodyType::FormdataBody(b) => {
            let fields = b.fields.unwrap();
            assert_eq!(fields[0].name, "k");
            assert_eq!(fields[0].value, "v");
        }
        other => panic!("expected a multipart body, got {:?}", other),
    }
}

#[test]
fn duplicate_header_keeps_last_value() {
    let req = Request::parse(
        "GET / HTTP/1.1\r\nX-Dup: first\r\nX-Dup: second\r\n\r\n".into(),
        vec![],
    )
    .unwrap();
    assert_eq!(req.headers.get("X-Dup").unwrap(), "second");
}

#[test]
fn error_message_carries_method_token() {
    let msg = RequestError::UnknownMethod("FOO".into()).message();
    assert_eq!(msg, "Unknown HTTP method: FOO");
    assert_eq!(RequestError::MalformedHeader.message(), "Malformed header");
}
