//! Framing messages out of a stream of byte chunks.

use blitzkrieg::request::BodyType;
use blitzkrieg::{ConnStep, Framer, Request, RequestError};

#[test]
fn parse_tcp_stream_works() {
    let body_string = "some plain body";
    let body: Vec<u8> = Vec::from(body_string);
    let r = "POST / HTTP/1.1\r\nHost: localhost:7878\r\nUser-Agent: insomnia/2022.7.3\r\nContent-Type: text/plain\r\nAuthorization: token\r\nAccept: */*\r\nContent-Length: 15\r\n\r\n";
    let v = [Vec::from(r), body].concat();
    let mut framer = Framer::new();
    framer.push_bytes(&v);
    let (head, body) = framer.try_frame().unwrap().unwrap();
    let req = Request::parse(head, body).unwrap();
    match req.body {
        Some(BodyType::Text(body)) => {
            assert_eq!(body, body_string)
        }
        _ => panic!("Bodytype shouldn't be formdata"),
    }
}

#[test]
fn tcp_pipelining_works() {
    let mut all_reqs = String::new();
    let n = 5;
    for i in 0..n {
        let req = format!("POST /{i} HTTP/1.1\r\nContent-Length: 0\r\n\r\n");
        all_reqs = format!("{}{}", all_reqs, req);
    }
    let mut framer = Framer::new();
    framer.push_bytes(all_reqs.as_bytes());
    for i in 0..n {
        let (head, body) = framer.try_frame().unwrap().unwrap();
        let req = Request::parse(head, body).unwrap();
        assert_eq!(req.path, format!("/{}", i));
    }
}

#[test]
fn framer_reads_exact_body_from_one_byte_chunks() {
    let message =
        "POST / HTTP/1.1\r\nContent-Type: text/plain\r\nContent-Length: 15\r\n\r\nsome plain body";
    let mut framer = Framer::new();
    let bytes = message.as_bytes();
    for k in 0..bytes.len() {
        // before the last byte arrives, no message is whole
        assert!(matches!(framer.try_frame(), Ok(None)));
        framer.push_bytes(&bytes[k..k + 1]);
    }
    let (head, body) = framer.try_frame().unwrap().unwrap();
    assert_eq!(body.len(), 15);
    assert_eq!(body, b"some plain body".to_vec());
    assert!(head.ends_with("\r\n\r\n"));
    // nothing is left over
    assert!(matches!(framer.try_frame(), Ok(None)));
}

#[test]
fn framer_keeps_bytes_of_the_next_message() {
    let mut framer = Framer::new();
    framer.push_bytes(b"GET /a HTTP/1.1\r\n\r\nGET /b HT");
    let (head, body) = framer.try_frame().unwrap().unwrap();
    assert!(head.starts_with("GET /a"));
    assert_eq!(body.len(), 0);
    // the second message is still incomplete
    assert!(matches!(framer.try_frame(), Ok(None)));
    framer.push_bytes(b"TP/1.1\r\n\r\n");
    let (head2, _) = framer.try_frame().unwrap().unwrap();
    assert!(head2.starts_with("GET /b"));
}

#[test]
fn framer_rejects_malformed_content_length() {
    let mut framer = Framer::new();
    framer.push_bytes(b"GET / HTTP/1.1\r\nContent-Length: abc\r\n\r\n");
    match framer.try_frame() {
        Err(RequestError::MalformedLength) => {}
        other => panic!("expected MalformedLength, got {:?}", other),
    }
}

#[test]
fn absent_content_length_means_empty_body() {
    let mut framer = Framer::new();
    framer.push_bytes(b"GET / HTTP/1.1\r\nHost: x\r\n\r\nleftover");
    let (_, body) = framer.try_frame().unwrap().unwrap();
    assert_eq!(body.len(), 0);
}

#[test]
fn connection_step_dispatches_and_reports_errors() {
    let mut framer = Framer::new();
    match blitzkrieg::conn::connection_step(&mut framer) {
        ConnStep::NeedMore => {}
        _ => panic!("an empty buffer needs more bytes"),
    }
    framer.push_bytes(b"GET /x HTTP/1.1\r\n\r\n");
    match blitzkrieg::conn::connection_step(&mut framer) {
        ConnStep::Dispatch(req) => assert_eq!(req.path, "/x"),
        _ => panic!("a whole request is dispatched"),
    }
    framer.push_bytes(b"FOO /x HTTP/1.1\r\n\r\n");
    match blitzkrieg::conn::connection_step(&mut framer) {
        ConnStep::SendErrorAndClose(bytes) => {
            let text = String::from_utf8(bytes).unwrap();
            assert!(text.starts_with("HTTP/1.1 500\r\n"));
            assert!(text.contains("Unknown HTTP method: FOO"));
        }
        _ => panic!("an unusable message is answered with an error response"),
    }
}
