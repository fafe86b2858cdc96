use sipcodec::error::{Error, Rule, SemanticError};
use sipcodec::header::{Header, Headers};
use sipcodec::response::{Response, Tokenizer};
use sipcodec::status_code::StatusCode;
use sipcodec::version::Version;
use sipcodec::{Request, SipMessage};

#[test]
fn response_parse() {
    let input = b"SIP/2.0 200 OK\r\nVia: SIP/2.0/UDP pc33.atlanta.example.com\r\nContent-Length: 4\r\n\r\nbody";
    let (rem, tok) = Tokenizer::tokenize(input).expect("a valid response buffer");
    assert_eq!(rem, &b""[..]);
    let resp = Response::parse(tok).expect("a semantically valid response");
    assert_eq!(resp.status_code, StatusCode(200));
    assert_eq!(resp.version, Version::V2);
    assert_eq!(
        resp.headers,
        Headers(vec![
            Header {
                name: b"Via".to_vec(),
                value: b"SIP/2.0/UDP pc33.atlanta.example.com".to_vec(),
            },
            Header {
                name: b"Content-Length".to_vec(),
                value: b"4".to_vec(),
            },
        ])
    );
    assert_eq!(resp.body, b"body".to_vec());
}

#[test]
fn response_getters() {
    let input = b"SIP/2.0 404 Not Found\r\n\r\n";
    let mut resp = Response::try_from_slice(input).unwrap();
    assert_eq!(*resp.status_code(), StatusCode(404));
    assert_eq!(*resp.version(), Version::V2);
    assert_eq!(resp.headers().len(), 0);
    assert_eq!(*resp.body(), Vec::<u8>::new());
    resp.headers_mut().push(Header {
        name: b"Server".to_vec(),
        value: b"unit".to_vec(),
    });
    assert_eq!(resp.headers().len(), 1);
    resp.body_mut().push(33);
    assert_eq!(*resp.body(), vec![33u8]);
}

#[test]
fn missing_separator_is_a_syntax_error() {
    // The header block never ends with the mandatory blank line, so this is
    // a syntax error, not a truncated-body success.
    let input = b"SIP/2.0 200 OK\r\nVia: SIP/2.0/UDP pc33.atlanta.example.com\r\n";
    let r = Tokenizer::tokenize(input);
    let e = r.expect_err("no blank-line separator");
    assert_eq!(e.rule, Rule::Separator);
    match Response::try_from_slice(input) {
        Err(Error::Syntax(e2)) => assert_eq!(e2.rule, Rule::Separator),
        other => panic!("expected a syntax error, got {:?}", other),
    }
}

#[test]
fn status_code_boundaries() {
    assert_eq!(
        Response::try_from_slice(b"SIP/2.0 099 Low\r\n\r\n"),
        Err(Error::Semantic(SemanticError::StatusCode))
    );
    assert_eq!(
        Response::try_from_slice(b"SIP/2.0 700 High\r\n\r\n"),
        Err(Error::Semantic(SemanticError::StatusCode))
    );
    // Not three digits at all: rejected already by the tokenizer.
    match Response::try_from_slice(b"SIP/2.0 abc Huh\r\n\r\n") {
        Err(Error::Syntax(e)) => assert_eq!(e.rule, Rule::StatusCode),
        other => panic!("expected a syntax error, got {:?}", other),
    }
    let low = Response::try_from_slice(b"SIP/2.0 100 Trying\r\n\r\n").unwrap();
    assert_eq!(low.status_code, StatusCode(100));
    let high = Response::try_from_slice(b"SIP/2.0 699 Odd\r\n\r\n").unwrap();
    assert_eq!(high.status_code, StatusCode(699));
}

#[test]
fn unknown_version_is_a_semantic_error() {
    assert_eq!(
        Response::try_from_slice(b"SIP/3.0 200 OK\r\n\r\n"),
        Err(Error::Semantic(SemanticError::Version))
    );
}

#[test]
fn zero_headers_is_valid() {
    let resp = Response::try_from_slice(b"SIP/2.0 180 Ringing\r\n\r\n").unwrap();
    assert_eq!(resp.headers.0, Vec::<Header>::new());
    assert_eq!(resp.body, Vec::<u8>::new());
}

#[test]
fn header_order_and_count_preserved() {
    // Repeated header names keep their order and count through a parse and a
    // re-render.
    let input = b"SIP/2.0 200 \r\nA: 1\r\nB: 2\r\nA: 3\r\n\r\n";
    let resp = Response::try_from_slice(input).unwrap();
    let names: Vec<Vec<u8>> = resp.headers.0.iter().map(|h| h.name.clone()).collect();
    assert_eq!(
        names,
        vec![b"A".to_vec(), b"B".to_vec(), b"A".to_vec()]
    );
    assert_eq!(resp.render(), input.to_vec());
}

#[test]
fn response_render_round_trip() {
    let input = b"SIP/2.0 404 \r\nVia: SIP/2.0/TCP h.example.com\r\nX: y\r\n\r\npayload";
    let resp = Response::try_from_slice(input).unwrap();
    assert_eq!(resp.render(), input.to_vec());
    let again = Response::try_from_slice(&resp.render()).unwrap();
    assert_eq!(resp, again);
}

#[test]
fn folded_header_value() {
    let input = b"SIP/2.0 200 OK\r\nSubject: first\r\n second\r\n\r\n";
    let resp = Response::try_from_slice(input).unwrap();
    assert_eq!(resp.headers.0.len(), 1);
    assert_eq!(resp.headers.0[0].name, b"Subject".to_vec());
    assert_eq!(resp.headers.0[0].value, b"first\r\n second".to_vec());
}

#[test]
fn reason_phrase_with_spaces() {
    let resp = Response::try_from_slice(b"SIP/2.0 404 Not Found Here\r\n\r\n").unwrap();
    assert_eq!(resp.status_code, StatusCode(404));
}

#[test]
fn narrowing_a_request_fails() {
    let request = Request {
        method: b"INVITE".to_vec(),
        uri: b"sip:bob@biloxi.example.com".to_vec(),
        version: Version::V2,
        headers: Headers(Vec::new()),
        body: Vec::new(),
    };
    let r = Response::try_from(SipMessage::Request(request));
    assert_eq!(
        r,
        Err("Can't convert a models::SipMessage::Response into Request !")
    );
}

#[test]
fn narrowing_a_response_succeeds() {
    let resp = Response::try_from_slice(b"SIP/2.0 200 OK\r\n\r\n").unwrap();
    let back = Response::try_from(SipMessage::Response(resp.clone()));
    assert_eq!(back, Ok(resp));
}

#[test]
fn parse_from_bytes_buffer() {
    let input = b"SIP/2.0 200 OK\r\nVia: SIP/2.0/UDP h\r\n\r\n".to_vec();
    let from_slice = Response::try_from_slice(&input).unwrap();
    let buf = bytes::Bytes::from(input);
    let from_bytes = Response::try_from_bytes(&buf).unwrap();
    assert_eq!(from_slice, from_bytes);
}

#[test]
fn version_one_accepted() {
    let resp = Response::try_from_slice(b"SIP/1.0 200 OK\r\n\r\n").unwrap();
    assert_eq!(resp.version, Version::V1);
}

#[test]
fn syntax_error_positions() {
    // The version rule fails at the very first byte.
    let e = Tokenizer::tokenize(b"garbage").expect_err("not a status line");
    assert_eq!(e.rule, Rule::Version);
    assert_eq!(e.pos, 0);
    // The status line is fine but the reason never ends in a CRLF.
    let e = Tokenizer::tokenize(b"SIP/2.0 200 OK").expect_err("no CRLF after the reason");
    assert_eq!(e.rule, Rule::Reason);
}

#[test]
fn parse_from_text() {
    let from_str = sipcodec::response::Response::try_from_str(
        "SIP/2.0 486 Busy Here\r\nVia: SIP/2.0/UDP h\r\n\r\n",
    )
    .unwrap();
    let from_slice = sipcodec::response::Response::try_from_slice(
        b"SIP/2.0 486 Busy Here\r\nVia: SIP/2.0/UDP h\r\n\r\n",
    )
    .unwrap();
    assert_eq!(from_str, from_slice);
    assert_eq!(from_str.status_code, sipcodec::status_code::StatusCode(486));
}

#[test]
fn header_lookup_is_case_insensitive() {
    let input = b"SIP/2.0 200 OK\r\nVia: SIP/2.0/UDP a\r\nCSeq: 1\r\nVIA: SIP/2.0/TCP b\r\n\r\n";
    let resp = Response::try_from_slice(input).unwrap();
    let vias = resp.headers().find_all(b"via");
    assert_eq!(
        vias,
        vec![
            Header {
                name: b"Via".to_vec(),
                value: b"SIP/2.0/UDP a".to_vec(),
            },
            Header {
                name: b"VIA".to_vec(),
                value: b"SIP/2.0/TCP b".to_vec(),
            },
        ]
    );
    assert_eq!(resp.headers().find_all(b"Contact"), Vec::<Header>::new());
    // A looked-up Via value feeds the per-header-kind pipeline.
    let via = sipcodec::via::Via::try_from_value(&vias[0].value).unwrap();
    assert_eq!(via.transport, sipcodec::via::Transport::Udp);
}

#[test]
fn semantic_error_messages() {
    assert_eq!(
        SemanticError::Version.message(),
        "unrecognized protocol version"
    );
    assert_eq!(
        SemanticError::StatusCode.message(),
        "status code outside 100..=699"
    );
    assert_eq!(
        SemanticError::Port.message(),
        "port is not an unsigned 16-bit integer"
    );
}
