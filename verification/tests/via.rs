use sipcodec::param::{Param, Tokenizer as ParamTokenizer};
use sipcodec::uri::{HostWithPort, Tokenizer as HostPortTokenizer};
use sipcodec::version::{Tokenizer as VersionTokenizer, Version};
use sipcodec::via::{Tokenizer, Transport, Via};

#[test]
fn tokenizer() {
    let input = b"SIP/2.0/TLS client.biloxi.example.com:5061;branch=z9hG4bKnashds7";
    let (rem, tok) = Tokenizer::tokenize(input).expect("a valid Via header value");
    assert_eq!(
        (rem, tok),
        (
            &b""[..],
            Tokenizer {
                version: VersionTokenizer {
                    major: &b"2"[..],
                    minor: &b"0"[..],
                },
                transport: &b"TLS"[..],
                uri: HostPortTokenizer {
                    host: &b"client.biloxi.example.com"[..],
                    port: Some(&b"5061"[..]),
                },
                params: vec![ParamTokenizer {
                    name: &b"branch"[..],
                    value: Some(&b"z9hG4bKnashds7"[..]),
                }],
            }
        )
    );
}

#[test]
fn display() {
    let via = Via {
        version: Version::V2,
        transport: Transport::Tls,
        uri: HostWithPort {
            host: b"client.biloxi.example.com".to_vec(),
            port: Some(5061),
        },
        params: vec![Param::Branch(b"z9hG4bKnashds7".to_vec())],
    };
    assert_eq!(
        via.render(),
        b"SIP/2.0/TLS client.biloxi.example.com:5061;branch=z9hG4bKnashds7".to_vec()
    );
}

#[test]
fn from_tokenizer() {
    let input = b"SIP/2.0/TLS client.biloxi.example.com:5061;branch=z9hG4bKnashds7";
    let (_, tok) = Tokenizer::tokenize(input).expect("a valid Via header value");
    let via = Via::parse(&tok).expect("a semantically valid Via");
    assert_eq!(
        via,
        Via {
            version: Version::V2,
            transport: Transport::Tls,
            uri: HostWithPort {
                host: b"client.biloxi.example.com".to_vec(),
                port: Some(5061),
            },
            params: vec![Param::Branch(b"z9hG4bKnashds7".to_vec())],
        }
    );
}

#[test]
fn unknown_transport_preserved() {
    let input = b"SIP/2.0/QUIC client.biloxi.example.com:5061;branch=z9hG4bKnashds7";
    let (_, tok) = Tokenizer::tokenize(input).expect("a valid Via header value");
    let via = Via::parse(&tok).expect("an extension transport is not an error");
    assert_eq!(via.transport, Transport::Other(b"QUIC".to_vec()));
    let mut rendered_transport: Vec<u8> = Vec::new();
    via.transport.render_onto(&mut rendered_transport);
    assert_eq!(rendered_transport, b"QUIC".to_vec());
    assert_eq!(via.render(), input.to_vec());
}

#[test]
fn transport_case_insensitive() {
    let (_, tok) = Tokenizer::tokenize(b"SIP/2.0/tls host.example.com").unwrap();
    let via = Via::parse(&tok).unwrap();
    assert_eq!(via.transport, Transport::Tls);
    // The canonical rendering upper-cases the known transport.
    assert_eq!(via.render(), b"SIP/2.0/TLS host.example.com".to_vec());
}

#[test]
fn via_round_trip() {
    let texts: [&[u8]; 5] = [
        b"SIP/2.0/UDP pc33.atlanta.example.com;branch=z9hG4bK776asdhds",
        b"SIP/2.0/TCP host.example.com:15060",
        b"SIP/1.0/WSS edge.example.org;received=192.0.2.1;rport",
        b"SIP/2.0/SCTP a.b.c;x",
        b"SIP/2.0/WS ws.example.net:80;branch=z9",
    ];
    for text in texts {
        let (_, tok) = Tokenizer::tokenize(text).expect("a valid Via header value");
        let via = Via::parse(&tok).expect("a semantically valid Via");
        let rendered = via.render();
        let (_, tok2) = Tokenizer::tokenize(&rendered).expect("rendered text re-tokenizes");
        let via2 = Via::parse(&tok2).expect("rendered text re-converts");
        assert_eq!(via, via2);
    }
}

#[test]
fn via_port_out_of_range() {
    let (_, tok) = Tokenizer::tokenize(b"SIP/2.0/UDP host.example.com:65536").unwrap();
    assert_eq!(Via::parse(&tok), Err(sipcodec::error::SemanticError::Port));
    let (_, tok) = Tokenizer::tokenize(b"SIP/2.0/UDP host.example.com:65535").unwrap();
    assert_eq!(Via::parse(&tok).unwrap().uri.port, Some(65535));
}

#[test]
fn via_unknown_version_rejected() {
    let (_, tok) = Tokenizer::tokenize(b"SIP/3.0/UDP host.example.com").unwrap();
    assert_eq!(Via::parse(&tok), Err(sipcodec::error::SemanticError::Version));
}

#[test]
fn via_syntax_errors() {
    // No space, so no transport terminator.
    assert!(Tokenizer::tokenize(b"SIP/2.0/UDP").is_err());
    // Missing host.
    assert!(Tokenizer::tokenize(b"SIP/2.0/UDP ;branch=z").is_err());
    // Not a version prefix at all.
    assert!(Tokenizer::tokenize(b"HTTP/1.1 200").is_err());
    // An empty parameter name.
    assert!(Tokenizer::tokenize(b"SIP/2.0/UDP h;;x").is_err());
}

#[test]
fn param_without_value() {
    let (_, tok) = Tokenizer::tokenize(b"SIP/2.0/UDP h;rport;branch=z9").unwrap();
    let via = Via::parse(&tok).unwrap();
    assert_eq!(
        via.params,
        vec![
            Param::Other(b"rport".to_vec(), None),
            Param::Branch(b"z9".to_vec()),
        ]
    );
}
