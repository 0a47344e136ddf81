use desyncd::http_head::{
    bad_gateway_response, bad_request_response, connection_established_response, header_line, parse_request_head,
    HeadError,
};
use desyncd::http_proxy::{build_forward_request, parse_absolute_url, parse_host_port, push_decimal};
use desyncd::relay::{after_first_read, after_more_data, send_plan, ConnState, Gather, SendStep, MAX_FIRST_BUF};
use desyncd::socks::{
    choose_auth, detect_proxy_protocol, domain_tail_len, domain_target, greeting_method_count, ipv4_target,
    ipv6_target, is_socks4a, parse_request_header, parse_socks4_header, socks4_reject, socks4_success, socks5_reply,
    AddressKind, FieldStep, NulField, ProxyProtocol, SocksError,
};
use desyncd::types::{DesyncAction, Error, StealthConfig};

#[test]
fn test_parse_host_port() {
    let (host, port) = parse_host_port("example.com:443").unwrap();
    assert_eq!(host, "example.com");
    assert_eq!(port, 443);

    let (host, port) = parse_host_port("example.com:8080").unwrap();
    assert_eq!(host, "example.com");
    assert_eq!(port, 8080);

    let (host, port) = parse_host_port("example.com").unwrap();
    assert_eq!(host, "example.com");
    assert_eq!(port, 443);
}

#[test]
fn test_parse_absolute_url() {
    let (host, port, path) = parse_absolute_url("http://example.com/foo/bar").unwrap();
    assert_eq!(host, "example.com");
    assert_eq!(port, 80);
    assert_eq!(path, "/foo/bar");

    let (host, port, path) = parse_absolute_url("http://example.com:8080/test").unwrap();
    assert_eq!(host, "example.com");
    assert_eq!(port, 8080);
    assert_eq!(path, "/test");

    let (host, port, path) = parse_absolute_url("http://example.com").unwrap();
    assert_eq!(host, "example.com");
    assert_eq!(port, 80);
    assert_eq!(path, "/");
}

#[test]
fn host_port_edge_cases() {
    assert!(matches!(parse_host_port("example.com:http"), Err(Error::Proxy(_))));
    assert!(matches!(parse_host_port("example.com:70000"), Err(Error::Proxy(_))));
    let (host, port) = parse_host_port("[::1]:8443").unwrap();
    assert_eq!(host, "[::1]");
    assert_eq!(port, 8443);
    let (host, port) = parse_host_port("host:+22").unwrap();
    assert_eq!((host.as_str(), port), ("host", 22));
}

#[test]
fn absolute_url_edge_cases() {
    let (host, port, path) = parse_absolute_url("https://example.org:x/a?b").unwrap();
    assert_eq!((host.as_str(), port, path.as_str()), ("example.org", 80, "/a?b"));
    let (host, port, path) = parse_absolute_url("/only/path").unwrap();
    assert_eq!((host.as_str(), port, path.as_str()), ("", 80, "/only/path"));
    let (host, port, path) = parse_absolute_url("ftp://h:21/p").unwrap();
    assert_eq!((host.as_str(), port, path.as_str()), ("ftp", 80, "//h:21/p"));
}

#[test]
fn forward_request_filters_proxy_headers_and_adds_host() {
    let headers = vec![
        "User-Agent: t".to_string(),
        "Proxy-Connection: keep-alive".to_string(),
        "PROXY-AUTHORIZATION: Basic x".to_string(),
    ];
    let req = build_forward_request("GET", "/p", "HTTP/1.1", &headers, "example.com", 8080);
    assert_eq!(
        String::from_utf8(req).unwrap(),
        "GET /p HTTP/1.1\r\nUser-Agent: t\r\nHost: example.com:8080\r\nConnection: close\r\n\r\n"
    );
    let headers = vec!["host: example.com".to_string()];
    let req = build_forward_request("POST", "/", "HTTP/1.0", &headers, "example.com", 80);
    assert_eq!(
        String::from_utf8(req).unwrap(),
        "POST / HTTP/1.0\r\nhost: example.com\r\nConnection: close\r\n\r\n"
    );
    let req = build_forward_request("GET", "/", "HTTP/1.1", &[], "a.b", 80);
    assert_eq!(String::from_utf8(req).unwrap(), "GET / HTTP/1.1\r\nHost: a.b\r\nConnection: close\r\n\r\n");
}

#[test]
fn decimal_digits() {
    let mut v = Vec::new();
    push_decimal(&mut v, 0);
    push_decimal(&mut v, 65535);
    assert_eq!(v, b"065535");
}

#[test]
fn socks5_greeting_and_auth() {
    assert_eq!(greeting_method_count(&[5, 2]), Ok(2));
    assert_eq!(greeting_method_count(&[4, 2]), Err(SocksError::UnsupportedVersion(4)));
    let (reply, ok) = choose_auth(&[2, 0]);
    assert_eq!(reply, vec![5, 0]);
    assert!(ok.is_ok());
    let (reply, ok) = choose_auth(&[2]);
    assert_eq!(reply, vec![5, 0xFF]);
    assert_eq!(ok, Err(SocksError::NoAcceptableAuth));
}

#[test]
fn socks5_request_headers() {
    assert_eq!(parse_request_header(&[5, 1, 0, 1]).unwrap(), AddressKind::Ipv4);
    assert_eq!(parse_request_header(&[5, 1, 0, 3]).unwrap(), AddressKind::Domain);
    assert_eq!(parse_request_header(&[5, 1, 0, 4]).unwrap(), AddressKind::Ipv6);
    let (e, reply) = parse_request_header(&[4, 1, 0, 1]).unwrap_err();
    assert_eq!(e, SocksError::BadRequestVersion(4));
    assert!(reply.is_none());
    let (e, reply) = parse_request_header(&[5, 2, 0, 4]).unwrap_err();
    assert_eq!(e, SocksError::UnsupportedCommand(2));
    assert_eq!(reply.unwrap(), socks5_reply(7, 4));
    let (e, reply) = parse_request_header(&[5, 1, 0, 9]).unwrap_err();
    assert_eq!(e, SocksError::UnsupportedAddressType(9));
    assert_eq!(reply.unwrap(), vec![5, 8, 0, 1, 0, 0, 0, 0, 0, 0]);
    assert_eq!(socks5_reply(0, 4).len(), 22);
    assert_eq!(socks5_reply(0, 3), vec![5, 0, 0, 1, 0, 0, 0, 0, 0, 0]);
}

#[test]
fn socks5_targets() {
    let t = ipv4_target(&[10, 0, 0, 1, 0x01, 0xBB]);
    assert_eq!(t.ip, u32::from_be_bytes([10, 0, 0, 1]));
    assert_eq!(t.port, 443);
    let (addr, port) = ipv6_target(&[0u8, 1, 2, 3, 4, 5, 6, 7, 8, 9, 10, 11, 12, 13, 14, 15, 0, 80]);
    assert_eq!(addr, (0u8..16).collect::<Vec<u8>>());
    assert_eq!(port, 80);
    assert_eq!(domain_tail_len(11), Ok(13));
    let (e, reply) = domain_tail_len(0).unwrap_err();
    assert_eq!(e, SocksError::EmptyDomain);
    assert_eq!(reply, vec![5, 1, 0, 1, 0, 0, 0, 0, 0, 0]);
    let (name, port) = domain_target(b"example.com\x01\xbb", 11).unwrap();
    assert_eq!((name.as_str(), port), ("example.com", 443));
    assert_eq!(domain_target(&[0xff, 0, 80], 1), Err(SocksError::DomainNotUtf8));
}

#[test]
fn socks4_handshake() {
    assert_eq!(parse_socks4_header(&[4, 1, 0, 80, 1, 2, 3, 4]).unwrap(), (80, u32::from_be_bytes([1, 2, 3, 4])));
    let (e, reply) = parse_socks4_header(&[4, 2, 0, 80, 1, 2, 3, 4]).unwrap_err();
    assert_eq!(e, SocksError::Socks4Command(2));
    assert_eq!(reply.unwrap(), socks4_reject());
    let (e, reply) = parse_socks4_header(&[5, 1, 0, 80, 1, 2, 3, 4]).unwrap_err();
    assert_eq!(e, SocksError::Socks4Version(5));
    assert!(reply.is_none());
    assert!(is_socks4a(u32::from_be_bytes([0, 0, 0, 7])));
    assert!(!is_socks4a(0));
    assert!(!is_socks4a(u32::from_be_bytes([1, 0, 0, 7])));
    assert_eq!(socks4_success(443, u32::from_be_bytes([9, 8, 7, 6])), vec![0, 0x5A, 1, 0xBB, 9, 8, 7, 6]);
}

#[test]
fn socks4_fields() {
    let mut f = NulField::new();
    for b in b"abc" {
        assert_eq!(f.feed(*b), FieldStep::More);
    }
    assert_eq!(f.feed(0), FieldStep::Done);
    assert_eq!(f.bytes(), b"abc");
    assert_eq!(f.domain().unwrap(), "abc");
    let mut long = NulField::new();
    for _ in 0..256 {
        assert_eq!(long.feed(b'x'), FieldStep::More);
    }
    assert_eq!(long.feed(b'x'), FieldStep::TooLong);
    let mut bad = NulField::new();
    bad.feed(0xC3);
    assert_eq!(bad.domain(), Err(SocksError::DomainNotUtf8));
}

#[test]
fn proxy_protocol_detection() {
    assert_eq!(detect_proxy_protocol(5), ProxyProtocol::Socks5);
    assert_eq!(detect_proxy_protocol(4), ProxyProtocol::Socks4);
    assert_eq!(detect_proxy_protocol(b'C'), ProxyProtocol::Http);
    assert_eq!(detect_proxy_protocol(b'g'), ProxyProtocol::Http);
    assert_eq!(detect_proxy_protocol(0x16), ProxyProtocol::Socks5);
}

#[test]
fn first_message_gathering() {
    assert_eq!(after_first_read(b"GET / HTTP/1.1\r\n"), Gather::Done);
    assert_eq!(after_first_read(&[0x16, 0x03, 0x01, 0x00, 0x40, 0x01]), Gather::ReadMore);
    assert_eq!(after_more_data(&[0x16, 0x03, 0x01, 0x00, 0x40, 0x01]), Gather::ReadMore);
    assert_eq!(after_more_data(&vec![0u8; MAX_FIRST_BUF]), Gather::Done);
    assert_eq!(after_more_data(b"xyz"), Gather::Done);
}

#[test]
fn send_plans() {
    let orig = b"hello".to_vec();
    assert_eq!(send_plan(&DesyncAction::PassThrough, &orig, None), vec![SendStep::Write(orig.clone())]);
    assert_eq!(send_plan(&DesyncAction::Replace(b"x".to_vec()), &orig, None), vec![SendStep::Write(b"x".to_vec())]);
    let split = DesyncAction::Split(vec![b"he".to_vec(), b"llo".to_vec()]);
    assert_eq!(
        send_plan(&split, &orig, None),
        vec![SendStep::Write(b"he".to_vec()), SendStep::Flush, SendStep::Write(b"llo".to_vec()), SendStep::Flush]
    );
    let stealth = StealthConfig { timing_jitter_us: 10, ..Default::default() };
    let plan = send_plan(&split, &orig, Some(&stealth));
    assert_eq!(plan.len(), 6);
    assert!(matches!(plan[2], SendStep::Pause(us) if us <= 10));
    let inject = DesyncAction::InjectBefore(vec![b"fake".to_vec()]);
    assert_eq!(
        send_plan(&inject, &orig, None),
        vec![SendStep::Write(b"fake".to_vec()), SendStep::Flush, SendStep::Write(orig.clone())]
    );
    let slow = DesyncAction::SlowSplit { chunks: vec![b"he".to_vec(), b"llo".to_vec()], delay_us: 3_000_000 };
    assert_eq!(
        send_plan(&slow, &orig, None),
        vec![
            SendStep::Write(b"he".to_vec()),
            SendStep::Flush,
            SendStep::Pause(3_000_000),
            SendStep::Write(b"llo".to_vec()),
            SendStep::Flush
        ]
    );
}

#[test]
fn connection_state() {
    let mut s = ConnState::new();
    assert!(s.is_success());
    s.mark_desync_applied();
    assert!(!s.is_success());
    s.add_bytes_sent(10);
    s.add_bytes_sent(u64::MAX);
    assert_eq!(s.bytes_sent, 9);
    s.add_bytes_received(5);
    s.mark_upstream_responded();
    assert!(s.is_success());
    assert_eq!(s.bytes_received, 5);
    let _ = s.elapsed();
    let d = ConnState::default();
    assert!(!d.desync_applied && d.bytes_sent == 0);
}

#[test]
fn request_head_connect() {
    let h = parse_request_head("connect example.com:443 HTTP/1.1\r\nHost: example.com\r\n\r\n").unwrap();
    assert_eq!(h.method, "CONNECT");
    assert!(h.connect);
    assert_eq!(h.target, "example.com:443");
    assert_eq!(h.version, "HTTP/1.1");
    assert!(h.complete);
    let h = parse_request_head("CONNECT a.com:443 HTTP/1.1\r\n").unwrap();
    assert!(!h.complete);
}

#[test]
fn request_head_forward_and_errors() {
    // The text after the request line starts with its line ending, so the
    // first line scanned is blank and ends the head.
    let h = parse_request_head("GET http://a.com/ HTTP/1.1\r\nHost: a.com\r\n\r\n").unwrap();
    assert!(!h.connect);
    assert_eq!(h.method, "GET");
    assert!(h.complete);
    assert!(h.headers.is_empty());
    // The rest is taken from the length of the trimmed request line on:
    // with leading blanks it starts inside the request line.
    let h = parse_request_head("  GET / HTTP/1.1\r\nHost: a\r\nnot-a-header\r\n\r\nX: y").unwrap();
    assert_eq!(h.version, "HTTP/1.1");
    assert_eq!(h.headers, vec!["Host: a".to_string()]);
    assert!(h.complete);
    let h = parse_request_head("  GET / HTTP/1.1\r\nHost: a\r\n").unwrap();
    assert!(!h.complete);
    match parse_request_head("GET /\r\n") {
        Err(HeadError::Malformed(line)) => assert_eq!(line, "GET /"),
        other => panic!("unexpected {:?}", other),
    }
    assert_eq!(header_line("  Accept: */*\r\n"), Some("Accept: */*".to_string()));
    assert_eq!(header_line(" \r\n"), None);
    assert_eq!(bad_request_response(), b"HTTP/1.1 400 Bad Request\r\n\r\n".to_vec());
    assert_eq!(bad_gateway_response(), b"HTTP/1.1 502 Bad Gateway\r\n\r\n".to_vec());
    assert_eq!(connection_established_response(), b"HTTP/1.1 200 Connection Established\r\n\r\n".to_vec());
}
