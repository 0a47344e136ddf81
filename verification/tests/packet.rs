use desyncd::http::parse_http_request;
use desyncd::quic::{parse_quic_initial, QUIC_V1, QUIC_V2};
use desyncd::tls::{parse_client_hello, try_parse_client_hello, ParseStatus, EXTENSION_SNI, SNI_TYPE_HOSTNAME};
use desyncd::types::AppProtocol;
use desyncd::packet::{default_split_offset, detect_protocol};

/// Build a minimal TLS ClientHello with the given SNI hostname.
fn build_client_hello(sni: &str) -> Vec<u8> {
    let sni_bytes = sni.as_bytes();
    let sni_ext_data_len = 2 + 1 + 2 + sni_bytes.len();
    let sni_ext_len = 4 + sni_ext_data_len;
    let extensions_len = sni_ext_len;
    let ch_body_len = 2 + 32 + 1 + 2 + 2 + 1 + 1 + 2 + extensions_len;
    let hs_len = 4 + ch_body_len;

    let mut buf = Vec::new();
    buf.push(0x16);
    buf.extend_from_slice(&0x0301u16.to_be_bytes());
    buf.extend_from_slice(&(hs_len as u16).to_be_bytes());
    buf.push(0x01);
    buf.push(0x00);
    buf.extend_from_slice(&(ch_body_len as u16).to_be_bytes());
    buf.extend_from_slice(&0x0303u16.to_be_bytes());
    buf.extend_from_slice(&[0u8; 32]);
    buf.push(0);
    buf.extend_from_slice(&2u16.to_be_bytes());
    buf.extend_from_slice(&0x1301u16.to_be_bytes());
    buf.push(1);
    buf.push(0);
    buf.extend_from_slice(&(extensions_len as u16).to_be_bytes());
    buf.extend_from_slice(&(EXTENSION_SNI as u16).to_be_bytes());
    buf.extend_from_slice(&(sni_ext_data_len as u16).to_be_bytes());
    let sni_list_len = 1 + 2 + sni_bytes.len();
    buf.extend_from_slice(&(sni_list_len as u16).to_be_bytes());
    buf.push(SNI_TYPE_HOSTNAME);
    buf.extend_from_slice(&(sni_bytes.len() as u16).to_be_bytes());
    buf.extend_from_slice(sni_bytes);
    buf
}

#[test]
fn test_parse_client_hello_with_sni() {
    let data = build_client_hello("www.example.com");
    let result = try_parse_client_hello(&data);
    match result {
        ParseStatus::Complete(AppProtocol::TlsClientHello { sni, sni_offset, sni_len }) => {
            assert_eq!(sni.as_deref(), Some("www.example.com"));
            assert_eq!(sni_len, 15);
            assert!(sni_offset > 0);
            let extracted = &data[sni_offset..sni_offset + sni_len];
            assert_eq!(extracted, b"www.example.com");
        }
        other => panic!("expected Complete TlsClientHello with SNI, got {:?}", other),
    }
}

#[test]
fn test_non_tls_data() {
    let data = b"GET / HTTP/1.1\r\nHost: example.com\r\n\r\n";
    assert_eq!(try_parse_client_hello(data), ParseStatus::NotTls);
}

#[test]
fn test_too_short_but_looks_tls() {
    assert_eq!(try_parse_client_hello(&[0x16]), ParseStatus::NeedMore(5));
}

#[test]
fn test_too_short_not_tls() {
    assert_eq!(try_parse_client_hello(&[0x00]), ParseStatus::NotTls);
}

#[test]
fn test_partial_record() {
    let data = build_client_hello("example.com");
    let partial = &data[..20];
    match try_parse_client_hello(partial) {
        ParseStatus::NeedMore(n) => {
            assert!(n > 20, "should need more than 20 bytes, got {}", n);
            assert!(n <= data.len(), "shouldn't need more than full packet");
        }
        other => panic!("expected NeedMore, got {:?}", other),
    }
}

#[test]
fn test_truncated_at_extensions() {
    let data = build_client_hello("example.com");
    let truncated = &data[..data.len() - 5];
    match try_parse_client_hello(truncated) {
        ParseStatus::NeedMore(n) => {
            assert!(n >= data.len() - 5);
        }
        other => panic!("expected NeedMore, got {:?}", other),
    }
}

#[test]
fn test_coalesced_data_after_clienthello() {
    let mut data = build_client_hello("example.com");
    data.extend_from_slice(&[0xFF; 100]);
    match try_parse_client_hello(&data) {
        ParseStatus::Complete(AppProtocol::TlsClientHello { sni, .. }) => {
            assert_eq!(sni.as_deref(), Some("example.com"));
        }
        other => panic!("expected Complete, got {:?}", other),
    }
}

#[test]
fn test_fragmented_tls_records() {
    let full = build_client_hello("fragmented.example.com");
    let handshake_data = &full[5..];
    let mid = handshake_data.len() / 2;
    let part1 = &handshake_data[..mid];
    let part2 = &handshake_data[mid..];
    let mut fragmented = Vec::new();
    fragmented.push(0x16);
    fragmented.extend_from_slice(&0x0301u16.to_be_bytes());
    fragmented.extend_from_slice(&(part1.len() as u16).to_be_bytes());
    fragmented.extend_from_slice(part1);
    fragmented.push(0x16);
    fragmented.extend_from_slice(&0x0301u16.to_be_bytes());
    fragmented.extend_from_slice(&(part2.len() as u16).to_be_bytes());
    fragmented.extend_from_slice(part2);
    match try_parse_client_hello(&fragmented) {
        ParseStatus::Complete(AppProtocol::TlsClientHello { sni, .. }) => {
            assert_eq!(sni.as_deref(), Some("fragmented.example.com"));
        }
        other => panic!("expected Complete with SNI, got {:?}", other),
    }
}

#[test]
fn test_fragmented_record_incomplete() {
    let full = build_client_hello("test.com");
    let handshake_data = &full[5..];
    let mid = handshake_data.len() / 2;
    let part1 = &handshake_data[..mid];
    let part2 = &handshake_data[mid..];
    let mut fragmented = Vec::new();
    fragmented.push(0x16);
    fragmented.extend_from_slice(&0x0301u16.to_be_bytes());
    fragmented.extend_from_slice(&(part1.len() as u16).to_be_bytes());
    fragmented.extend_from_slice(part1);
    fragmented.push(0x16);
    fragmented.extend_from_slice(&0x0301u16.to_be_bytes());
    fragmented.extend_from_slice(&(part2.len() as u16).to_be_bytes());
    fragmented.extend_from_slice(&part2[..part2.len() / 2]);
    match try_parse_client_hello(&fragmented) {
        ParseStatus::NeedMore(_) => {}
        other => panic!("expected NeedMore, got {:?}", other),
    }
}

#[test]
fn test_legacy_wrapper() {
    let data = build_client_hello("example.com");
    let result = parse_client_hello(&data);
    assert!(result.is_some());
    let result = parse_client_hello(b"not tls");
    assert!(result.is_none());
}

#[test]
fn test_large_session_id() {
    let sni = "resume.example.com";
    let sni_bytes = sni.as_bytes();
    let sni_ext_data_len = 2 + 1 + 2 + sni_bytes.len();
    let sni_ext_len = 4 + sni_ext_data_len;
    let extensions_len = sni_ext_len;
    let session_id_len: usize = 32;
    let ch_body_len = 2 + 32 + 1 + session_id_len + 2 + 2 + 1 + 1 + 2 + extensions_len;
    let hs_len = 4 + ch_body_len;
    let mut buf = Vec::new();
    buf.push(0x16);
    buf.extend_from_slice(&0x0301u16.to_be_bytes());
    buf.extend_from_slice(&(hs_len as u16).to_be_bytes());
    buf.push(0x01);
    buf.push(0x00);
    buf.extend_from_slice(&(ch_body_len as u16).to_be_bytes());
    buf.extend_from_slice(&0x0303u16.to_be_bytes());
    buf.extend_from_slice(&[0xAA; 32]);
    buf.push(session_id_len as u8);
    buf.extend_from_slice(&[0xBB; 32]);
    buf.extend_from_slice(&2u16.to_be_bytes());
    buf.extend_from_slice(&0xc02fu16.to_be_bytes());
    buf.push(1);
    buf.push(0);
    buf.extend_from_slice(&(extensions_len as u16).to_be_bytes());
    buf.extend_from_slice(&0u16.to_be_bytes());
    buf.extend_from_slice(&(sni_ext_data_len as u16).to_be_bytes());
    let sni_list_len = 1 + 2 + sni_bytes.len();
    buf.extend_from_slice(&(sni_list_len as u16).to_be_bytes());
    buf.push(0x00);
    buf.extend_from_slice(&(sni_bytes.len() as u16).to_be_bytes());
    buf.extend_from_slice(sni_bytes);
    match try_parse_client_hello(&buf) {
        ParseStatus::Complete(AppProtocol::TlsClientHello { sni: s, sni_offset, sni_len }) => {
            assert_eq!(s.as_deref(), Some("resume.example.com"));
            let extracted = &buf[sni_offset..sni_offset + sni_len];
            assert_eq!(extracted, sni.as_bytes());
        }
        other => panic!("expected Complete, got {:?}", other),
    }
}

#[test]
fn tls_need_more_exceeds_single_record_input() {
    // A record that holds only a handshake header asks for the full
    // handshake: 9 + declared length.
    let data = [0x16, 0x03, 0x01, 0x00, 0x04, 0x01, 0x00, 0x00, 0x30];
    assert_eq!(try_parse_client_hello(&data), ParseStatus::NeedMore(5 + 4 + 0x30));
}

#[test]
fn tls_need_more_can_be_smaller_with_trailing_bytes() {
    // Trailing bytes after a short record: the handshake-level request does
    // not account for them.
    let data = [0x16, 0x03, 0x01, 0x00, 0x02, 0x01, 0x00, 0xFF, 0xFF, 0xFF, 0xFF, 0xFF];
    assert_eq!(try_parse_client_hello(&data), ParseStatus::NeedMore(9));
}

#[test]
fn tls_record_length_limits() {
    assert_eq!(try_parse_client_hello(&[0x16, 0x03, 0x01, 0x00, 0x00]), ParseStatus::NotTls);
    assert_eq!(try_parse_client_hello(&[0x16, 0x03, 0x01, 0x48, 0x01]), ParseStatus::NotTls);
    assert_eq!(try_parse_client_hello(&[0x16, 0x03, 0x04, 0x00, 0x10]), ParseStatus::NotTls);
    assert_eq!(try_parse_client_hello(&[0x16, 0x03, 0x03, 0x00, 0x10]), ParseStatus::NeedMore(21));
}

#[test]
fn test_parse_get_request() {
    let data = b"GET / HTTP/1.1\r\nHost: example.com\r\nAccept: */*\r\n\r\n";
    let result = parse_http_request(data);
    match result {
        Some(AppProtocol::HttpRequest { method, host, host_offset }) => {
            assert_eq!(method, "GET");
            assert_eq!(host.as_deref(), Some("example.com"));
            assert!(host_offset > 0);
            let extracted = &data[host_offset..host_offset + "example.com".len()];
            assert_eq!(extracted, b"example.com");
        }
        other => panic!("expected HttpRequest, got {:?}", other),
    }
}

#[test]
fn test_non_http_data() {
    let data = &[0x16, 0x03, 0x01, 0x00, 0x05];
    assert!(parse_http_request(data).is_none());
}

#[test]
fn test_post_request_no_host() {
    let data = b"POST /api HTTP/1.1\r\nContent-Type: application/json\r\n\r\n";
    let result = parse_http_request(data);
    match result {
        Some(AppProtocol::HttpRequest { method, host, .. }) => {
            assert_eq!(method, "POST");
            assert!(host.is_none());
        }
        other => panic!("expected HttpRequest, got {:?}", other),
    }
}

#[test]
fn http_host_header_case_and_trim() {
    let data = b"CONNECT example.org:443 HTTP/1.1\r\nhOsT:   example.org \t\r\n\r\n";
    match parse_http_request(data) {
        Some(AppProtocol::HttpRequest { method, host, host_offset }) => {
            assert_eq!(method, "CONNECT");
            assert_eq!(host.as_deref(), Some("example.org"));
            assert_eq!(host_offset, 42);
        }
        other => panic!("expected HttpRequest, got {:?}", other),
    }
}

#[test]
fn http_method_needs_trailing_space() {
    assert!(parse_http_request(b"GETX / HTTP/1.1\r\n").is_none());
    assert!(parse_http_request(b"DELETE /x HTTP/1.1\r\n\r\n").is_some());
}

/// Build a minimal QUIC v1 Initial packet header.
fn build_quic_initial(dcid: &[u8], scid: &[u8]) -> Vec<u8> {
    let mut buf = Vec::new();
    buf.push(0xC0);
    buf.extend_from_slice(&QUIC_V1.to_be_bytes());
    buf.push(dcid.len() as u8);
    buf.extend_from_slice(dcid);
    buf.push(scid.len() as u8);
    buf.extend_from_slice(scid);
    buf.push(0x00);
    buf.extend_from_slice(&[0x00; 4]);
    buf.extend_from_slice(&[0xAA; 32]);
    buf
}

#[test]
fn test_parse_quic_v1_initial() {
    let dcid = vec![0x01, 0x02, 0x03, 0x04, 0x05, 0x06, 0x07, 0x08];
    let scid = vec![0xA1, 0xA2, 0xA3, 0xA4];
    let data = build_quic_initial(&dcid, &scid);
    match parse_quic_initial(&data) {
        Some(AppProtocol::QuicInitial { dcid: d, scid: s }) => {
            assert_eq!(d, dcid);
            assert_eq!(s, scid);
        }
        other => panic!("expected QuicInitial, got {:?}", other),
    }
}

#[test]
fn test_parse_quic_v2() {
    let mut data = build_quic_initial(&[0x01, 0x02], &[0x03]);
    data[1..5].copy_from_slice(&QUIC_V2.to_be_bytes());
    assert!(parse_quic_initial(&data).is_some());
}

#[test]
fn test_empty_cids() {
    let data = build_quic_initial(&[], &[]);
    match parse_quic_initial(&data) {
        Some(AppProtocol::QuicInitial { dcid, scid }) => {
            assert!(dcid.is_empty());
            assert!(scid.is_empty());
        }
        other => panic!("expected QuicInitial with empty CIDs, got {:?}", other),
    }
}

#[test]
fn test_not_quic_short_header() {
    let data = vec![0x40, 0x00, 0x00, 0x00, 0x01, 0x08, 0x01, 0x02, 0x03, 0x04];
    assert!(parse_quic_initial(&data).is_none());
}

#[test]
fn test_not_quic_unknown_version() {
    let mut data = build_quic_initial(&[0x01], &[0x02]);
    data[1..5].copy_from_slice(&0xDEADBEEFu32.to_be_bytes());
    assert!(parse_quic_initial(&data).is_none());
}

#[test]
fn test_too_short() {
    assert!(parse_quic_initial(&[0xC0, 0x00, 0x00]).is_none());
    assert!(parse_quic_initial(&[]).is_none());
}

#[test]
fn test_not_quic_tls_data() {
    let data = vec![0x16, 0x03, 0x01, 0x00, 0x05, 0x01, 0x00, 0x00, 0x01, 0x00];
    assert!(parse_quic_initial(&data).is_none());
}

#[test]
fn test_dcid_too_long() {
    let mut data = build_quic_initial(&[0x01], &[0x02]);
    data[5] = 21;
    assert!(parse_quic_initial(&data).is_none());
}

#[test]
fn quic_scid_must_fit() {
    let data = [0xC0, 0x00, 0x00, 0x00, 0x01, 0x01, 0xAA, 0x03, 0x01];
    assert!(parse_quic_initial(&data).is_none());
}

#[test]
fn detect_protocol_prefers_tls_then_http_then_quic() {
    let tls = build_client_hello("example.com");
    assert!(matches!(detect_protocol(&tls), AppProtocol::TlsClientHello { .. }));
    let http = b"GET / HTTP/1.1\r\nHost: a.b\r\n\r\n";
    assert!(matches!(detect_protocol(http), AppProtocol::HttpRequest { .. }));
    let quic = build_quic_initial(&[1], &[2]);
    assert!(matches!(detect_protocol(&quic), AppProtocol::QuicInitial { .. }));
    assert_eq!(detect_protocol(b"hello"), AppProtocol::Unknown);
}

#[test]
fn default_split_offset_needs_sni_or_host() {
    let tls = build_client_hello("example.com");
    let proto = detect_protocol(&tls);
    let off = default_split_offset(&proto).unwrap();
    assert_eq!(&tls[off..off + 11], b"example.com");
    let no_host = AppProtocol::HttpRequest { method: "GET".into(), host: None, host_offset: 7 };
    assert_eq!(default_split_offset(&no_host), None);
    assert_eq!(default_split_offset(&AppProtocol::Unknown), None);
}

#[test]
fn sni_offset_counts_every_record_header() {
    let full = build_client_hello("fragmented.example.com");
    let single = match try_parse_client_hello(&full) {
        ParseStatus::Complete(AppProtocol::TlsClientHello { sni_offset, .. }) => sni_offset,
        other => panic!("expected Complete, got {:?}", other),
    };
    let handshake_data = &full[5..];
    let mid = handshake_data.len() / 2;
    let mut fragmented = Vec::new();
    fragmented.push(0x16);
    fragmented.extend_from_slice(&0x0301u16.to_be_bytes());
    fragmented.extend_from_slice(&(mid as u16).to_be_bytes());
    fragmented.extend_from_slice(&handshake_data[..mid]);
    fragmented.push(0x16);
    fragmented.extend_from_slice(&0x0301u16.to_be_bytes());
    fragmented.extend_from_slice(&((handshake_data.len() - mid) as u16).to_be_bytes());
    fragmented.extend_from_slice(&handshake_data[mid..]);
    match try_parse_client_hello(&fragmented) {
        ParseStatus::Complete(AppProtocol::TlsClientHello { sni, sni_offset, sni_len }) => {
            assert_eq!(sni.as_deref(), Some("fragmented.example.com"));
            // The name lies in the second record: one more header before it.
            assert!(single >= 5 + mid);
            assert_eq!(sni_offset, single + 5);
            assert_eq!(sni_offset, 66);
            assert_eq!(sni_len, 22);
            assert_eq!(&fragmented[sni_offset..sni_offset + sni_len], b"fragmented.example.com");
        }
        other => panic!("expected Complete with SNI, got {:?}", other),
    }
}
