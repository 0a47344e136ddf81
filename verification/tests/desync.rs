use desyncd::ccs_inject::{self, CCS_RECORD, CONTENT_TYPE_CCS};
use desyncd::combo::apply_chain;
use desyncd::context::{sld_range, PayloadContext};
use desyncd::disorder;
use desyncd::fake_packet::{self, build_fake_client_hello, build_fake_tls_record, scramble_sni, FakeConfig};
use desyncd::http_host::{self, HostMode};
use desyncd::multi_stream_frag;
use desyncd::padding::add_tls_padding;
use desyncd::registry::{apply_technique, apply_technique_cfg, available_techniques, TechniqueRegistry};
use desyncd::slow_split::{self, DEFAULT_DELAY_US};
use desyncd::sni_manip::{self, SniMode};
use desyncd::tcp_split;
use desyncd::technique::TechniqueConfig;
use desyncd::tls::{try_parse_client_hello, ParseStatus};
use desyncd::tls_record_frag;
use desyncd::types::{AppProtocol, DesyncAction, Error, SplitPosition, StealthConfig};

/// Build a minimal TLS ClientHello with the given SNI for testing.
fn build_test_client_hello(sni: &str) -> Vec<u8> {
    let sni_bytes = sni.as_bytes();
    let sni_ext_data_len = 2 + 1 + 2 + sni_bytes.len();
    let sni_ext_len = 4 + sni_ext_data_len;
    let extensions_len = sni_ext_len;
    let ch_body_len = 2 + 32 + 1 + 2 + 2 + 1 + 1 + 2 + extensions_len;
    let hs_len = 4 + ch_body_len;
    let mut buf = Vec::new();
    buf.push(0x16);
    buf.extend_from_slice(&0x0301u16.to_be_bytes());
    buf.extend_from_slice(&(hs_len as u16).to_be_bytes());
    buf.push(0x01);
    buf.push(0x00);
    buf.extend_from_slice(&(ch_body_len as u16).to_be_bytes());
    buf.extend_from_slice(&0x0303u16.to_be_bytes());
    buf.extend_from_slice(&[0u8; 32]);
    buf.push(0);
    buf.extend_from_slice(&2u16.to_be_bytes());
    buf.extend_from_slice(&0x1301u16.to_be_bytes());
    buf.push(1);
    buf.push(0);
    buf.extend_from_slice(&(extensions_len as u16).to_be_bytes());
    buf.extend_from_slice(&0u16.to_be_bytes());
    buf.extend_from_slice(&(sni_ext_data_len as u16).to_be_bytes());
    let sni_list_len = 1 + 2 + sni_bytes.len();
    buf.extend_from_slice(&(sni_list_len as u16).to_be_bytes());
    buf.push(0x00);
    buf.extend_from_slice(&(sni_bytes.len() as u16).to_be_bytes());
    buf.extend_from_slice(sni_bytes);
    buf
}

fn http_get_ctx() -> PayloadContext {
    PayloadContext {
        payload: b"GET / HTTP/1.1\r\n\r\n".to_vec(),
        protocol: AppProtocol::HttpRequest { method: "GET".into(), host: None, host_offset: 0 },
    }
}

fn config_named(name: &str) -> TechniqueConfig {
    TechniqueConfig {
        name: name.to_string(),
        split_position: None,
        enabled: true,
        fake_type: None,
        sni_mode: None,
        fragments: None,
        host_mode: None,
        stealth: None,
        l7_filter: None,
    }
}

fn count_records(data: &[u8]) -> usize {
    let mut pos = 0;
    let mut records = 0;
    while pos < data.len() {
        assert_eq!(data[pos], 0x16);
        let len = u16::from_be_bytes([data[pos + 3], data[pos + 4]]) as usize;
        assert!(len > 0);
        pos += 5 + len;
        records += 1;
    }
    assert_eq!(pos, data.len());
    records
}

// ---- context ----

#[test]
fn sld_range_simple() {
    assert_eq!(sld_range("twitter.com"), Some((0, 7)));
    assert_eq!(sld_range("www.twitter.com"), Some((4, 11)));
    assert_eq!(sld_range("a.b.example.org"), Some((4, 11)));
    assert_eq!(sld_range("localhost"), None);
    assert_eq!(sld_range(""), None);
}

#[test]
fn sld_range_double_dot_is_none() {
    assert_eq!(sld_range("a..com"), None);
    assert_eq!(sld_range(".com"), None);
}

#[test]
fn sni_ext_start_is_nine_bytes_before_sni() {
    let ctx = PayloadContext::new(build_test_client_hello("twitter.com"));
    let sni = ctx.resolve_split_position(&SplitPosition::Sni).unwrap();
    let ext = ctx.resolve_split_position(&SplitPosition::SniExtStart).unwrap();
    assert_eq!(ext, sni - 9);
    assert_eq!(&ctx.payload[ext..ext + 2], &[0x00, 0x00]);
}

#[test]
fn end_sld_falls_between_sld_and_tld() {
    let ctx = PayloadContext::new(build_test_client_hello("www.twitter.com"));
    let sni_start = ctx.resolve_split_position(&SplitPosition::Sni).unwrap();
    let end_sld = ctx.resolve_split_position(&SplitPosition::EndSld).unwrap();
    assert_eq!(end_sld, sni_start + 11);
    assert_eq!(ctx.payload[end_sld], b'.');
}

#[test]
fn mid_sld_lands_inside_sld() {
    let ctx = PayloadContext::new(build_test_client_hello("twitter.com"));
    let sni_start = ctx.resolve_split_position(&SplitPosition::Sni).unwrap();
    let mid = ctx.resolve_split_position(&SplitPosition::MidSld).unwrap();
    assert_eq!(mid, sni_start + 3);
    assert_eq!(ctx.payload[mid], b't');
}

#[test]
fn offset_from_marker_adds_delta() {
    let ctx = PayloadContext::new(build_test_client_hello("twitter.com"));
    let sni_start = ctx.resolve_split_position(&SplitPosition::Sni).unwrap();
    let tamper = ctx
        .resolve_split_position(&SplitPosition::OffsetFrom { marker: Box::new(SplitPosition::EndSld), delta: -2 })
        .unwrap();
    assert_eq!(tamper, sni_start + 5);
    assert_eq!(ctx.payload[tamper], b'e');
}

#[test]
fn markers_return_none_when_no_sni() {
    let ctx = PayloadContext::new(b"GET / HTTP/1.1\r\nHost: example.com\r\n\r\n".to_vec());
    assert!(ctx.resolve_split_position(&SplitPosition::SniExtStart).is_none());
    assert!(ctx.resolve_split_position(&SplitPosition::EndSld).is_none());
    assert!(ctx.resolve_split_position(&SplitPosition::MidSld).is_none());
}

#[test]
fn resolve_absolute_and_offsets() {
    let ctx = PayloadContext { payload: vec![0u8; 10], protocol: AppProtocol::Unknown };
    assert_eq!(ctx.resolve_split_position(&SplitPosition::Absolute(9)), Some(9));
    assert_eq!(ctx.resolve_split_position(&SplitPosition::Absolute(10)), None);
    assert_eq!(ctx.resolve_split_position(&SplitPosition::Sni), None);
    assert_eq!(ctx.resolve_split_position(&SplitPosition::Random { min: 5, max: 5 }), None);
    assert_eq!(ctx.resolve_split_position(&SplitPosition::Random { min: 2, max: 10 }), None);
    for _ in 0..20 {
        let r = ctx.resolve_split_position(&SplitPosition::Random { min: 2, max: 6 }).unwrap();
        assert!((2..6).contains(&r));
    }
    let off = SplitPosition::OffsetFrom { marker: Box::new(SplitPosition::Absolute(4)), delta: -5 };
    assert_eq!(ctx.resolve_split_position(&off), None);
    let off = SplitPosition::OffsetFrom { marker: Box::new(SplitPosition::Absolute(4)), delta: 3 };
    assert_eq!(ctx.resolve_split_position(&off), Some(7));
}

#[test]
fn resolve_with_draw_and_jitter() {
    let ctx = PayloadContext { payload: vec![0u8; 10], protocol: AppProtocol::Unknown };
    let pos = SplitPosition::Random { min: 2, max: 6 };
    assert_eq!(ctx.resolve_split_position_drawn(&pos, 4), Some(4));
    assert_eq!(ctx.resolve_split_position_jittered(&SplitPosition::Absolute(8), 3, 0, 3), Some(9));
    assert_eq!(ctx.resolve_split_position_jittered(&SplitPosition::Absolute(1), 3, 0, -3), Some(1));
    assert_eq!(ctx.resolve_split_position_jittered(&SplitPosition::Absolute(5), 0, 0, 3), Some(5));
    for _ in 0..20 {
        let r = ctx.resolve_split_position_with_jitter(&SplitPosition::Absolute(5), 2).unwrap();
        assert!((3..=7).contains(&r));
    }
}

// ---- tcp_split ----

#[test]
fn test_split_at_absolute_position() {
    let ctx = PayloadContext { protocol: AppProtocol::Unknown, payload: b"Hello, World!".to_vec() };
    match tcp_split::apply(&ctx, &SplitPosition::Absolute(5)).unwrap() {
        DesyncAction::Split(chunks) => {
            assert_eq!(chunks.len(), 2);
            assert_eq!(chunks[0], b"Hello");
            assert_eq!(chunks[1], b", World!");
        }
        _ => panic!("expected Split"),
    }
}

#[test]
fn test_split_at_sni_offset() {
    let payload = build_test_client_hello("example.com");
    let ctx = PayloadContext::new(payload.clone());
    match tcp_split::apply(&ctx, &SplitPosition::Sni).unwrap() {
        DesyncAction::Split(chunks) => {
            assert_eq!(chunks.len(), 2);
            assert_eq!(chunks[0].len() + chunks[1].len(), payload.len());
            assert!(chunks[1].windows(11).any(|w| w == b"example.com"));
        }
        _ => panic!("expected Split"),
    }
}

#[test]
fn tcp_split_edges() {
    let ctx = PayloadContext { protocol: AppProtocol::Unknown, payload: b"abc".to_vec() };
    assert!(matches!(tcp_split::apply(&ctx, &SplitPosition::Absolute(0)), Ok(DesyncAction::PassThrough)));
    assert!(matches!(tcp_split::apply(&ctx, &SplitPosition::Absolute(3)), Err(Error::NotApplicable(_))));
}

// ---- disorder ----

#[test]
fn test_disorder_reverses_order() {
    let ctx = PayloadContext { protocol: AppProtocol::Unknown, payload: b"AAAAABBBBB".to_vec() };
    match disorder::apply(&ctx, &SplitPosition::Absolute(5)).unwrap() {
        DesyncAction::Split(chunks) => {
            assert_eq!(chunks.len(), 2);
            assert_eq!(chunks[0], b"BBBBB");
            assert_eq!(chunks[1], b"AAAAA");
        }
        _ => panic!("expected Split"),
    }
}

#[test]
fn test_disorder_with_sni() {
    let payload = build_test_client_hello("example.com");
    let ctx = PayloadContext::new(payload.clone());
    match disorder::apply(&ctx, &SplitPosition::Sni).unwrap() {
        DesyncAction::Split(chunks) => {
            assert_eq!(chunks.len(), 2);
            assert!(chunks[0].windows(11).any(|w| w == b"example.com"));
            assert_eq!(chunks[0].len() + chunks[1].len(), payload.len());
        }
        _ => panic!("expected Split"),
    }
}

// ---- slow_split ----

#[test]
fn test_slow_split_basic() {
    let ctx = PayloadContext { protocol: AppProtocol::Unknown, payload: b"Hello, World!".to_vec() };
    match slow_split::apply(&ctx, &SplitPosition::Absolute(5), None).unwrap() {
        DesyncAction::SlowSplit { chunks, delay_us } => {
            assert_eq!(chunks.len(), 2);
            assert_eq!(chunks[0], b"Hello");
            assert_eq!(chunks[1], b", World!");
            assert_eq!(delay_us, DEFAULT_DELAY_US);
        }
        _ => panic!("expected SlowSplit"),
    }
}

#[test]
fn test_slow_split_at_sni() {
    let payload = build_test_client_hello("example.com");
    let ctx = PayloadContext::new(payload.clone());
    match slow_split::apply(&ctx, &SplitPosition::Sni, None).unwrap() {
        DesyncAction::SlowSplit { chunks, delay_us } => {
            assert_eq!(chunks.len(), 2);
            assert_eq!(chunks[0].len() + chunks[1].len(), payload.len());
            assert!(chunks[1].windows(11).any(|w| w == b"example.com"));
            assert_eq!(delay_us, DEFAULT_DELAY_US);
        }
        _ => panic!("expected SlowSplit"),
    }
}

#[test]
fn test_slow_split_custom_delay() {
    let ctx = PayloadContext { protocol: AppProtocol::Unknown, payload: b"Test data here".to_vec() };
    let stealth = StealthConfig { timing_jitter_us: 5_000_000, ..Default::default() };
    match slow_split::apply(&ctx, &SplitPosition::Absolute(4), Some(&stealth)).unwrap() {
        DesyncAction::SlowSplit { delay_us, .. } => assert_eq!(delay_us, 5_000_000),
        _ => panic!("expected SlowSplit"),
    }
}

#[test]
fn test_slow_split_ignores_small_jitter() {
    let ctx = PayloadContext { protocol: AppProtocol::Unknown, payload: b"Test data here".to_vec() };
    let stealth = StealthConfig { timing_jitter_us: 100_000, ..Default::default() };
    match slow_split::apply(&ctx, &SplitPosition::Absolute(4), Some(&stealth)).unwrap() {
        DesyncAction::SlowSplit { delay_us, .. } => assert_eq!(delay_us, DEFAULT_DELAY_US),
        _ => panic!("expected SlowSplit"),
    }
}

// ---- ccs_inject ----

#[test]
fn test_ccs_inject_produces_split() {
    let payload = build_test_client_hello("example.com");
    let ctx = PayloadContext::new(payload.clone());
    let result = ccs_inject::apply(&ctx).unwrap();
    match result {
        DesyncAction::Split(chunks) => {
            assert_eq!(chunks.len(), 2);
            assert_eq!(chunks[0].len(), 6);
            assert_eq!(chunks[0][0], CONTENT_TYPE_CCS);
            assert_eq!(chunks[0][3], 0x00);
            assert_eq!(chunks[0][4], 0x01);
            assert_eq!(chunks[0][5], 0x01);
            assert_eq!(chunks[1], payload);
        }
        other => panic!("expected Split, got {:?}", other),
    }
}

#[test]
fn test_ccs_inject_preserves_clienthello() {
    let payload = build_test_client_hello("test.example.org");
    let ctx = PayloadContext::new(payload.clone());
    match ccs_inject::apply(&ctx).unwrap() {
        DesyncAction::Split(chunks) => assert_eq!(chunks[1], payload),
        _ => panic!("expected Split"),
    }
}

#[test]
fn test_ccs_record_is_valid_tls() {
    assert_eq!(CCS_RECORD[0], 0x14);
    assert_eq!(CCS_RECORD[1], 0x03);
    assert_eq!(CCS_RECORD[2], 0x03);
    let length = u16::from_be_bytes([CCS_RECORD[3], CCS_RECORD[4]]);
    assert_eq!(length, 1);
    assert_eq!(CCS_RECORD[5], 0x01);
}

#[test]
fn test_ccs_inject_non_tls_rejected() {
    assert!(ccs_inject::apply(&http_get_ctx()).is_err());
}

// ---- tls_record_frag ----

#[test]
fn test_tls_record_fragmentation() {
    let payload = build_test_client_hello("example.com");
    let ctx = PayloadContext::new(payload.clone());
    match tls_record_frag::apply(&ctx, &SplitPosition::Sni).unwrap() {
        DesyncAction::Replace(new_payload) => {
            assert_eq!(new_payload.len(), payload.len() + 5);
            assert_eq!(new_payload[0], 0x16);
            let first_len = u16::from_be_bytes([new_payload[3], new_payload[4]]) as usize;
            assert_eq!(new_payload[5 + first_len], 0x16);
        }
        _ => panic!("expected Replace"),
    }
}

#[test]
fn tls_record_frag_test_non_tls_rejected() {
    assert!(tls_record_frag::apply(&http_get_ctx(), &SplitPosition::Sni).is_err());
}

#[test]
fn tls_record_frag_output_parses_as_input() {
    let payload = build_test_client_hello("www.example.com");
    let ctx = PayloadContext::new(payload.clone());
    match tls_record_frag::apply(&ctx, &SplitPosition::Absolute(20)).unwrap() {
        DesyncAction::Replace(out) => {
            assert_eq!(count_records(&out), 2);
            assert_eq!(u16::from_be_bytes([out[3], out[4]]), 15);
            assert_eq!(hello_name(&out), hello_name(&payload));
        }
        _ => panic!("expected Replace"),
    }
}

#[test]
fn tls_record_frag_keeps_bytes_after_the_record() {
    let hello = build_test_client_hello("example.com");
    let extra = vec![0x17, 0x03, 0x03, 0x00, 0x02, 0xaa, 0xbb];
    let mut payload = hello.clone();
    payload.extend_from_slice(&extra);
    let ctx = PayloadContext::new(payload.clone());
    match tls_record_frag::apply(&ctx, &SplitPosition::Sni).unwrap() {
        DesyncAction::Replace(out) => {
            assert_eq!(out.len(), payload.len() + 5);
            assert_eq!(&out[out.len() - extra.len()..], &extra[..]);
            assert_eq!(&out[..hello.len() + 5], &tls_record_frag_of(&hello)[..]);
        }
        _ => panic!("expected Replace"),
    }
}

fn tls_record_frag_of(hello: &[u8]) -> Vec<u8> {
    match tls_record_frag::apply(&PayloadContext::new(hello.to_vec()), &SplitPosition::Sni).unwrap() {
        DesyncAction::Replace(out) => out,
        _ => panic!("expected Replace"),
    }
}

/// The SNI and its length that a payload parses to.
fn hello_name(data: &[u8]) -> (Option<String>, usize) {
    match try_parse_client_hello(data) {
        ParseStatus::Complete(AppProtocol::TlsClientHello { sni, sni_len, .. }) => (sni, sni_len),
        other => panic!("expected Complete, got {:?}", other),
    }
}

// ---- multi_stream_frag ----

#[test]
fn test_3_fragments() {
    let payload = build_test_client_hello("example.com");
    let ctx = PayloadContext::new(payload.clone());
    match multi_stream_frag::apply(&ctx, &SplitPosition::Sni, 3).unwrap() {
        DesyncAction::Replace(new_payload) => {
            assert_eq!(new_payload.len(), payload.len() + 10);
            assert_eq!(count_records(&new_payload), 3);
        }
        _ => panic!("expected Replace"),
    }
}

#[test]
fn test_5_fragments() {
    let payload = build_test_client_hello("www.youtube.com");
    let ctx = PayloadContext::new(payload.clone());
    match multi_stream_frag::apply(&ctx, &SplitPosition::Sni, 5).unwrap() {
        DesyncAction::Replace(new_payload) => {
            assert_eq!(new_payload.len(), payload.len() + 20);
            assert_eq!(count_records(&new_payload), 5);
        }
        _ => panic!("expected Replace"),
    }
}

#[test]
fn test_2_fragments_matches_original() {
    let payload = build_test_client_hello("example.com");
    let ctx = PayloadContext::new(payload.clone());
    match multi_stream_frag::apply(&ctx, &SplitPosition::Sni, 2).unwrap() {
        DesyncAction::Replace(new_payload) => assert_eq!(new_payload.len(), payload.len() + 5),
        _ => panic!("expected Replace"),
    }
}

#[test]
fn multi_stream_frag_test_non_tls_rejected() {
    assert!(multi_stream_frag::apply(&http_get_ctx(), &SplitPosition::Sni, 3).is_err());
}

#[test]
fn multi_stream_frag_output_parses_as_input() {
    let payload = build_test_client_hello("www.youtube.com");
    let ctx = PayloadContext::new(payload.clone());
    for n in 2..=8 {
        match multi_stream_frag::apply(&ctx, &SplitPosition::Sni, n).unwrap() {
            DesyncAction::Replace(out) => {
                assert_eq!(count_records(&out), n);
                assert_eq!(hello_name(&out), hello_name(&payload));
            }
            _ => panic!("expected Replace"),
        }
    }
}

#[test]
fn multi_stream_frag_fragment_count_from_config() {
    let payload = build_test_client_hello("www.youtube.com");
    let ctx = PayloadContext::new(payload.clone());
    let mut cfg = config_named("multi_stream_frag");
    cfg.sni_mode = Some("5".to_string());
    match apply_technique_cfg(&cfg, &ctx).unwrap() {
        DesyncAction::Replace(out) => assert_eq!(count_records(&out), 5),
        _ => panic!("expected Replace"),
    }
    cfg.fragments = Some(20);
    match apply_technique_cfg(&cfg, &ctx).unwrap() {
        DesyncAction::Replace(out) => assert_eq!(count_records(&out), 8),
        _ => panic!("expected Replace"),
    }
    cfg.fragments = None;
    cfg.sni_mode = Some("lots".to_string());
    match apply_technique_cfg(&cfg, &ctx).unwrap() {
        DesyncAction::Replace(out) => assert_eq!(count_records(&out), 3),
        _ => panic!("expected Replace"),
    }
}

// ---- padding ----

#[test]
fn test_padding_preserves_sni() {
    let original = build_test_client_hello("www.example.com");
    let padded = add_tls_padding(&original, 64).expect("padding failed");
    assert_eq!(padded.len(), original.len() + 4 + 64);
    match try_parse_client_hello(&padded) {
        ParseStatus::Complete(AppProtocol::TlsClientHello { sni, .. }) => {
            assert_eq!(sni.as_deref(), Some("www.example.com"));
        }
        other => panic!("expected Complete with SNI, got {:?}", other),
    }
}

#[test]
fn test_padding_extension_present() {
    let original = build_test_client_hello("test.com");
    let padded = add_tls_padding(&original, 32).expect("padding failed");
    assert!(padded.windows(2).any(|w| w == [0x00, 0x15]));
}

#[test]
fn test_varying_pad_sizes() {
    let original = build_test_client_hello("vary.example.com");
    let orig_len = original.len();
    for pad_len in [16, 64, 128, 256] {
        let padded = add_tls_padding(&original, pad_len).expect("padding failed");
        assert_eq!(padded.len(), orig_len + 4 + pad_len);
        match try_parse_client_hello(&padded) {
            ParseStatus::Complete(AppProtocol::TlsClientHello { sni, .. }) => {
                assert_eq!(sni.as_deref(), Some("vary.example.com"));
            }
            other => panic!("pad_len={}: expected Complete, got {:?}", pad_len, other),
        }
    }
}

#[test]
fn test_non_tls_returns_none() {
    assert!(add_tls_padding(b"GET / HTTP/1.1\r\n", 32).is_none());
}

#[test]
fn test_too_short_returns_none() {
    assert!(add_tls_padding(&[0x16, 0x03, 0x01], 32).is_none());
}

#[test]
fn padding_overflowing_lengths_returns_none() {
    let original = build_test_client_hello("example.com");
    assert!(add_tls_padding(&original, 70_000).is_none());
}

// ---- sni_manip ----

#[test]
fn test_mixed_case() {
    let ctx = PayloadContext::new(build_test_client_hello("www.youtube.com"));
    match sni_manip::apply(&ctx, SniMode::MixedCase).unwrap() {
        DesyncAction::Replace(new_payload) => {
            assert_eq!(new_payload.len(), ctx.payload.len());
            let new_ctx = PayloadContext::new(new_payload);
            match &new_ctx.protocol {
                AppProtocol::TlsClientHello { sni: Some(new_sni), .. } => {
                    assert_eq!(new_sni.to_lowercase(), "www.youtube.com");
                }
                _ => panic!("should still parse as TLS"),
            }
        }
        _ => panic!("expected Replace"),
    }
}

#[test]
fn test_remove() {
    let ctx = PayloadContext::new(build_test_client_hello("example.com"));
    match sni_manip::apply(&ctx, SniMode::Remove).unwrap() {
        DesyncAction::Replace(new_payload) => {
            assert_eq!(new_payload.len(), ctx.payload.len());
            let new_ctx = PayloadContext::new(new_payload);
            match &new_ctx.protocol {
                AppProtocol::TlsClientHello { sni: Some(new_sni), .. } => {
                    assert!(new_sni.chars().all(|c| c == '.'));
                }
                _ => panic!("should still parse as TLS"),
            }
        }
        _ => panic!("expected Replace"),
    }
}

#[test]
fn sni_mode_names() {
    assert_eq!(SniMode::from_str_opt("MIXED"), Some(SniMode::MixedCase));
    assert_eq!(SniMode::from_str_opt("Mixed_Case"), Some(SniMode::MixedCase));
    assert_eq!(SniMode::from_str_opt("padding"), Some(SniMode::Pad));
    assert_eq!(SniMode::from_str_opt("remove"), Some(SniMode::Remove));
    assert_eq!(SniMode::from_str_opt("delete"), None);
    assert_eq!(SniMode::default(), SniMode::MixedCase);
}

#[test]
fn sni_manip_out_of_bounds_is_refused() {
    let ctx = PayloadContext {
        payload: vec![0u8; 10],
        protocol: AppProtocol::TlsClientHello { sni: Some("abc".into()), sni_offset: 9, sni_len: 3 },
    };
    assert!(matches!(sni_manip::apply(&ctx, SniMode::Remove), Err(Error::NotApplicable(_))));
    assert!(sni_manip::apply(&http_get_ctx(), SniMode::MixedCase).is_err());
}

// ---- http_host ----

fn make_http_ctx(host: &str) -> PayloadContext {
    let payload = format!("GET / HTTP/1.1\r\nHost: {}\r\nAccept: */*\r\n\r\n", host);
    PayloadContext::new(payload.into_bytes())
}

#[test]
fn test_mixed_case_header() {
    let ctx = make_http_ctx("example.com");
    match http_host::apply(&ctx, HostMode::MixedCase).unwrap() {
        DesyncAction::Replace(new_payload) => {
            let s = String::from_utf8(new_payload).unwrap();
            assert!(s.contains("example.com"));
            assert!(!s.contains("\nHost:") || s.contains("HOST") || s.contains("hOsT"));
        }
        _ => panic!("expected Replace"),
    }
}

#[test]
fn test_extra_space() {
    let ctx = make_http_ctx("example.com");
    match http_host::apply(&ctx, HostMode::ExtraSpace).unwrap() {
        DesyncAction::Replace(new_payload) => {
            let s = String::from_utf8(new_payload).unwrap();
            assert!(s.contains(":   example.com"));
        }
        _ => panic!("expected Replace"),
    }
}

#[test]
fn test_tab() {
    let ctx = make_http_ctx("example.com");
    match http_host::apply(&ctx, HostMode::Tab).unwrap() {
        DesyncAction::Replace(new_payload) => {
            let s = String::from_utf8(new_payload).unwrap();
            assert!(s.contains(":\texample.com"));
        }
        _ => panic!("expected Replace"),
    }
}

#[test]
fn test_duplicate_header() {
    let ctx = make_http_ctx("example.com");
    match http_host::apply(&ctx, HostMode::DuplicateHeader).unwrap() {
        DesyncAction::Replace(new_payload) => {
            let s = String::from_utf8(new_payload).unwrap();
            assert!(s.contains("decoy.invalid"));
            assert!(s.contains("example.com"));
        }
        _ => panic!("expected Replace"),
    }
}

#[test]
fn http_host_exact_rewrites() {
    let ctx = make_http_ctx("example.com");
    let expect = |mode, s: &str| match http_host::apply(&ctx, mode).unwrap() {
        DesyncAction::Replace(p) => assert_eq!(String::from_utf8(p).unwrap(), s),
        _ => panic!("expected Replace"),
    };
    expect(HostMode::LineWrapping, "GET / HTTP/1.1\r\nHost:\r\n example.com\r\nAccept: */*\r\n\r\n");
    expect(HostMode::Tab, "GET / HTTP/1.1\r\nHost:\texample.com\r\nAccept: */*\r\n\r\n");
    expect(
        HostMode::DuplicateHeader,
        "GET / HTTP/1.1\r\nHost: example.com\r\nHost: decoy.invalid\r\nAccept: */*\r\n\r\n",
    );
    match http_host::apply(&ctx, HostMode::MixedCase).unwrap() {
        DesyncAction::Replace(p) => {
            let s = String::from_utf8(p).unwrap();
            assert_eq!(s.len(), ctx.payload.len());
            assert_eq!(s.to_lowercase(), "get / http/1.1\r\nhost: example.com\r\naccept: */*\r\n\r\n");
            assert!(!s.contains("\nHost:"));
        }
        _ => panic!("expected Replace"),
    }
}

#[test]
fn host_mode_names() {
    assert_eq!(HostMode::from_str_opt("WRAP"), Some(HostMode::LineWrapping));
    assert_eq!(HostMode::from_str_opt("space"), Some(HostMode::ExtraSpace));
    assert_eq!(HostMode::from_str_opt("duplicate"), Some(HostMode::DuplicateHeader));
    assert_eq!(HostMode::from_str_opt("bogus"), None);
}

#[test]
fn http_host_requires_host() {
    assert!(http_host::apply(&http_get_ctx(), HostMode::Tab).is_err());
}

// ---- fake_packet ----

#[test]
fn test_fake_tls_record_is_valid_structure() {
    let record = build_fake_tls_record(None);
    assert!(record.len() >= 5);
    assert!(record[0] == 0x14 || record[0] == 0x16 || record[0] == 0x17);
    assert_eq!(record[1], 0x03);
    assert!(record[2] >= 1 && record[2] <= 3);
    let len = u16::from_be_bytes([record[3], record[4]]) as usize;
    assert_eq!(record.len(), 5 + len);
}

#[test]
fn test_fake_tls_record_stealth_size_range() {
    let stealth = StealthConfig { fake_size_range: Some((100, 200)), ..Default::default() };
    let mut sizes = std::collections::HashSet::new();
    for _ in 0..20 {
        let record = build_fake_tls_record(Some(&stealth));
        let len = u16::from_be_bytes([record[3], record[4]]) as usize;
        assert!(len >= 100 && len <= 200, "size {} out of range", len);
        assert_eq!(record.len(), 5 + len);
        sizes.insert(len);
    }
    assert!(sizes.len() >= 3, "expected size variation, got {:?}", sizes);
}

#[test]
fn test_fake_client_hello_contains_sni() {
    let fake = build_fake_client_hello("fake.example.com", 200);
    assert_eq!(fake[0], 0x16);
    let sni = b"fake.example.com";
    assert!(fake.windows(sni.len()).any(|w| w == sni));
}

#[test]
fn fake_client_hello_parses_with_its_sni() {
    let fake = build_fake_client_hello("fake.example.com", 0);
    match try_parse_client_hello(&fake) {
        ParseStatus::Complete(AppProtocol::TlsClientHello { sni, .. }) => {
            assert_eq!(sni.as_deref(), Some("fake.example.com"));
        }
        other => panic!("expected Complete, got {:?}", other),
    }
}

#[test]
fn test_scramble_sni() {
    let result = scramble_sni("www.youtube.com");
    assert_ne!(result, "www.youtube.com");
    assert!(result.contains('.'));
}

#[test]
fn scramble_sni_exact() {
    assert_eq!(scramble_sni("www.youtube.com"), "www.com.youtube");
    assert_eq!(scramble_sni("example.org"), "www.org.example");
    assert_eq!(scramble_sni("localhost"), "decoy.localhost");
}

#[test]
fn build_fake_payload_uses_scrambled_or_decoy_name() {
    let fake = fake_packet::build_fake_payload(b"abc", Some("www.youtube.com"));
    assert!(fake.windows(15).any(|w| w == b"www.com.youtube"));
    let fake = fake_packet::build_fake_payload(b"abc", None);
    assert!(fake.windows(17).any(|w| w == b"decoy.example.com"));
}

#[test]
fn test_apply_socks_mode() {
    let ctx = PayloadContext::new(build_test_client_hello("example.com"));
    let config = FakeConfig::default();
    match fake_packet::apply_socks(&ctx, &config, None).unwrap() {
        DesyncAction::InjectBefore(chunks) => {
            assert_eq!(chunks.len(), 1);
            assert!(chunks[0][0] == 0x14 || chunks[0][0] == 0x16 || chunks[0][0] == 0x17);
        }
        _ => panic!("expected InjectBefore"),
    }
}

// ---- registry ----

#[test]
fn registry_lists_default_techniques() {
    let names = available_techniques();
    assert_eq!(
        names,
        vec!["tcp_split", "tls_record_frag", "multi_stream_frag", "fake_packet", "disorder", "sni_manip", "http_host"]
    );
    let reg = TechniqueRegistry::default();
    assert!(reg.get("disorder").is_some());
    assert!(reg.get("slow_split").is_none());
    assert!(TechniqueRegistry::new().available_names().is_empty());
}

#[test]
fn registry_unknown_technique_is_not_applicable() {
    let ctx = PayloadContext { protocol: AppProtocol::Unknown, payload: b"abcdef".to_vec() };
    let cfg = config_named("no_such_technique");
    let r = apply_technique("no_such_technique", &ctx, &SplitPosition::Absolute(2), None, &cfg);
    match r {
        Err(Error::NotApplicable(m)) => assert_eq!(m, "unknown technique: no_such_technique"),
        other => panic!("expected NotApplicable, got {:?}", other),
    }
}

#[test]
fn registry_jitter_keeps_split_inside() {
    let ctx = PayloadContext { protocol: AppProtocol::Unknown, payload: b"abcdefghij".to_vec() };
    let mut cfg = config_named("tcp_split");
    cfg.split_position = Some(SplitPosition::Absolute(5));
    cfg.stealth = Some(StealthConfig { split_jitter: 3, ..Default::default() });
    for _ in 0..20 {
        match apply_technique_cfg(&cfg, &ctx).unwrap() {
            DesyncAction::Split(chunks) => {
                assert!((2..=8).contains(&chunks[0].len()));
                assert_eq!(chunks[0].len() + chunks[1].len(), 10);
            }
            other => panic!("expected Split, got {:?}", other),
        }
    }
}

// ---- combo ----

#[test]
fn test_empty_chain() {
    let ctx = PayloadContext { protocol: AppProtocol::Unknown, payload: b"Hello".to_vec() };
    let result = apply_chain(&ctx, &[]).unwrap();
    assert!(matches!(result, DesyncAction::PassThrough));
}

#[test]
fn test_single_technique_chain() {
    let payload = build_test_client_hello("example.com");
    let ctx = PayloadContext::new(payload.clone());
    match apply_chain(&ctx, &[("tcp_split", SplitPosition::Sni)]).unwrap() {
        DesyncAction::Split(chunks) => {
            assert_eq!(chunks.len(), 2);
            assert_eq!(chunks[0].len() + chunks[1].len(), payload.len());
        }
        _ => panic!("expected Split"),
    }
}

#[test]
fn test_tls_frag_then_split() {
    let payload = build_test_client_hello("example.com");
    let ctx = PayloadContext::new(payload);
    let result = apply_chain(
        &ctx,
        &[("tls_record_frag", SplitPosition::Sni), ("tcp_split", SplitPosition::Absolute(20))],
    )
    .unwrap();
    match result {
        DesyncAction::Split(chunks) => assert_eq!(chunks.len(), 2),
        _ => panic!("expected Split from combo"),
    }
}

#[test]
fn chain_skips_inapplicable_and_keeps_fakes_first() {
    let payload = build_test_client_hello("example.com");
    let ctx = PayloadContext::new(payload.clone());
    let result = apply_chain(
        &ctx,
        &[("http_host", SplitPosition::Sni), ("fake_packet", SplitPosition::Sni), ("tcp_split", SplitPosition::Absolute(10))],
    )
    .unwrap();
    match result {
        DesyncAction::Split(chunks) => {
            assert_eq!(chunks.len(), 3);
            assert_eq!(chunks[1], payload[..10].to_vec());
            assert_eq!(chunks[2], payload[10..].to_vec());
        }
        other => panic!("expected Split, got {:?}", other),
    }
    let replaced = apply_chain(&ctx, &[("tls_record_frag", SplitPosition::Sni)]).unwrap();
    assert!(matches!(replaced, DesyncAction::Replace(_)));
    let unchanged = apply_chain(&ctx, &[("http_host", SplitPosition::Sni)]).unwrap();
    assert!(matches!(unchanged, DesyncAction::PassThrough));
}

/// The payloads of the TLS records in `data`, in order.
fn record_payloads(data: &[u8]) -> Vec<Vec<u8>> {
    let mut out = Vec::new();
    let mut pos = 0;
    while pos + 5 <= data.len() {
        let len = u16::from_be_bytes([data[pos + 3], data[pos + 4]]) as usize;
        out.push(data[pos + 5..pos + 5 + len].to_vec());
        pos += 5 + len;
    }
    out
}

#[test]
fn multi_stream_frag_no_record_holds_the_whole_sni() {
    let payload = build_test_client_hello("example.com");
    let ctx = PayloadContext::new(payload.clone());
    for n in 2..=8 {
        match multi_stream_frag::apply(&ctx, &SplitPosition::Sni, n).unwrap() {
            DesyncAction::Replace(out) => {
                let records = record_payloads(&out);
                assert!(records.len() >= 2);
                for r in &records {
                    assert!(!r.windows(11).any(|w| w == b"example.com"), "n={}", n);
                }
            }
            _ => panic!("expected Replace"),
        }
    }
}
