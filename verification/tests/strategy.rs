use desyncd::context::PayloadContext;
use desyncd::strategy::{domain_matches, extract_domain, LearnedBlocked, MatchRule, Selector, Strategy};
use desyncd::technique::TechniqueConfig;
use desyncd::types::{AppProtocol, DesyncAction, L7Filter, SplitPosition};

fn minimal_client_hello_with_sni(sni: &str) -> Vec<u8> {
    let sni_bytes = sni.as_bytes();
    let sni_ext_data_len = 2 + 1 + 2 + sni_bytes.len();
    let sni_ext_len = 4 + sni_ext_data_len;
    let extensions_len = sni_ext_len;
    let ch_body_len = 2 + 32 + 1 + 2 + 2 + 1 + 1 + 2 + extensions_len;
    let hs_len = 4 + ch_body_len;
    let mut buf = Vec::new();
    buf.push(0x16);
    buf.extend_from_slice(&0x0301u16.to_be_bytes());
    buf.extend_from_slice(&(hs_len as u16).to_be_bytes());
    buf.push(0x01);
    buf.push(0x00);
    buf.extend_from_slice(&(ch_body_len as u16).to_be_bytes());
    buf.extend_from_slice(&0x0303u16.to_be_bytes());
    buf.extend_from_slice(&[0u8; 32]);
    buf.push(0);
    buf.extend_from_slice(&2u16.to_be_bytes());
    buf.extend_from_slice(&0x1301u16.to_be_bytes());
    buf.push(1);
    buf.push(0);
    buf.extend_from_slice(&(extensions_len as u16).to_be_bytes());
    buf.extend_from_slice(&0u16.to_be_bytes());
    buf.extend_from_slice(&(sni_ext_data_len as u16).to_be_bytes());
    let sni_list_len = 1 + 2 + sni_bytes.len();
    buf.extend_from_slice(&(sni_list_len as u16).to_be_bytes());
    buf.push(0x00);
    buf.extend_from_slice(&(sni_bytes.len() as u16).to_be_bytes());
    buf.extend_from_slice(sni_bytes);
    buf
}

fn technique(name: &str, split_position: Option<SplitPosition>) -> TechniqueConfig {
    TechniqueConfig {
        name: name.into(),
        split_position,
        enabled: true,
        fake_type: None,
        sni_mode: None,
        fragments: None,
        host_mode: None,
        stealth: None,
        l7_filter: None,
    }
}

#[test]
fn test_domain_matches() {
    assert!(domain_matches("*", "anything.com"));
    assert!(domain_matches("*.youtube.com", "www.youtube.com"));
    assert!(!domain_matches("*.youtube.com", "youtube.com"));
    assert!(domain_matches("*.youtube.com", "a.b.youtube.com"));
    assert!(!domain_matches("*.youtube.com", "notyoutube.com"));
    assert!(domain_matches("example.com", "example.com"));
    assert!(!domain_matches("example.com", "www.example.com"));
}

#[test]
fn domain_matches_ignores_ascii_case() {
    assert!(domain_matches("*.YouTube.com", "WWW.youtube.COM"));
    assert!(domain_matches("Example.COM", "example.com"));
    assert!(!domain_matches("*.", "x"));
}

#[test]
fn test_selector() {
    let strategies = vec![
        Strategy { name: "aggressive".into(), techniques: vec![technique("tcp_split", Some(SplitPosition::Sni))] },
        Strategy { name: "default".into(), techniques: vec![technique("tcp_split", Some(SplitPosition::Absolute(10)))] },
    ];
    let rules = vec![
        MatchRule { domains: vec!["*.youtube.com".into()], strategy: "aggressive".into(), priority: 10 },
        MatchRule { domains: vec!["*".into()], strategy: "default".into(), priority: 0 },
    ];
    let selector = Selector::new(strategies, rules, Some("default".into()));
    let s = selector.select(Some("www.youtube.com")).unwrap();
    assert_eq!(s.name, "aggressive");
    let s = selector.select(Some("example.com")).unwrap();
    assert_eq!(s.name, "default");
    let s = selector.select(None).unwrap();
    assert_eq!(s.name, "default");
}

#[test]
fn selector_prefers_higher_priority_then_earlier_rule() {
    let strategies = vec![
        Strategy { name: "a".into(), techniques: vec![] },
        Strategy { name: "b".into(), techniques: vec![] },
        Strategy { name: "c".into(), techniques: vec![] },
    ];
    let rules = vec![
        MatchRule { domains: vec!["*".into()], strategy: "a".into(), priority: 1 },
        MatchRule { domains: vec!["x.com".into()], strategy: "b".into(), priority: 5 },
        MatchRule { domains: vec!["*.com".into(), "x.com".into()], strategy: "c".into(), priority: 5 },
    ];
    let selector = Selector::new(strategies, rules, None);
    assert_eq!(selector.select(Some("x.com")).unwrap().name, "b");
    assert_eq!(selector.select(Some("y.com")).unwrap().name, "c");
    assert_eq!(selector.select(Some("y.org")).unwrap().name, "a");
    assert!(selector.select(None).is_none());
}

#[test]
fn selector_later_strategy_with_same_name_wins() {
    let strategies = vec![
        Strategy { name: "s".into(), techniques: vec![] },
        Strategy { name: "s".into(), techniques: vec![technique("disorder", None)] },
    ];
    let selector = Selector::new(strategies, vec![], Some("s".into()));
    assert_eq!(selector.select(None).unwrap().techniques.len(), 1);
}

#[test]
fn test_learned_blocked_insert_and_contains() {
    let mut lb = LearnedBlocked::new();
    assert!(lb.is_empty());
    assert!(lb.insert("twitter.com"));
    assert!(!lb.insert("twitter.com"));
    assert!(lb.contains("twitter.com"));
    assert!(lb.contains("TWITTER.COM"));
    assert!(!lb.contains("facebook.com"));
    assert_eq!(lb.len(), 1);
}

#[test]
fn test_selector_hotstart_upgrades_passthrough_on_learned_blocked() {
    let fallback = vec![technique("tls_record_frag", Some(SplitPosition::Sni))];
    let mut selector = Selector::new(Vec::new(), Vec::new(), None).with_auto_retry_fallback(fallback);
    let ctx = PayloadContext::new(minimal_client_hello_with_sni("example.com"));
    let action = selector.apply(&ctx).unwrap();
    assert!(matches!(action, DesyncAction::PassThrough));
    selector.learned_blocked().insert("example.com");
    let action = selector.apply(&ctx).unwrap();
    assert!(!matches!(action, DesyncAction::PassThrough), "expected fallback upgrade, got {:?}", action);
}

#[test]
fn test_l7_filter_skips_mismatched_protocol() {
    let mut http_tech = technique("http_host", None);
    http_tech.host_mode = Some("mixed_case".into());
    http_tech.l7_filter = Some(L7Filter::Http);
    let mut tls_tech = technique("tls_record_frag", Some(SplitPosition::Sni));
    tls_tech.l7_filter = Some(L7Filter::Tls);
    let strategy = Strategy { name: "chain".into(), techniques: vec![http_tech, tls_tech] };
    let ctx = PayloadContext::new(minimal_client_hello_with_sni("example.com"));
    let action = strategy.apply(&ctx).unwrap();
    assert!(matches!(action, DesyncAction::Replace(_)), "expected tls_record_frag Replace, got {:?}", action);
    let ctx_http = PayloadContext::new(b"GET / HTTP/1.1\r\nHost: example.com\r\n\r\n".to_vec());
    let action_http = strategy.apply(&ctx_http).unwrap();
    assert!(!matches!(action_http, DesyncAction::PassThrough), "expected http_host to run, got {:?}", action_http);
}

#[test]
fn strategy_skips_disabled_and_inapplicable() {
    let mut disabled = technique("tcp_split", Some(SplitPosition::Absolute(1)));
    disabled.enabled = false;
    let strategy = Strategy {
        name: "s".into(),
        techniques: vec![disabled, technique("http_host", None), technique("no_such", None)],
    };
    let ctx = PayloadContext { payload: b"abc".to_vec(), protocol: AppProtocol::Unknown };
    assert!(matches!(strategy.apply(&ctx), Ok(DesyncAction::PassThrough)));
}

#[test]
fn extract_domain_strips_port() {
    let http = AppProtocol::HttpRequest { method: "GET".into(), host: Some("example.com:8080".into()), host_offset: 0 };
    assert_eq!(extract_domain(&http), Some("example.com"));
    let tls = AppProtocol::TlsClientHello { sni: Some("a.b".into()), sni_offset: 0, sni_len: 3 };
    assert_eq!(extract_domain(&tls), Some("a.b"));
    assert_eq!(extract_domain(&AppProtocol::Unknown), None);
}

#[test]
fn strategy_admits_what_its_techniques_accept() {
    let hello = minimal_client_hello_with_sni("example.com");
    let len = hello.len();
    let ctx = PayloadContext::new(hello);
    let ok = Strategy { name: "ok".into(), techniques: vec![technique("tls_record_frag", None)] };
    assert!(ok.admits(&ctx));
    // Four fragments cut at the record's last byte leave no room for the
    // cut after the host name.
    let mut msf = technique("multi_stream_frag", Some(SplitPosition::Absolute(len - 1)));
    msf.fragments = Some(4);
    let cramped = Strategy { name: "cramped".into(), techniques: vec![msf.clone()] };
    assert!(!cramped.admits(&ctx));
    // At the SNI the same count fits.
    msf.split_position = Some(SplitPosition::Sni);
    let roomy = Strategy { name: "roomy".into(), techniques: vec![msf.clone()] };
    assert!(roomy.admits(&ctx));
    // Split jitter of three bytes around the SNI still leaves room.
    msf.stealth = Some(desyncd::types::StealthConfig {
        split_jitter: 3,
        timing_jitter_us: 0,
        fake_size_range: None,
        randomize_tls_padding: false,
    });
    let jittered = Strategy { name: "jittered".into(), techniques: vec![msf.clone()] };
    assert!(jittered.admits(&ctx));
    // A random offset that may land near the end of the record does not.
    msf.stealth = None;
    msf.split_position = Some(SplitPosition::Random { min: 1, max: len - 1 });
    let anywhere = Strategy { name: "anywhere".into(), techniques: vec![msf.clone()] };
    assert!(!anywhere.admits(&ctx));
    // One that stays early does.
    msf.split_position = Some(SplitPosition::Random { min: 1, max: 20 });
    let early = Strategy { name: "early".into(), techniques: vec![msf] };
    assert!(early.admits(&ctx));
    // Unknown names and other techniques are always accepted.
    let other = Strategy { name: "other".into(), techniques: vec![technique("no_such", None), technique("tcp_split", None)] };
    assert!(other.admits(&ctx));
    let selector = Selector::new(vec![cramped], vec![], Some("cramped".into()));
    assert!(!selector.admits(&ctx));
    let selector = Selector::new(vec![ok], vec![], Some("ok".into()));
    assert!(selector.admits(&ctx));
}
