use desyncd::morphing::{classify_from_probes, rank_by_latency, DiagProbes, DpiProfile, ProbeResult};
use desyncd::probe::build_probe_client_hello;
use desyncd::tls::{try_parse_client_hello, ParseStatus};
use desyncd::types::{AppProtocol, SplitPosition};

fn ok(latency_ms: u64) -> ProbeResult {
    ProbeResult { success: true, latency_nanos: latency_ms as u128 * 1_000_000, error: None }
}

fn fail() -> ProbeResult {
    ProbeResult { success: false, latency_nanos: 10_000 * 1_000_000, error: Some("timeout".into()) }
}

#[test]
fn tspu_pattern_recommends_msf_first() {
    let diag = DiagProbes {
        tls_record_frag: Some(ok(400)),
        tcp_split: Some(fail()),
        sni_manip: Some(fail()),
        disorder: Some(fail()),
    };
    let (profile, recs, confidence) = classify_from_probes(&diag, false);
    assert_eq!(profile, DpiProfile::TlsRecordInspector);
    assert!(confidence as f64 / 100.0 >= 0.85);
    assert!(!recs.is_empty(), "should recommend at least one technique");
    assert_eq!(recs[0].0, "multi_stream_frag");
    assert!(recs.iter().any(|(n, _)| n == "tls_record_frag"));
}

#[test]
fn tspu_pattern_includes_fallbacks_when_available() {
    let diag = DiagProbes {
        tls_record_frag: Some(ok(350)),
        tcp_split: Some(fail()),
        sni_manip: Some(ok(400)),
        disorder: Some(ok(420)),
    };
    let (profile, recs, _) = classify_from_probes(&diag, false);
    assert_eq!(profile, DpiProfile::TlsRecordInspector);
    let names: Vec<&str> = recs.iter().map(|(n, _)| n.as_str()).collect();
    assert_eq!(names[0], "multi_stream_frag");
    assert_eq!(names[1], "tls_record_frag");
    assert!(names.contains(&"disorder"));
    assert!(names.contains(&"sni_manip"));
}

#[test]
fn ip_block_returns_no_recommendations() {
    let diag = DiagProbes {
        tls_record_frag: Some(fail()),
        tcp_split: Some(fail()),
        sni_manip: Some(fail()),
        disorder: Some(fail()),
    };
    let (profile, recs, _) = classify_from_probes(&diag, true);
    assert_eq!(profile, DpiProfile::IpBlocked);
    assert!(recs.is_empty());
}

#[test]
fn nothing_works_without_refusal_is_unknown() {
    let diag = DiagProbes { tls_record_frag: Some(fail()), tcp_split: None, sni_manip: Some(fail()), disorder: None };
    let (profile, recs, confidence) = classify_from_probes(&diag, false);
    assert_eq!(profile, DpiProfile::Unknown);
    assert!(recs.is_empty());
    assert_eq!(confidence, 30);
}

#[test]
fn everything_works_is_permissive_ranked_by_latency() {
    let diag = DiagProbes {
        tls_record_frag: Some(ok(300)),
        tcp_split: Some(ok(100)),
        sni_manip: Some(ok(300)),
        disorder: Some(ok(50)),
    };
    let (profile, recs, confidence) = classify_from_probes(&diag, false);
    assert_eq!(profile, DpiProfile::Permissive);
    assert_eq!(confidence, 70);
    let names: Vec<&str> = recs.iter().map(|(n, _)| n.as_str()).collect();
    assert_eq!(names, vec!["disorder", "tcp_split", "tls_record_frag", "sni_manip"]);
    assert!(recs.iter().all(|(_, p)| *p == SplitPosition::Sni));
}

#[test]
fn tcp_naive_sni_exact_and_order_dependent() {
    let tcp = DiagProbes { tls_record_frag: Some(fail()), tcp_split: Some(ok(10)), sni_manip: Some(fail()), disorder: Some(ok(20)) };
    let (profile, recs, confidence) = classify_from_probes(&tcp, false);
    assert_eq!(profile, DpiProfile::TcpNaive);
    assert_eq!(confidence, 85);
    assert_eq!(recs.iter().map(|(n, _)| n.as_str()).collect::<Vec<_>>(), vec!["tcp_split", "disorder"]);

    let sni = DiagProbes { tls_record_frag: Some(fail()), tcp_split: Some(fail()), sni_manip: Some(ok(10)), disorder: Some(fail()) };
    let (profile, recs, confidence) = classify_from_probes(&sni, true);
    assert_eq!(profile, DpiProfile::SniExactMatch);
    assert_eq!(confidence, 80);
    assert_eq!(recs.len(), 1);
    assert_eq!(recs[0].0, "sni_manip");

    let dis = DiagProbes { tls_record_frag: Some(fail()), tcp_split: Some(fail()), sni_manip: Some(ok(5)), disorder: Some(ok(10)) };
    let (profile, recs, confidence) = classify_from_probes(&dis, false);
    assert_eq!(profile, DpiProfile::OrderDependent);
    assert_eq!(confidence, 75);
    assert_eq!(recs.len(), 1);
    assert_eq!(recs[0].0, "disorder");
}

#[test]
fn mixed_success_is_permissive_with_partial_confidence() {
    // tls and tcp both work, the others do not: no specific pattern.
    let diag = DiagProbes { tls_record_frag: Some(ok(200)), tcp_split: Some(ok(100)), sni_manip: Some(fail()), disorder: Some(fail()) };
    let (profile, recs, confidence) = classify_from_probes(&diag, false);
    assert_eq!(profile, DpiProfile::Permissive);
    assert_eq!(confidence, 70);
    assert_eq!(recs.iter().map(|(n, _)| n.as_str()).collect::<Vec<_>>(), vec!["tcp_split", "tls_record_frag"]);
}

#[test]
fn rank_keeps_order_of_equal_latencies() {
    let diag = DiagProbes { tls_record_frag: Some(ok(7)), tcp_split: Some(fail()), sni_manip: Some(ok(7)), disorder: Some(ok(3)) };
    let recs = rank_by_latency(&diag);
    assert_eq!(recs.iter().map(|(n, _)| n.as_str()).collect::<Vec<_>>(), vec!["disorder", "tls_record_frag", "sni_manip"]);
}

#[test]
fn profile_labels() {
    assert_eq!(DpiProfile::TlsRecordInspector.label(), "TLS-record-inspector (TSPU-like)");
    assert_eq!(DpiProfile::Unknown.label(), "unknown");
}

#[test]
fn probe_client_hello_carries_domain() {
    let hello = build_probe_client_hello("example.com");
    assert_eq!(hello.len(), 216 + 11);
    assert_eq!(&hello[..3], &[0x16, 0x03, 0x01]);
    match try_parse_client_hello(&hello) {
        ParseStatus::Complete(AppProtocol::TlsClientHello { sni, sni_offset, sni_len }) => {
            assert_eq!(sni.as_deref(), Some("example.com"));
            assert_eq!(sni_offset, 105);
            assert_eq!(sni_len, 11);
        }
        other => panic!("unexpected parse: {:?}", other),
    }
    // Two hellos differ in their random parts.
    let again = build_probe_client_hello("example.com");
    assert_eq!(again.len(), hello.len());
    assert_ne!(again, hello);
}
