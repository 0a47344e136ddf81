use desyncd::morph_search::{contains_bytes, make_strategy, MorphSearch};
use desyncd::morphing::{DpiProfile, ProbeResult};
use desyncd::search::{compute_score, FullSearch};
use desyncd::text::{push_digits, push_signed, push_split_debug, push_text};
use desyncd::types::{SplitPosition, StealthConfig};

fn ok(latency_ms: u64) -> ProbeResult {
    ProbeResult { success: true, latency_nanos: latency_ms as u128 * 1_000_000, error: None }
}

fn fail(msg: &str) -> ProbeResult {
    ProbeResult { success: false, latency_nanos: 5_000 * 1_000_000, error: Some(msg.to_string()) }
}

#[test]
fn score_formula_values() {
    assert_eq!(compute_score(&fail("timeout"), 1), 0);
    // 100 points less 0.01 per millisecond and 2 per technique, in units
    // of 1/200 point.
    assert_eq!(compute_score(&ok(1_000), 1), 17_600);
    assert_eq!(compute_score(&ok(100), 1), 19_400);
    assert_eq!(compute_score(&ok(0), 0), 20_000);
    assert_eq!(compute_score(&ok(0), 2), 19_200);
    assert_eq!(compute_score(&ok(9_699), 1), 202);
    // Never under one point.
    assert_eq!(compute_score(&ok(9_700), 1), 200);
    assert_eq!(compute_score(&ok(60_000), 1), 200);
    assert_eq!(compute_score(&ok(0), 1_000), 200);
}

#[test]
fn text_helpers_format_like_display_and_debug() {
    let mut out = Vec::new();
    push_text(&mut out, "n=");
    push_digits(&mut out, 1234);
    push_text(&mut out, " m=");
    push_signed(&mut out, -56);
    push_text(&mut out, " ");
    push_split_debug(&mut out, &SplitPosition::SniOffset(-2));
    push_text(&mut out, " ");
    push_split_debug(&mut out, &SplitPosition::Absolute(5));
    push_text(&mut out, " ");
    push_split_debug(&mut out, &SplitPosition::Sni);
    assert_eq!(String::from_utf8(out).unwrap(), "n=1234 m=-56 SniOffset(-2) Absolute(5) Sni");
    let mut zero = Vec::new();
    push_digits(&mut zero, 0);
    assert_eq!(zero, b"0".to_vec());
}

#[test]
fn contains_bytes_finds_substrings() {
    assert!(contains_bytes(b"Connection refused (os error 111)", b"onnection refused"));
    assert!(!contains_bytes(b"connection reset", b"onnection refused"));
    assert!(contains_bytes(b"abc", b""));
    assert!(!contains_bytes(b"ab", b"abc"));
}

#[test]
fn full_search_unblocked_domain_stops_after_baseline() {
    let mut s = FullSearch::new("example.com", 40);
    let p = s.next_probe().unwrap();
    assert_eq!(p.label, "baseline");
    assert!(p.strategy.is_none());
    let saved = s.record(ok(50)).unwrap();
    assert_eq!(saved.technique, "baseline");
    assert!(saved.success);
    assert_eq!(saved.latency_millis, 50);
    assert!(s.next_probe().is_none());
    let out = s.into_outcome();
    assert!(out.best_strategy.is_none());
    assert_eq!(out.best_score, 0);
    assert_eq!(out.probes.len(), 1);
    assert_eq!(out.probes[0].0, "baseline");
}

#[test]
fn full_search_sweeps_then_varies_the_winner() {
    let mut s = FullSearch::new("example.com", 100);
    s.next_probe().unwrap();
    assert!(s.record(fail("timeout")).is_none());

    let sweep = ["tcp_split", "tls_record_frag", "disorder", "fake_packet", "sni_manip"];
    for (i, tech) in sweep.iter().enumerate() {
        let p = s.next_probe().unwrap();
        assert_eq!(p.label, *tech);
        assert_eq!(p.pause_after_millis, 1000);
        let st = p.strategy.unwrap();
        assert_eq!(st.name, format!("probe_{}", tech));
        assert_eq!(st.techniques.len(), 1);
        assert_eq!(st.techniques[0].name, *tech);
        assert_eq!(st.techniques[0].split_position, Some(SplitPosition::Sni));
        // Only disorder works.
        let result = if i == 2 { ok(300) } else { fail("timeout") };
        let saved = s.record(result).unwrap();
        assert_eq!(saved.technique, *tech);
    }

    // Six variations of disorder, one of which is fastest.
    let positions = [
        SplitPosition::SniOffset(-1),
        SplitPosition::SniOffset(-2),
        SplitPosition::SniOffset(1),
        SplitPosition::Absolute(1),
        SplitPosition::Absolute(3),
        SplitPosition::Absolute(5),
    ];
    for (i, pos) in positions.iter().enumerate() {
        let p = s.next_probe().unwrap();
        assert_eq!(p.label, format!("disorder+{:?}", pos));
        let st = p.strategy.unwrap();
        assert_eq!(st.name, format!("probe_disorder_{:?}", pos));
        assert_eq!(st.techniques[0].split_position, Some(pos.clone()));
        let result = if i == 3 { ok(20) } else if i == 1 { ok(200) } else { fail("reset") };
        assert!(s.record(result).is_none());
    }
    assert!(s.next_probe().is_none());
    let out = s.into_outcome();
    let best = out.best_strategy.unwrap();
    assert_eq!(best.name, "probe_disorder_Absolute(1)");
    assert_eq!(out.best_score, 20_000 - 40 - 400);
    assert_eq!(out.probes.len(), 1 + 5 + 6);
}

#[test]
fn full_search_falls_back_to_first_sweep_winner() {
    let mut s = FullSearch::new("example.com", 100);
    s.next_probe().unwrap();
    s.record(fail("timeout"));
    for i in 0..5 {
        s.next_probe().unwrap();
        let result = if i == 1 || i == 3 { ok(100) } else { fail("timeout") };
        s.record(result);
    }
    while let Some(_) = s.next_probe() {
        s.record(fail("timeout"));
    }
    let out = s.into_outcome();
    let best = out.best_strategy.unwrap();
    assert_eq!(best.name, "auto_example.com_tls_record_frag");
    assert_eq!(best.techniques[0].split_position, Some(SplitPosition::Sni));
    assert_eq!(out.best_score, 19_400);
    // Sweep, six variations for each of the two winners, the combination.
    assert_eq!(out.probes.len(), 1 + 5 + 12 + 1);
    assert_eq!(out.probes[18].0, "combo:tls_record_frag+fake_packet");
}

#[test]
fn full_search_combines_the_two_best_singles() {
    let mut s = FullSearch::new("example.com", 100);
    s.next_probe().unwrap();
    s.record(fail("timeout"));
    for i in 0..5 {
        s.next_probe().unwrap();
        let result = if i == 1 { ok(300) } else if i == 2 { ok(200) } else { fail("timeout") };
        s.record(result);
    }
    for _ in 0..12 {
        let p = s.next_probe().unwrap();
        assert_ne!(p.label, "combo:disorder+tls_record_frag");
        s.record(fail("reset"));
    }
    // The best single (disorder) first, then the other.
    let p = s.next_probe().unwrap();
    assert_eq!(p.label, "combo:disorder+tls_record_frag");
    assert_eq!(p.pause_after_millis, 500);
    let st = p.strategy.unwrap();
    assert_eq!(st.name, "probe_combo:disorder+tls_record_frag");
    assert_eq!(st.techniques.len(), 2);
    assert_eq!(st.techniques[0].name, "disorder");
    assert_eq!(st.techniques[1].name, "tls_record_frag");
    assert_eq!(st.techniques[1].split_position, Some(SplitPosition::Sni));
    assert!(s.record(ok(10)).is_none());
    assert!(s.next_probe().is_none());
    let out = s.into_outcome();
    // Two techniques: 100 - 0.1 - 4 points beats the first winner's
    // 100 - 3 - 2.
    assert_eq!(out.best_score, 20_000 - 20 - 800);
    assert_eq!(out.best_strategy.unwrap().name, "probe_combo:disorder+tls_record_frag");
}

#[test]
fn full_search_nothing_works() {
    let mut s = FullSearch::new("blocked.example", 100);
    while let Some(_) = s.next_probe() {
        s.record(fail("timeout"));
    }
    let out = s.into_outcome();
    assert!(out.best_strategy.is_none());
    assert_eq!(out.best_score, 0);
    assert_eq!(out.probes.len(), 6);
}

#[test]
fn make_strategy_names_technique_and_position() {
    let st = make_strategy("tcp_split", SplitPosition::SniOffset(-1), Some("mixed_case".into()), None);
    assert_eq!(st.name, "morph_tcp_split_SniOffset(-1)");
    assert_eq!(st.techniques.len(), 1);
    assert_eq!(st.techniques[0].name, "tcp_split");
    assert!(st.techniques[0].enabled);
    assert_eq!(st.techniques[0].sni_mode.as_deref(), Some("mixed_case"));
}

#[test]
fn morph_search_unblocked_domain_is_permissive() {
    let mut m = MorphSearch::new(30, StealthConfig::default());
    let p = m.next_probe().unwrap();
    assert_eq!(p.label, "morph:baseline");
    assert!(p.strategy.is_none());
    assert!(m.record(ok(40)).is_empty());
    assert!(m.next_probe().is_none());
    let out = m.into_outcome();
    assert_eq!(out.profile, DpiProfile::Permissive);
    assert_eq!(out.confidence, 100);
    assert!(out.recommended.is_empty());
    assert!(!out.full_search_instead);
    assert!(out.best_strategy.is_none());
    assert_eq!(out.probes.len(), 1);
}

fn run_diag(m: &mut MorphSearch, results: [ProbeResult; 4]) -> Vec<desyncd::search::TestRecord> {
    let labels = ["morph:tls_record_frag", "morph:tcp_split", "morph:sni_manip", "morph:disorder"];
    let mut saved = Vec::new();
    for (label, r) in labels.iter().zip(results) {
        let p = m.next_probe().unwrap();
        assert_eq!(p.label, *label);
        assert_eq!(p.pause_before_millis, 300);
        saved = m.record(r);
    }
    saved
}

#[test]
fn morph_search_ip_block_ends_after_classification() {
    let mut m = MorphSearch::new(30, StealthConfig::default());
    m.next_probe().unwrap();
    m.record(fail("Connection refused (os error 111)"));
    let saved = run_diag(
        &mut m,
        [fail("Connection refused"), fail("Connection refused"), fail("Connection refused"), fail("Connection refused")],
    );
    assert_eq!(saved.len(), 5);
    assert_eq!(saved[0].technique, "baseline");
    assert_eq!(saved[1].technique, "tls_record_frag");
    assert_eq!(saved[4].technique, "disorder");
    assert!(m.next_probe().is_none());
    let out = m.into_outcome();
    assert_eq!(out.profile, DpiProfile::IpBlocked);
    assert!(out.best_strategy.is_none());
    assert!(!out.full_search_instead);
    assert_eq!(out.probes.len(), 5);
}

#[test]
fn morph_search_tspu_confirms_best_variation() {
    let mut m = MorphSearch::new(40, StealthConfig::default());
    m.next_probe().unwrap();
    m.record(fail("timeout"));
    let saved = run_diag(&mut m, [ok(400), fail("timeout"), fail("timeout"), fail("timeout")]);
    assert_eq!(saved.len(), 5);
    assert!(saved[1].success);
    assert_eq!(saved[1].latency_millis, 400);

    // The first recommended technique is probed at the SNI position first.
    let p = m.next_probe().unwrap();
    assert_eq!(p.label, "morph_var:multi_stream_frag+Sni");
    assert_eq!(p.pause_after_millis, 300);
    assert_eq!(p.strategy.unwrap().name, "morph_multi_stream_frag_Sni");
    // A fast success scores over 80 points: after its variations the
    // remaining techniques are skipped.
    m.record(ok(10));
    let mut variations = 0;
    loop {
        let p = m.next_probe().unwrap();
        if p.label.starts_with("morph_confirm:") {
            assert_eq!(p.label, "morph_confirm:1");
            assert_eq!(p.strategy.unwrap().name, "morph_multi_stream_frag_Sni");
            break;
        }
        assert!(p.label.starts_with("morph_var:multi_stream_frag+"));
        variations += 1;
        m.record(fail("timeout"));
    }
    assert_eq!(variations, 6);
    m.record(ok(10));
    let p = m.next_probe().unwrap();
    assert_eq!(p.label, "morph_confirm:2");
    // One confirmation of two: the score is halved.
    m.record(fail("timeout"));
    assert!(m.next_probe().is_none());
    let out = m.into_outcome();
    assert_eq!(out.profile, DpiProfile::TlsRecordInspector);
    assert_eq!(out.best_strategy.unwrap().name, "morph_multi_stream_frag_Sni");
    assert_eq!(out.best_score, (20_000 - 20 - 400) / 2);
    assert!(!out.stealth_used);
    assert_eq!(out.probes.len(), 5 + 7 + 2);
}

#[test]
fn morph_search_tries_stealth_when_nothing_holds() {
    let stealth = StealthConfig { split_jitter: 3, timing_jitter_us: 500, fake_size_range: None, randomize_tls_padding: true };
    let mut m = MorphSearch::new(200, stealth);
    m.next_probe().unwrap();
    m.record(fail("timeout"));
    run_diag(&mut m, [ok(400), fail("timeout"), fail("timeout"), fail("timeout")]);
    let out_recs;
    loop {
        let p = m.next_probe().unwrap();
        if p.label.starts_with("morph_stealth:") {
            let st = p.strategy.unwrap();
            assert_eq!(st.techniques[0].stealth.as_ref().unwrap().split_jitter, 3);
            out_recs = st.name;
            break;
        }
        m.record(fail("timeout"));
    }
    assert_eq!(out_recs, "morph_multi_stream_frag_Sni");
    m.record(ok(1000));
    while let Some(_) = m.next_probe() {
        m.record(fail("timeout"));
    }
    let out = m.into_outcome();
    assert!(out.stealth_used);
    assert_eq!(out.best_score, 20_000 - 2000 - 400);
    let best = out.best_strategy.unwrap();
    assert!(best.techniques[0].stealth.is_some());
}
