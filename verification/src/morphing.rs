//! DPI classification: from the outcome of four diagnostic probes (one per
//! technique), name the kind of DPI in the way and recommend the
//! techniques to try, best first.

use vstd::prelude::*;
use crate::types::SplitPosition;

verus! {

/// Known DPI behaviour profiles.
#[derive(Debug, Clone, Copy, PartialEq, Eq, Structural)]
pub enum DpiProfile {
    /// Reads the first TLS record only and reassembles TCP (TSPU-like).
    TlsRecordInspector,
    /// Does not reassemble TCP segments.
    TcpNaive,
    /// Compares the SNI literally, case included.
    SniExactMatch,
    /// Processes packets in arrival order.
    OrderDependent,
    /// Blocks at the IP level: no SNI-based bypass works.
    IpBlocked,
    /// Several techniques work: the DPI is weak or intermittent.
    Permissive,
    /// Could not classify.
    Unknown,
}

/// The name under which a profile is shown.
pub open spec fn profile_label(p: DpiProfile) -> Seq<char> {
    match p {
        DpiProfile::TlsRecordInspector => seq!['T', 'L', 'S', '-', 'r', 'e', 'c', 'o', 'r', 'd', '-', 'i', 'n', 's', 'p', 'e', 'c', 't', 'o', 'r', ' ', '(', 'T', 'S', 'P', 'U', '-', 'l', 'i', 'k', 'e', ')'],
        DpiProfile::TcpNaive => seq!['T', 'C', 'P', '-', 'n', 'a', 'i', 'v', 'e'],
        DpiProfile::SniExactMatch => seq!['S', 'N', 'I', '-', 'e', 'x', 'a', 'c', 't', '-', 'm', 'a', 't', 'c', 'h'],
        DpiProfile::OrderDependent => seq!['o', 'r', 'd', 'e', 'r', '-', 'd', 'e', 'p', 'e', 'n', 'd', 'e', 'n', 't'],
        DpiProfile::IpBlocked => seq!['I', 'P', '-', 'b', 'l', 'o', 'c', 'k', 'e', 'd'],
        DpiProfile::Permissive => seq!['p', 'e', 'r', 'm', 'i', 's', 's', 'i', 'v', 'e', ' ', '(', 'w', 'e', 'a', 'k', ' ', 'D', 'P', 'I', ')'],
        DpiProfile::Unknown => seq!['u', 'n', 'k', 'n', 'o', 'w', 'n'],
    }
}

impl DpiProfile {
    /// The name under which the profile is shown (see `profile_label`).
    pub fn label(&self) -> (r: String)
        ensures
            r@ == profile_label(*self),
    {
        match self {
            DpiProfile::TlsRecordInspector => {
                let t = "TLS-record-inspector (TSPU-like)";
                proof {
                    reveal_strlit("TLS-record-inspector (TSPU-like)");
                }
                assert(t@ =~= seq!['T', 'L', 'S', '-', 'r', 'e', 'c', 'o', 'r', 'd', '-', 'i', 'n', 's', 'p', 'e', 'c', 't', 'o', 'r', ' ', '(', 'T', 'S', 'P', 'U', '-', 'l', 'i', 'k', 'e', ')']);
                t.to_owned()
            },
            DpiProfile::TcpNaive => {
                let t = "TCP-naive";
                proof {
                    reveal_strlit("TCP-naive");
                }
                assert(t@ =~= seq!['T', 'C', 'P', '-', 'n', 'a', 'i', 'v', 'e']);
                t.to_owned()
            },
            DpiProfile::SniExactMatch => {
                let t = "SNI-exact-match";
                proof {
                    reveal_strlit("SNI-exact-match");
                }
                assert(t@ =~= seq!['S', 'N', 'I', '-', 'e', 'x', 'a', 'c', 't', '-', 'm', 'a', 't', 'c', 'h']);
                t.to_owned()
            },
            DpiProfile::OrderDependent => {
                let t = "order-dependent";
                proof {
                    reveal_strlit("order-dependent");
                }
                assert(t@ =~= seq!['o', 'r', 'd', 'e', 'r', '-', 'd', 'e', 'p', 'e', 'n', 'd', 'e', 'n', 't']);
                t.to_owned()
            },
            DpiProfile::IpBlocked => {
                let t = "IP-blocked";
                proof {
                    reveal_strlit("IP-blocked");
                }
                assert(t@ =~= seq!['I', 'P', '-', 'b', 'l', 'o', 'c', 'k', 'e', 'd']);
                t.to_owned()
            },
            DpiProfile::Permissive => {
                let t = "permissive (weak DPI)";
                proof {
                    reveal_strlit("permissive (weak DPI)");
                }
                assert(t@ =~= seq!['p', 'e', 'r', 'm', 'i', 's', 's', 'i', 'v', 'e', ' ', '(', 'w', 'e', 'a', 'k', ' ', 'D', 'P', 'I', ')']);
                t.to_owned()
            },
            DpiProfile::Unknown => {
                let t = "unknown";
                proof {
                    reveal_strlit("unknown");
                }
                assert(t@ =~= seq!['u', 'n', 'k', 'n', 'o', 'w', 'n']);
                t.to_owned()
            },
        }
    }
}

/// Outcome of one probe. The latency is kept in nanoseconds, which orders
/// durations as they compare.
#[derive(Debug, Clone)]
pub struct ProbeResult {
    /// Whether the server answered with a ServerHello.
    pub success: bool,
    /// Round-trip latency of the attempt, in nanoseconds.
    pub latency_nanos: u128,
    /// Why the probe failed, if it did.
    pub error: Option<String>,
}

/// Results of the diagnostic probes, one per technique.
#[derive(Debug, Clone)]
pub struct DiagProbes {
    pub tls_record_frag: Option<ProbeResult>,
    pub tcp_split: Option<ProbeResult>,
    pub sni_manip: Option<ProbeResult>,
    pub disorder: Option<ProbeResult>,
}

/// A technique that classification may recommend.
#[derive(Debug, Clone, Copy, PartialEq, Eq, Structural)]
pub enum DiagTechnique {
    TlsRecordFrag,
    TcpSplit,
    SniManip,
    Disorder,
    MultiStreamFrag,
}

impl DiagTechnique {
    /// The technique's registry name.
    pub open spec fn spec_name(self) -> Seq<char> {
        match self {
            DiagTechnique::TlsRecordFrag => seq!['t', 'l', 's', '_', 'r', 'e', 'c', 'o', 'r', 'd', '_', 'f', 'r', 'a', 'g'],
            DiagTechnique::TcpSplit => seq!['t', 'c', 'p', '_', 's', 'p', 'l', 'i', 't'],
            DiagTechnique::SniManip => seq!['s', 'n', 'i', '_', 'm', 'a', 'n', 'i', 'p'],
            DiagTechnique::Disorder => seq!['d', 'i', 's', 'o', 'r', 'd', 'e', 'r'],
            DiagTechnique::MultiStreamFrag => seq![
                'm', 'u', 'l', 't', 'i', '_', 's', 't', 'r', 'e', 'a', 'm', '_', 'f', 'r', 'a', 'g',
            ],
        }
    }

    /// The technique's registry name.
    pub fn name(&self) -> (r: &'static str)
        ensures
            r@ == self.spec_name(),
            r.is_ascii(),
    {
        match self {
            DiagTechnique::TlsRecordFrag => {
                let s = "tls_record_frag";
                proof {
                    reveal_strlit("tls_record_frag");
                }
                s
            },
            DiagTechnique::TcpSplit => {
                let s = "tcp_split";
                proof {
                    reveal_strlit("tcp_split");
                }
                s
            },
            DiagTechnique::SniManip => {
                let s = "sni_manip";
                proof {
                    reveal_strlit("sni_manip");
                }
                s
            },
            DiagTechnique::Disorder => {
                let s = "disorder";
                proof {
                    reveal_strlit("disorder");
                }
                s
            },
            DiagTechnique::MultiStreamFrag => {
                let s = "multi_stream_frag";
                proof {
                    reveal_strlit("multi_stream_frag");
                }
                s
            },
        }
    }
}

/// Whether a diagnostic probe ran and succeeded.
pub open spec fn succeeded(p: Option<ProbeResult>) -> bool {
    p matches Some(r) && r.success
}

/// The number of diagnostic probes that succeeded.
pub open spec fn success_count(d: DiagProbes) -> int {
    (if succeeded(d.tls_record_frag) { 1int } else { 0 }) + (if succeeded(d.tcp_split) { 1int } else { 0 })
        + (if succeeded(d.sni_manip) { 1int } else { 0 }) + (if succeeded(d.disorder) { 1int } else { 0 })
}

/// The successful diagnostic probes with their latencies, in the fixed
/// order tls_record_frag, tcp_split, sni_manip, disorder.
pub open spec fn successful_entries(d: DiagProbes) -> Seq<(DiagTechnique, u128)> {
    let e0: Seq<(DiagTechnique, u128)> = Seq::empty();
    let e1 = if succeeded(d.tls_record_frag) {
        e0.push((DiagTechnique::TlsRecordFrag, d.tls_record_frag->0.latency_nanos))
    } else {
        e0
    };
    let e2 = if succeeded(d.tcp_split) {
        e1.push((DiagTechnique::TcpSplit, d.tcp_split->0.latency_nanos))
    } else {
        e1
    };
    let e3 = if succeeded(d.sni_manip) {
        e2.push((DiagTechnique::SniManip, d.sni_manip->0.latency_nanos))
    } else {
        e2
    };
    if succeeded(d.disorder) {
        e3.push((DiagTechnique::Disorder, d.disorder->0.latency_nanos))
    } else {
        e3
    }
}

/// Index of the first entry of `s` slower than `lat` (the length if none).
pub open spec fn first_slower(s: Seq<(DiagTechnique, u128)>, lat: u128, i: int) -> int
    decreases s.len() - i,
{
    if i < 0 || i >= s.len() {
        s.len() as int
    } else if s[i].1 > lat {
        i
    } else {
        first_slower(s, lat, i + 1)
    }
}

/// Stable sort by latency, fastest first: entries of equal latency keep
/// their order.
pub open spec fn by_latency(s: Seq<(DiagTechnique, u128)>) -> Seq<(DiagTechnique, u128)>
    decreases s.len(),
{
    if s.len() == 0 {
        s
    } else {
        let sorted = by_latency(s.drop_last());
        sorted.insert(first_slower(sorted, s.last().1, 0), s.last())
    }
}

/// The techniques of the successful probes, fastest first.
pub open spec fn spec_rank_by_latency(d: DiagProbes) -> Seq<DiagTechnique> {
    by_latency(successful_entries(d)).map_values(|e: (DiagTechnique, u128)| e.0)
}

/// The classification: profile, recommended techniques (all at the SNI
/// position) best first, and the confidence in percent.
pub open spec fn spec_classify(d: DiagProbes, connection_refused: bool) -> (DpiProfile, Seq<DiagTechnique>, u8) {
    let tls_ok = succeeded(d.tls_record_frag);
    let tcp_ok = succeeded(d.tcp_split);
    let sni_ok = succeeded(d.sni_manip);
    let dis_ok = succeeded(d.disorder);
    let n = success_count(d);
    if n == 0 && connection_refused {
        (DpiProfile::IpBlocked, Seq::empty(), 90)
    } else if n == 0 {
        (DpiProfile::Unknown, Seq::empty(), 30)
    } else if n == 4 {
        (DpiProfile::Permissive, spec_rank_by_latency(d), 70)
    } else if tls_ok && !tcp_ok {
        let base = seq![DiagTechnique::MultiStreamFrag, DiagTechnique::TlsRecordFrag];
        let with_dis = if dis_ok { base.push(DiagTechnique::Disorder) } else { base };
        let recs = if sni_ok { with_dis.push(DiagTechnique::SniManip) } else { with_dis };
        (DpiProfile::TlsRecordInspector, recs, 90)
    } else if tcp_ok && !tls_ok {
        let base = seq![DiagTechnique::TcpSplit];
        let recs = if dis_ok { base.push(DiagTechnique::Disorder) } else { base };
        (DpiProfile::TcpNaive, recs, 85)
    } else if sni_ok && !tls_ok && !tcp_ok && !dis_ok {
        (DpiProfile::SniExactMatch, seq![DiagTechnique::SniManip], 80)
    } else if dis_ok && !tcp_ok {
        let base = seq![DiagTechnique::Disorder];
        let recs = if tls_ok { base.push(DiagTechnique::TlsRecordFrag) } else { base };
        (DpiProfile::OrderDependent, recs, 75)
    } else {
        (DpiProfile::Permissive, spec_rank_by_latency(d), (60 + 5 * n) as u8)
    }
}

/// Whether a recommendation list is the given techniques, each at the SNI
/// position.
pub open spec fn recommends_all(r: Seq<(String, SplitPosition)>, ts: Seq<DiagTechnique>) -> bool {
    &&& r.len() == ts.len()
    &&& forall|i: int| 0 <= i < r.len() ==> (#[trigger] r[i]).0@ == ts[i].spec_name() && r[i].1 == SplitPosition::Sni
}

fn probe_ok(p: &Option<ProbeResult>) -> (r: bool)
    ensures
        r == succeeded(*p),
{
    match p {
        Some(res) => res.success,
        None => false,
    }
}

fn push_entry(v: &mut Vec<(DiagTechnique, u128)>, p: &Option<ProbeResult>, t: DiagTechnique)
    ensures
        final(v)@ == if succeeded(*p) {
            old(v)@.push((t, p->0.latency_nanos))
        } else {
            old(v)@
        },
{
    if let Some(res) = p {
        if res.success {
            v.push((t, res.latency_nanos));
        }
    }
}

pub(crate) fn to_recommendations(ts: &Vec<DiagTechnique>) -> (r: Vec<(String, SplitPosition)>)
    ensures
        recommends_all(r@, ts@),
{
    let mut r: Vec<(String, SplitPosition)> = Vec::new();
    let mut i: usize = 0;
    while i < ts.len()
        invariant
            i <= ts@.len(),
            recommends_all(r@, ts@.subrange(0, i as int)),
        decreases ts@.len() - i,
    {
        let name = ts[i].name().to_owned();
        r.push((name, SplitPosition::Sni));
        i = i + 1;
    }
    assert(ts@.subrange(0, ts@.len() as int) =~= ts@);
    r
}

/// The techniques of the successful probes, fastest first (stable for
/// equal latencies).
pub fn rank_by_latency(diag: &DiagProbes) -> (r: Vec<(String, SplitPosition)>)
    ensures
        recommends_all(r@, spec_rank_by_latency(*diag)),
{
    to_recommendations(&rank_techniques(diag))
}

/// The techniques of the successful probes, fastest first.
pub fn rank_techniques(diag: &DiagProbes) -> (r: Vec<DiagTechnique>)
    ensures
        r@ == spec_rank_by_latency(*diag),
{
    let mut entries: Vec<(DiagTechnique, u128)> = Vec::new();
    push_entry(&mut entries, &diag.tls_record_frag, DiagTechnique::TlsRecordFrag);
    push_entry(&mut entries, &diag.tcp_split, DiagTechnique::TcpSplit);
    push_entry(&mut entries, &diag.sni_manip, DiagTechnique::SniManip);
    push_entry(&mut entries, &diag.disorder, DiagTechnique::Disorder);
    let ghost all = entries@;
    assert(all == successful_entries(*diag));
    let mut sorted: Vec<(DiagTechnique, u128)> = Vec::new();
    let mut i: usize = 0;
    while i < entries.len()
        invariant
            entries@ == all,
            i <= all.len(),
            sorted@ == by_latency(all.subrange(0, i as int)),
        decreases all.len() - i,
    {
        let x = entries[i];
        let mut k: usize = 0;
        while k < sorted.len() && sorted[k].1 <= x.1
            invariant
                k <= sorted@.len(),
                first_slower(sorted@, x.1, 0) == first_slower(sorted@, x.1, k as int),
            decreases sorted@.len() - k,
        {
            k = k + 1;
        }
        proof {
            let pre = all.subrange(0, i as int);
            let next = all.subrange(0, i + 1);
            assert(next.drop_last() =~= pre);
            assert(next.last() == x);
        }
        sorted.insert(k, x);
        i = i + 1;
    }
    assert(all.subrange(0, all.len() as int) =~= all);
    let mut techniques: Vec<DiagTechnique> = Vec::new();
    let mut j: usize = 0;
    while j < sorted.len()
        invariant
            j <= sorted@.len(),
            techniques@ == sorted@.subrange(0, j as int).map_values(|e: (DiagTechnique, u128)| e.0),
        decreases sorted@.len() - j,
    {
        techniques.push(sorted[j].0);
        proof {
            assert(sorted@.subrange(0, j + 1).map_values(|e: (DiagTechnique, u128)| e.0) =~= sorted@.subrange(
                0,
                j as int,
            ).map_values(|e: (DiagTechnique, u128)| e.0).push(sorted@[j as int].0));
        }
        j = j + 1;
    }
    assert(sorted@.subrange(0, sorted@.len() as int) =~= sorted@);
    techniques
}

/// Classify the DPI from the diagnostic probe results: the profile, the
/// techniques to try (best first, all at the SNI position) and the
/// confidence in percent.
pub fn classify_from_probes(diag: &DiagProbes, connection_refused: bool) -> (r: (
    DpiProfile,
    Vec<(String, SplitPosition)>,
    u8,
))
    ensures
        r.0 == spec_classify(*diag, connection_refused).0,
        recommends_all(r.1@, spec_classify(*diag, connection_refused).1),
        r.2 == spec_classify(*diag, connection_refused).2,
{
    let (profile, ts, confidence) = classify_techniques(diag, connection_refused);
    (profile, to_recommendations(&ts), confidence)
}

/// Classify the DPI (see `classify_from_probes`), naming the recommended
/// techniques.
pub fn classify_techniques(diag: &DiagProbes, connection_refused: bool) -> (r: (DpiProfile, Vec<DiagTechnique>, u8))
    ensures
        r.0 == spec_classify(*diag, connection_refused).0,
        r.1@ == spec_classify(*diag, connection_refused).1,
        r.2 == spec_classify(*diag, connection_refused).2,
{
    let tls_ok = probe_ok(&diag.tls_record_frag);
    let tcp_ok = probe_ok(&diag.tcp_split);
    let sni_ok = probe_ok(&diag.sni_manip);
    let dis_ok = probe_ok(&diag.disorder);
    let successes: u8 = (if tls_ok { 1u8 } else { 0 }) + (if tcp_ok { 1u8 } else { 0 }) + (if sni_ok { 1u8 } else { 0 })
        + (if dis_ok { 1u8 } else { 0 });
    let mut ts: Vec<DiagTechnique> = Vec::new();
    if successes == 0 && connection_refused {
        assert(ts@ =~= Seq::<DiagTechnique>::empty());
        return (DpiProfile::IpBlocked, ts, 90);
    }
    if successes == 0 {
        assert(ts@ =~= Seq::<DiagTechnique>::empty());
        return (DpiProfile::Unknown, ts, 30);
    }
    if successes == 4 {
        return (DpiProfile::Permissive, rank_techniques(diag), 70);
    }
    if tls_ok && !tcp_ok {
        ts.push(DiagTechnique::MultiStreamFrag);
        ts.push(DiagTechnique::TlsRecordFrag);
        if dis_ok {
            ts.push(DiagTechnique::Disorder);
        }
        if sni_ok {
            ts.push(DiagTechnique::SniManip);
        }
        return (DpiProfile::TlsRecordInspector, ts, 90);
    }
    if tcp_ok && !tls_ok {
        ts.push(DiagTechnique::TcpSplit);
        if dis_ok {
            ts.push(DiagTechnique::Disorder);
        }
        return (DpiProfile::TcpNaive, ts, 85);
    }
    if sni_ok && !tls_ok && !tcp_ok && !dis_ok {
        ts.push(DiagTechnique::SniManip);
        return (DpiProfile::SniExactMatch, ts, 80);
    }
    if dis_ok && !tcp_ok {
        ts.push(DiagTechnique::Disorder);
        if tls_ok {
            ts.push(DiagTechnique::TlsRecordFrag);
        }
        return (DpiProfile::OrderDependent, ts, 75);
    }
    (DpiProfile::Permissive, rank_techniques(diag), 60 + 5 * successes)
}

} // verus!
