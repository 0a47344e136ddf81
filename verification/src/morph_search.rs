//! Classification-guided strategy search, as a state machine: a baseline
//! probe, four diagnostic probes that classify the DPI, then only the
//! recommended techniques with split-position variations, two
//! confirmation probes of the best one, and stealth variants when nothing
//! held. The caller runs each planned probe with its pauses, reports the
//! result and saves what it is told to save.

use vstd::prelude::*;
use vstd::utf8::{encode_utf8, valid_utf8};
use crate::bytes::{all_ascii, lemma_ascii_valid_utf8};
use crate::morphing::{
    classify_techniques, recommends_all, spec_classify, to_recommendations, DiagProbes, DiagTechnique, DpiProfile, ProbeResult,
};
use crate::search::{
    compute_score, copy_error, millis_of, saves, spec_score, string_of, variation, variation_position, TestRecord,
    VARIATIONS_LEN,
};
use crate::strategy::Strategy;
use crate::technique::TechniqueConfig;
use crate::text::{digits, push_digits, push_split_debug, push_text, split_debug, text};
use crate::types::{opt_str_view, SplitPosition, StealthConfig};

verus! {

/// Whether `needle` occurs in `hay`.
pub open spec fn occurs_in(hay: Seq<u8>, needle: Seq<u8>) -> bool {
    exists|i: int| 0 <= i <= hay.len() - needle.len() && #[trigger] hay.subrange(i, i + needle.len()) == needle
}

/// Whether `needle` occurs in `hay`.
pub fn contains_bytes(hay: &[u8], needle: &[u8]) -> (r: bool)
    ensures
        r == occurs_in(hay@, needle@),
{
    if needle.len() > hay.len() {
        return false;
    }
    let n = hay.len();
    let last = n - needle.len();
    let mut i: usize = 0;
    loop
        invariant
            n == hay@.len(),
            i <= last,
            last + needle@.len() == hay@.len(),
            forall|k: int| 0 <= k < i ==> #[trigger] hay@.subrange(k, k + needle@.len()) != needle@,
        decreases last - i,
    {
        let mut j: usize = 0;
        while j < needle.len() && hay[i + j] == needle[j]
            invariant
                n == hay@.len(),
                i <= last,
                last + needle@.len() == hay@.len(),
                j <= needle@.len(),
                forall|t: int| 0 <= t < j ==> hay@[i + t] == needle@[t],
            decreases needle@.len() - j,
        {
            j = j + 1;
        }
        if j == needle.len() {
            assert(hay@.subrange(i as int, i + needle@.len()) =~= needle@);
            return true;
        }
        assert(hay@.subrange(i as int, i + needle@.len())[j as int] != needle@[j as int]);
        if i == last {
            return false;
        }
        i = i + 1;
    }
}

/// `onnection refused`, as the error text of a refused connection
/// contains it.
pub open spec fn refused_text() -> Seq<u8> {
    text(seq!['o', 'n', 'n', 'e', 'c', 't', 'i', 'o', 'n', ' ', 'r', 'e', 'f', 'u', 's', 'e', 'd'])
}

/// Whether a failed probe's error says the connection was refused.
pub open spec fn refused(r: ProbeResult) -> bool {
    match r.error {
        Some(e) => occurs_in(encode_utf8(e@), refused_text()),
        None => false,
    }
}

/// The diagnostic techniques, in the order probed.
pub open spec fn diag_technique(i: int) -> DiagTechnique {
    if i == 0 {
        DiagTechnique::TlsRecordFrag
    } else if i == 1 {
        DiagTechnique::TcpSplit
    } else if i == 2 {
        DiagTechnique::SniManip
    } else {
        DiagTechnique::Disorder
    }
}

/// `mixed_case`, the SNI mode of the diagnostic `sni_manip` probe.
pub open spec fn mixed_case() -> Seq<char> {
    seq!['m', 'i', 'x', 'e', 'd', '_', 'c', 'a', 's', 'e']
}

/// `morph_`, the technique, `_`, then the position as `{:?}` prints it.
pub open spec fn morph_strategy_name(tech: Seq<char>, pos: SplitPosition) -> Seq<u8> {
    text(seq!['m', 'o', 'r', 'p', 'h', '_']) + text(tech) + text(seq!['_']) + split_debug(pos)
}

/// Whether `s` is the search's strategy for one technique at a position,
/// with an SNI mode and stealth settings.
pub open spec fn is_morph_strategy(
    s: Strategy,
    tech: Seq<char>,
    pos: SplitPosition,
    sni_mode: Option<Seq<char>>,
    stealth: Option<StealthConfig>,
) -> bool {
    &&& encode_utf8(s.name@) == morph_strategy_name(tech, pos)
    &&& s.techniques@.len() == 1
    &&& s.techniques@[0].name@ == tech
    &&& s.techniques@[0].split_position == Some(pos)
    &&& s.techniques@[0].enabled
    &&& s.techniques@[0].fake_type is None
    &&& opt_str_view(s.techniques@[0].sni_mode) == sni_mode
    &&& s.techniques@[0].fragments is None
    &&& s.techniques@[0].host_mode is None
    &&& s.techniques@[0].stealth == stealth
    &&& s.techniques@[0].l7_filter is None
}

/// Build the search's strategy for one technique at a position.
pub fn make_strategy(tech: &str, pos: SplitPosition, sni_mode: Option<String>, stealth: Option<StealthConfig>) -> (r: Strategy)
    requires
        tech.is_ascii(),
    ensures
        is_morph_strategy(r, tech@, pos, opt_str_view(sni_mode), stealth),
{
    let mut name: Vec<u8> = Vec::new();
    let prefix = "morph_";
    let sep = "_";
    proof {
        reveal_strlit("morph_");
        reveal_strlit("_");
    }
    push_text(&mut name, prefix);
    push_text(&mut name, tech);
    push_text(&mut name, sep);
    push_split_debug(&mut name, &pos);
    proof {
        lemma_ascii_valid_utf8(name@);
    }
    assert(name@ == morph_strategy_name(tech@, pos));
    let config = TechniqueConfig {
        name: tech.to_owned(),
        split_position: Some(pos),
        enabled: true,
        fake_type: None,
        sni_mode,
        fragments: None,
        host_mode: None,
        stealth,
        l7_filter: None,
    };
    Strategy { name: string_of(&name), techniques: vec![config] }
}

/// Where a classification-guided search stands.
#[derive(Debug, Clone, Copy, PartialEq, Eq, Structural)]
pub enum MorphStage {
    /// The baseline probe is next.
    Baseline,
    /// Diagnostic probe `i` is next.
    Diag(usize),
    /// For recommended technique `k`, slot `j`: 0 is its recommended
    /// position, `j > 0` is variation `j - 1`.
    Variation(usize, usize),
    /// Confirmation probe `i` of the best strategy is next.
    Confirm(usize),
    /// The stealth variant of recommended technique `k` is next.
    Stealth(usize),
    /// Nothing more to probe.
    Finished,
}

/// A probe to run: its label, the strategy (none for the baseline), and
/// the pauses before and after it.
#[derive(Debug)]
pub struct MorphProbe {
    pub label: String,
    pub strategy: Option<Strategy>,
    pub pause_before_millis: u64,
    pub pause_after_millis: u64,
}

/// What a finished classification-guided search found.
#[derive(Debug)]
pub struct MorphOutcome {
    pub profile: DpiProfile,
    pub recommended: Vec<(String, SplitPosition)>,
    /// Classification confidence in percent.
    pub confidence: u8,
    /// The classification was not good enough: run the full search instead.
    pub full_search_instead: bool,
    pub best_strategy: Option<Strategy>,
    /// Score of the best strategy, in units of 1/200 point.
    pub best_score: u32,
    pub probes: Vec<(String, ProbeResult)>,
    /// Whether the best strategy is a stealth variant.
    pub stealth_used: bool,
}

/// The first variation slot after `j` whose position differs from the
/// recommended one (`VARIATIONS_LEN + 1` when there is none).
pub open spec fn next_slot(default: SplitPosition, j: int) -> int
    decreases VARIATIONS_LEN + 1 - j,
{
    if j >= VARIATIONS_LEN {
        VARIATIONS_LEN + 1
    } else if variation(j) != default {
        j + 1
    } else {
        next_slot(default, j + 1)
    }
}

/// The position probed in variation slot `j` of a technique recommended at
/// `default`.
pub open spec fn slot_position(default: SplitPosition, j: int) -> SplitPosition {
    if j == 0 {
        default
    } else {
        variation(j - 1)
    }
}

/// The label of a variation probe: `morph_var:`, the technique, `+`, the
/// position as `{:?}` prints it.
pub open spec fn variation_probe_label(tech: Seq<char>, pos: SplitPosition) -> Seq<u8> {
    text(seq!['m', 'o', 'r', 'p', 'h', '_', 'v', 'a', 'r', ':']) + text(tech) + text(seq!['+']) + split_debug(pos)
}

/// The label of confirmation probe `i`: `morph_confirm:` and `i + 1`.
pub open spec fn confirm_label(i: int) -> Seq<u8> {
    text(seq!['m', 'o', 'r', 'p', 'h', '_', 'c', 'o', 'n', 'f', 'i', 'r', 'm', ':']) + digits((i + 1) as nat)
}

/// The label of a stealth probe: `morph_stealth:` and the technique.
pub open spec fn stealth_label(tech: Seq<char>) -> Seq<u8> {
    text(seq!['m', 'o', 'r', 'p', 'h', '_', 's', 't', 'e', 'a', 'l', 't', 'h', ':']) + text(tech)
}

/// The label of diagnostic probe `i`: `morph:` and the technique.
pub open spec fn diag_label(i: int) -> Seq<u8> {
    text(seq!['m', 'o', 'r', 'p', 'h', ':']) + text(diag_technique(i).spec_name())
}

/// The SNI mode of diagnostic probe `i`.
pub open spec fn diag_mode(i: int) -> Option<Seq<char>> {
    if i == 2 {
        Some(mixed_case())
    } else {
        None
    }
}

/// The diagnostic results with probe `i`'s result filled in.
pub open spec fn with_diag(d: DiagProbes, i: int, r: ProbeResult) -> DiagProbes {
    if i == 0 {
        DiagProbes { tls_record_frag: Some(r), ..d }
    } else if i == 1 {
        DiagProbes { tcp_split: Some(r), ..d }
    } else if i == 2 {
        DiagProbes { sni_manip: Some(r), ..d }
    } else {
        DiagProbes { disorder: Some(r), ..d }
    }
}

/// The classification-guided search for one domain.
pub struct MorphSearch {
    max_probes: usize,
    stealth: StealthConfig,
    stage: MorphStage,
    refused: bool,
    diag: DiagProbes,
    profile: DpiProfile,
    recs: Vec<DiagTechnique>,
    confidence: u8,
    full_search: bool,
    best: Option<(usize, SplitPosition, bool)>,
    best_score: u32,
    confirm_ok: usize,
    stealth_used: bool,
    probes: Vec<(String, ProbeResult)>,
}

/// The stage after the variations: confirm the best strategy, or try the
/// stealth variants when there is none.
pub open spec fn after_variations(best: Option<(usize, SplitPosition, bool)>) -> MorphStage {
    if best is Some {
        MorphStage::Confirm(0)
    } else {
        MorphStage::Stealth(0)
    }
}

/// The best strategy and score after a probe of technique `k` at `pos`
/// (`stealth` for a stealth variant): replaced when the probe succeeded
/// with a higher score.
pub open spec fn improved(
    best: Option<(usize, SplitPosition, bool)>,
    score: u32,
    k: usize,
    pos: SplitPosition,
    stealth: bool,
    r: ProbeResult,
) -> (Option<(usize, SplitPosition, bool)>, u32) {
    if r.success && spec_score(r, 1) > score {
        (Some((k, pos, stealth)), spec_score(r, 1) as u32)
    } else {
        (best, score)
    }
}

/// The stage after the probe in variation slot `j` of technique `k`: the
/// next slot; or, when this technique's slots are done or the probe
/// budget is spent, the next technique, unless a strategy scoring over 80
/// points was found, the budget is spent or this was the last technique.
pub open spec fn after_slot(
    k: usize,
    j: usize,
    spent: bool,
    n_recs: int,
    best: Option<(usize, SplitPosition, bool)>,
    score: u32,
) -> MorphStage {
    let nxt = if j > 0 && spent { VARIATIONS_LEN + 1 } else { next_slot(SplitPosition::Sni, j as int) };
    if nxt <= VARIATIONS_LEN {
        MorphStage::Variation(k, nxt as usize)
    } else if (best is Some && score > 16000) || spent || k + 1 >= n_recs {
        after_variations(best)
    } else {
        MorphStage::Variation((k + 1) as usize, 0)
    }
}

/// Whether two probe results agree: success, latency and error text.
pub open spec fn same_probe(a: ProbeResult, b: ProbeResult) -> bool {
    a.success == b.success && a.latency_nanos == b.latency_nanos && opt_str_view(a.error) == opt_str_view(b.error)
}

/// Whether two optional probe results agree.
pub open spec fn same_opt_probe(a: Option<ProbeResult>, b: Option<ProbeResult>) -> bool {
    match (a, b) {
        (Some(x), Some(y)) => same_probe(x, y),
        (None, None) => true,
        _ => false,
    }
}

/// Whether two sets of diagnostic results agree.
pub open spec fn same_diag(a: DiagProbes, b: DiagProbes) -> bool {
    &&& same_opt_probe(a.tls_record_frag, b.tls_record_frag)
    &&& same_opt_probe(a.tcp_split, b.tcp_split)
    &&& same_opt_probe(a.sni_manip, b.sni_manip)
    &&& same_opt_probe(a.disorder, b.disorder)
}

/// The technique names of diagnostic probe records: the baseline, then
/// the four diagnostic techniques.
pub open spec fn diag_record_name(t: int) -> Seq<char> {
    if t == 0 {
        seq!['b', 'a', 's', 'e', 'l', 'i', 'n', 'e']
    } else {
        diag_technique(t - 1).spec_name()
    }
}

impl MorphSearch {
    /// The search's internal invariant.
    pub closed spec fn wf(&self) -> bool {
        &&& match self.stage {
            MorphStage::Diag(i) => i < 4 && self.probes@.len() == 1 + i && self.confirm_ok == 0 && self.best is None
                && !self.full_search,
            MorphStage::Variation(k, j) => k < self.recs@.len() && j <= VARIATIONS_LEN && self.confirm_ok == 0,
            MorphStage::Confirm(i) => i < 2 && self.best is Some && self.confirm_ok <= i,
            MorphStage::Stealth(k) => k < self.recs@.len(),
            MorphStage::Baseline => self.probes@.len() == 0 && self.confirm_ok == 0 && self.best is None
                && !self.full_search,
            MorphStage::Finished => true,
        }
        &&& self.best matches Some(b) ==> b.0 < self.recs@.len()
        &&& self.best_score <= 20000
        &&& self.confirm_ok <= 2
    }

    pub closed spec fn stage(&self) -> MorphStage {
        self.stage
    }

    /// Whether `s` is the strategy of the best result so far.
    pub open spec fn is_best_strategy(&self, s: Strategy) -> bool {
        match self.best() {
            Some((k, pos, stealth)) => is_morph_strategy(
                s,
                self.recs()[k as int].spec_name(),
                pos,
                None,
                if stealth {
                    Some(self.stealth_config())
                } else {
                    None
                },
            ),
            None => false,
        }
    }

    pub closed spec fn recs(&self) -> Seq<DiagTechnique> {
        self.recs@
    }

    pub closed spec fn best(&self) -> Option<(usize, SplitPosition, bool)> {
        self.best
    }

    pub closed spec fn best_score(&self) -> u32 {
        self.best_score
    }

    pub closed spec fn confirmations(&self) -> usize {
        self.confirm_ok
    }

    pub closed spec fn recorded(&self) -> Seq<(String, ProbeResult)> {
        self.probes@
    }

    pub closed spec fn profile(&self) -> DpiProfile {
        self.profile
    }

    pub closed spec fn confidence(&self) -> u8 {
        self.confidence
    }

    pub closed spec fn full_search(&self) -> bool {
        self.full_search
    }

    pub closed spec fn diag(&self) -> DiagProbes {
        self.diag
    }

    pub closed spec fn refused(&self) -> bool {
        self.refused
    }

    pub closed spec fn max_probes(&self) -> usize {
        self.max_probes
    }

    pub closed spec fn stealth_config(&self) -> StealthConfig {
        self.stealth
    }

    pub closed spec fn stealth_used(&self) -> bool {
        self.stealth_used
    }

    /// A search that spends at most `max_probes` probes on variations and
    /// stealth variants, trying `stealth` for the latter.
    pub fn new(max_probes: usize, stealth: StealthConfig) -> (r: Self)
        ensures
            r.wf(),
            r.stage() == MorphStage::Baseline,
            r.max_probes() == max_probes,
            r.stealth_config() == stealth,
            r.recorded().len() == 0,
            r.best() is None,
            r.best_score() == 0,
            !r.full_search(),
            !r.stealth_used(),
            r.confirmations() == 0,
    {
        MorphSearch {
            max_probes,
            stealth,
            stage: MorphStage::Baseline,
            refused: false,
            diag: DiagProbes { tls_record_frag: None, tcp_split: None, sni_manip: None, disorder: None },
            profile: DpiProfile::Unknown,
            recs: Vec::new(),
            confidence: 0,
            full_search: false,
            best: None,
            best_score: 0,
            confirm_ok: 0,
            stealth_used: false,
            probes: Vec::new(),
        }
    }
}

/// The label of the probe a stage plans.
pub open spec fn morph_stage_label(stage: MorphStage, recs: Seq<DiagTechnique>) -> Seq<u8> {
    match stage {
        MorphStage::Baseline => text(seq!['m', 'o', 'r', 'p', 'h', ':', 'b', 'a', 's', 'e', 'l', 'i', 'n', 'e']),
        MorphStage::Diag(i) => diag_label(i as int),
        MorphStage::Variation(k, j) => variation_probe_label(
            recs[k as int].spec_name(),
            slot_position(SplitPosition::Sni, j as int),
        ),
        MorphStage::Confirm(i) => confirm_label(i as int),
        MorphStage::Stealth(k) => stealth_label(recs[k as int].spec_name()),
        MorphStage::Finished => Seq::empty(),
    }
}

fn diag_technique_at(i: usize) -> (r: DiagTechnique)
    requires
        i < 4,
    ensures
        r == diag_technique(i as int),
{
    if i == 0 {
        DiagTechnique::TlsRecordFrag
    } else if i == 1 {
        DiagTechnique::TcpSplit
    } else if i == 2 {
        DiagTechnique::SniManip
    } else {
        DiagTechnique::Disorder
    }
}

fn slot_position_at(j: usize) -> (r: SplitPosition)
    requires
        j <= VARIATIONS_LEN,
    ensures
        r == slot_position(SplitPosition::Sni, j as int),
{
    if j == 0 {
        SplitPosition::Sni
    } else {
        variation_position(j - 1)
    }
}

impl MorphSearch {
    fn stage_label_bytes(&self) -> (r: Vec<u8>)
        requires
            self.wf(),
        ensures
            r@ == morph_stage_label(self.stage(), self.recs()),
            all_ascii(r@),
    {
        let mut out: Vec<u8> = Vec::new();
        match self.stage {
            MorphStage::Baseline => {
                let t = "morph:baseline";
                proof {
                    reveal_strlit("morph:baseline");
                }
                push_text(&mut out, t);
            },
            MorphStage::Diag(i) => {
                let t = "morph:";
                proof {
                    reveal_strlit("morph:");
                }
                push_text(&mut out, t);
                push_text(&mut out, diag_technique_at(i).name());
            },
            MorphStage::Variation(k, j) => {
                let t = "morph_var:";
                let plus = "+";
                proof {
                    reveal_strlit("morph_var:");
                    reveal_strlit("+");
                }
                push_text(&mut out, t);
                push_text(&mut out, self.recs[k].name());
                push_text(&mut out, plus);
                push_split_debug(&mut out, &slot_position_at(j));
            },
            MorphStage::Confirm(i) => {
                let t = "morph_confirm:";
                proof {
                    reveal_strlit("morph_confirm:");
                }
                push_text(&mut out, t);
                push_digits(&mut out, (i + 1) as u64);
            },
            MorphStage::Stealth(k) => {
                let t = "morph_stealth:";
                proof {
                    reveal_strlit("morph_stealth:");
                }
                push_text(&mut out, t);
                push_text(&mut out, self.recs[k].name());
            },
            MorphStage::Finished => {},
        }
        out
    }

    /// The next probe to run, or `None` once the search is finished.
    pub fn next_probe(&self) -> (r: Option<MorphProbe>)
        requires
            self.wf(),
        ensures
            self.stage() == MorphStage::Finished <==> r is None,
            r matches Some(p) ==> encode_utf8(p.label@) == morph_stage_label(self.stage(), self.recs()),
            match self.stage() {
                MorphStage::Baseline => r matches Some(p) && p.strategy is None && p.pause_before_millis == 0
                    && p.pause_after_millis == 0,
                MorphStage::Diag(i) => r matches Some(p) && (p.strategy matches Some(s) && is_morph_strategy(
                    s,
                    diag_technique(i as int).spec_name(),
                    SplitPosition::Sni,
                    diag_mode(i as int),
                    None,
                )) && p.pause_before_millis == 300 && p.pause_after_millis == 0,
                MorphStage::Variation(k, j) => r matches Some(p) && (p.strategy matches Some(s) && is_morph_strategy(
                    s,
                    self.recs()[k as int].spec_name(),
                    slot_position(SplitPosition::Sni, j as int),
                    None,
                    None,
                )) && p.pause_before_millis == 0 && p.pause_after_millis == 300,
                MorphStage::Confirm(_) => r matches Some(p) && (p.strategy matches Some(s) && self.is_best_strategy(s))
                    && p.pause_before_millis == 300 && p.pause_after_millis == 0,
                MorphStage::Stealth(k) => r matches Some(p) && (p.strategy matches Some(s) && is_morph_strategy(
                    s,
                    self.recs()[k as int].spec_name(),
                    SplitPosition::Sni,
                    None,
                    Some(self.stealth_config()),
                )) && p.pause_before_millis == 0 && p.pause_after_millis == 300,
                MorphStage::Finished => true,
            },
    {
        if let MorphStage::Finished = self.stage {
            return None;
        }
        let label_bytes = self.stage_label_bytes();
        proof {
            lemma_ascii_valid_utf8(label_bytes@);
        }
        let label = string_of(&label_bytes);
        match self.stage {
            MorphStage::Baseline => Some(
                MorphProbe { label, strategy: None, pause_before_millis: 0, pause_after_millis: 0 },
            ),
            MorphStage::Diag(i) => {
                let t = diag_technique_at(i);
                let mode = if i == 2 {
                    let m = "mixed_case";
                    proof {
                        reveal_strlit("mixed_case");
                    }
                    Some(m.to_owned())
                } else {
                    None
                };
                assert(opt_str_view(mode) == diag_mode(i as int));
                let strategy = make_strategy(t.name(), SplitPosition::Sni, mode, None);
                let r = Some(MorphProbe { label, strategy: Some(strategy), pause_before_millis: 300, pause_after_millis: 0 });
                assert(r matches Some(p) && (p.strategy matches Some(s) && is_morph_strategy(
                    s,
                    diag_technique(i as int).spec_name(),
                    SplitPosition::Sni,
                    diag_mode(i as int),
                    None,
                )));
                r
            },
            MorphStage::Variation(k, j) => {
                let strategy = make_strategy(self.recs[k].name(), slot_position_at(j), None, None);
                let r = Some(MorphProbe { label, strategy: Some(strategy), pause_before_millis: 0, pause_after_millis: 300 });
                assert(r matches Some(p) && (p.strategy matches Some(s) && is_morph_strategy(
                    s,
                    self.recs()[k as int].spec_name(),
                    slot_position(SplitPosition::Sni, j as int),
                    None,
                    None,
                )));
                r
            },
            MorphStage::Confirm(_) => {
                let strategy = self.best_strategy();
                Some(MorphProbe { label, strategy: Some(strategy), pause_before_millis: 300, pause_after_millis: 0 })
            },
            MorphStage::Stealth(k) => {
                let strategy = make_strategy(self.recs[k].name(), SplitPosition::Sni, None, Some(self.stealth.duplicate()));
                let r = Some(MorphProbe { label, strategy: Some(strategy), pause_before_millis: 0, pause_after_millis: 300 });
                assert(r matches Some(p) && (p.strategy matches Some(s) && is_morph_strategy(
                    s,
                    self.recs()[k as int].spec_name(),
                    SplitPosition::Sni,
                    None,
                    Some(self.stealth_config()),
                )));
                r
            },
            MorphStage::Finished => None,
        }
    }

    /// The strategy of the best result so far.
    fn best_strategy(&self) -> (r: Strategy)
        requires
            self.wf(),
            self.best() is Some,
        ensures
            self.is_best_strategy(r),
    {
        match &self.best {
            Some((k, pos, stealth)) => {
                let st = if *stealth {
                    Some(self.stealth.duplicate())
                } else {
                    None
                };
                make_strategy(self.recs[*k].name(), pos.duplicate(), None, st)
            },
            None => {
                proof {
                    assert(false);
                }
                make_strategy("", SplitPosition::Sni, None, None)
            },
        }
    }
}

fn next_slot_at(j: usize) -> (r: usize)
    requires
        j <= VARIATIONS_LEN,
    ensures
        r == next_slot(SplitPosition::Sni, j as int),
{
    if j >= VARIATIONS_LEN {
        VARIATIONS_LEN + 1
    } else if j == 0 {
        assert(next_slot(SplitPosition::Sni, 1) == 2);
        2
    } else {
        assert(variation(j as int) != SplitPosition::Sni);
        j + 1
    }
}

fn is_refused(r: &ProbeResult) -> (b: bool)
    ensures
        b == refused(*r),
{
    match &r.error {
        Some(e) => {
            let needle = "onnection refused";
            proof {
                reveal_strlit("onnection refused");
                vstd::string::is_ascii_spec_bytes(needle);
            }
            let nb = needle.as_bytes();
            assert(nb@ =~= refused_text());
            contains_bytes(e.as_str().as_bytes(), nb)
        },
        None => false,
    }
}

impl MorphSearch {
    /// Record the result of the planned probe; the probe results to save
    /// for the domain, if any (the baseline and diagnostic probes, once
    /// classification is done).
    pub fn record(&mut self, result: ProbeResult) -> (r: Vec<TestRecord>)
        requires
            old(self).wf(),
            old(self).stage() != MorphStage::Finished,
        ensures
            final(self).wf(),
            final(self).max_probes() == old(self).max_probes(),
            final(self).stealth_config() == old(self).stealth_config(),
            final(self).recorded().len() == old(self).recorded().len() + 1,
            final(self).recorded().subrange(0, old(self).recorded().len() as int) == old(self).recorded(),
            encode_utf8(final(self).recorded().last().0@) == morph_stage_label(old(self).stage(), old(self).recs()),
            final(self).recorded().last().1 == result,
            match old(self).stage() {
                MorphStage::Baseline => {
                    &&& r@.len() == 0
                    &&& final(self).best() is None && final(self).best_score() == old(self).best_score()
                    &&& if result.success {
                        &&& final(self).stage() == MorphStage::Finished
                        &&& final(self).profile() == DpiProfile::Permissive
                        &&& final(self).recs().len() == 0
                        &&& final(self).confidence() == 100
                        &&& !final(self).full_search()
                    } else {
                        final(self).stage() == MorphStage::Diag(0) && final(self).refused() == refused(result)
                            && final(self).recs() == old(self).recs()
                    }
                },
                MorphStage::Diag(i) => {
                    &&& same_diag(final(self).diag(), with_diag(old(self).diag(), i as int, result))
                    &&& final(self).best() == old(self).best() && final(self).best_score() == old(self).best_score()
                    &&& if i < 3 {
                        &&& final(self).stage() == MorphStage::Diag((i + 1) as usize)
                        &&& r@.len() == 0
                        &&& final(self).refused() == old(self).refused()
                        &&& final(self).recs() == old(self).recs()
                    } else {
                        let c = spec_classify(final(self).diag(), old(self).refused());
                        let stop = c.0 == DpiProfile::IpBlocked || (c.0 == DpiProfile::Permissive && c.1.len() == 0);
                        let weak = c.2 < 50 || c.1.len() == 0;
                        &&& final(self).profile() == c.0
                        &&& final(self).recs() == c.1
                        &&& final(self).confidence() == c.2
                        &&& final(self).full_search() == (!stop && weak)
                        &&& final(self).stage() == if stop || weak {
                            MorphStage::Finished
                        } else {
                            MorphStage::Variation(0, 0)
                        }
                        &&& r@.len() == 5
                        &&& forall|t: int| 0 <= t < 5 ==> saves(#[trigger] r@[t], diag_record_name(t), final(self).recorded()[t].1)
                    }
                },
                MorphStage::Variation(k, j) => {
                    &&& r@.len() == 0
                    &&& final(self).recs() == old(self).recs()
                    &&& (final(self).best(), final(self).best_score()) == improved(
                        old(self).best(),
                        old(self).best_score(),
                        k,
                        slot_position(SplitPosition::Sni, j as int),
                        false,
                        result,
                    )
                    &&& final(self).stage() == after_slot(
                        k,
                        j,
                        old(self).recorded().len() + 1 >= old(self).max_probes(),
                        old(self).recs().len() as int,
                        final(self).best(),
                        final(self).best_score(),
                    )
                },
                MorphStage::Confirm(i) => {
                    &&& r@.len() == 0
                    &&& final(self).recs() == old(self).recs()
                    &&& final(self).confirmations() == old(self).confirmations() + if result.success { 1int } else { 0 }
                    &&& if i == 0 {
                        &&& final(self).stage() == MorphStage::Confirm(1)
                        &&& final(self).best() == old(self).best()
                        &&& final(self).best_score() == old(self).best_score()
                    } else {
                        let ok = final(self).confirmations();
                        &&& final(self).best_score() == if ok == 0 {
                            0
                        } else if ok < 2 {
                            old(self).best_score() * ok / 2
                        } else {
                            old(self).best_score() as int
                        }
                        &&& final(self).best() == if ok == 0 { None } else { old(self).best() }
                        &&& final(self).stage() == if ok == 0 { MorphStage::Stealth(0) } else { MorphStage::Finished }
                    }
                },
                MorphStage::Stealth(k) => {
                    &&& r@.len() == 0
                    &&& final(self).recs() == old(self).recs()
                    &&& (final(self).best(), final(self).best_score()) == improved(
                        old(self).best(),
                        old(self).best_score(),
                        k,
                        SplitPosition::Sni,
                        true,
                        result,
                    )
                    &&& final(self).stealth_used() == (old(self).stealth_used() || (result.success && spec_score(result, 1)
                        > old(self).best_score()))
                    &&& final(self).stage() == if old(self).recorded().len() + 1 >= old(self).max_probes() || k + 1
                        >= old(self).recs().len() {
                        MorphStage::Finished
                    } else {
                        MorphStage::Stealth((k + 1) as usize)
                    }
                },
                MorphStage::Finished => true,
            },
    {
        let label_bytes = self.stage_label_bytes();
        proof {
            lemma_ascii_valid_utf8(label_bytes@);
        }
        let label = string_of(&label_bytes);
        let score = compute_score(&result, 1);
        let success = result.success;
        let refused_now = is_refused(&result);
        let saved_result = ProbeResult {
            success: result.success,
            latency_nanos: result.latency_nanos,
            error: copy_error(&result.error),
        };
        self.probes.push((label, result));
        let mut records: Vec<TestRecord> = Vec::new();
        match self.stage {
            MorphStage::Baseline => {
                if success {
                    self.profile = DpiProfile::Permissive;
                    self.recs = Vec::new();
                    self.confidence = 100;
                    self.stage = MorphStage::Finished;
                } else {
                    self.refused = refused_now;
                    self.stage = MorphStage::Diag(0);
                }
            },
            MorphStage::Diag(i) => {
                if i == 0 {
                    self.diag.tls_record_frag = Some(saved_result);
                } else if i == 1 {
                    self.diag.tcp_split = Some(saved_result);
                } else if i == 2 {
                    self.diag.sni_manip = Some(saved_result);
                } else {
                    self.diag.disorder = Some(saved_result);
                }
                if i < 3 {
                    self.stage = MorphStage::Diag(i + 1);
                } else {
                    let (profile, ts, confidence) = classify_techniques(&self.diag, self.refused);
                    let stop = matches!(profile, DpiProfile::IpBlocked) || (matches!(profile, DpiProfile::Permissive)
                        && ts.len() == 0);
                    let weak = confidence < 50 || ts.len() == 0;
                    self.profile = profile;
                    self.recs = ts;
                    self.confidence = confidence;
                    self.full_search = !stop && weak;
                    if stop || weak {
                        self.stage = MorphStage::Finished;
                    } else {
                        self.stage = MorphStage::Variation(0, 0);
                    }
                    let mut t: usize = 0;
                    while t < 5
                        invariant
                            t <= 5,
                            self.probes@.len() == 5,
                            records@.len() == t,
                            forall|u: int| 0 <= u < t ==> saves(#[trigger] records@[u], diag_record_name(u), self.probes@[u].1),
                        decreases 5 - t,
                    {
                        let name: &str = if t == 0 {
                            let b = "baseline";
                            proof {
                                reveal_strlit("baseline");
                            }
                            b
                        } else {
                            diag_technique_at(t - 1).name()
                        };
                        assert(name@ == diag_record_name(t as int));
                        let probe = &self.probes[t].1;
                        records.push(TestRecord {
                            technique: name.to_owned(),
                            success: probe.success,
                            latency_millis: millis_of(probe),
                            error: copy_error(&probe.error),
                        });
                        t = t + 1;
                    }
                }
            },
            MorphStage::Variation(k, j) => {
                assert(k < self.recs@.len() && j <= VARIATIONS_LEN);
                if success && score > self.best_score {
                    self.best = Some((k, slot_position_at(j), false));
                    self.best_score = score;
                }
                let spent = self.probes.len() >= self.max_probes;
                let nxt = if j > 0 && spent {
                    VARIATIONS_LEN + 1
                } else {
                    next_slot_at(j)
                };
                if nxt <= VARIATIONS_LEN {
                    self.stage = MorphStage::Variation(k, nxt);
                } else if (self.best.is_some() && self.best_score > 16000) || spent || self.recs.len() - k <= 1 {
                    if self.best.is_some() {
                        self.stage = MorphStage::Confirm(0);
                    } else {
                        self.stage = MorphStage::Stealth(0);
                    }
                } else {
                    self.stage = MorphStage::Variation(k + 1, 0);
                }
            },
            MorphStage::Confirm(i) => {
                assert(self.best_score <= 20000 && self.confirm_ok <= i && i < 2);
                if success {
                    self.confirm_ok = self.confirm_ok + 1;
                }
                if i == 0 {
                    self.stage = MorphStage::Confirm(1);
                } else {
                    let ok = self.confirm_ok;
                    if ok == 0 {
                        self.best = None;
                        self.best_score = 0;
                        self.stage = MorphStage::Stealth(0);
                    } else {
                        if ok < 2 {
                            assert(ok == 1);
                            self.best_score = self.best_score / 2;
                        }
                        self.stage = MorphStage::Finished;
                    }
                }
            },
            MorphStage::Stealth(k) => {
                assert(k < self.recs@.len());
                if success && score > self.best_score {
                    self.best = Some((k, SplitPosition::Sni, true));
                    self.best_score = score;
                    self.stealth_used = true;
                }
                if self.probes.len() >= self.max_probes || self.recs.len() - k <= 1 {
                    self.stage = MorphStage::Finished;
                } else {
                    self.stage = MorphStage::Stealth(k + 1);
                }
            },
            MorphStage::Finished => {},
        }
        records
    }
}

impl MorphSearch {
    /// What the finished search found: the classification, the best
    /// strategy with its score, every probe, and whether the full search
    /// should run instead.
    pub fn into_outcome(self) -> (r: MorphOutcome)
        requires
            self.wf(),
            self.stage() == MorphStage::Finished,
        ensures
            r.profile == self.profile(),
            recommends_all(r.recommended@, self.recs()),
            r.confidence == self.confidence(),
            r.full_search_instead == self.full_search(),
            r.best_score == self.best_score(),
            r.probes@ == self.recorded(),
            r.stealth_used == self.stealth_used(),
            match r.best_strategy {
                Some(s) => self.is_best_strategy(s),
                None => self.best() is None,
            },
    {
        let best_strategy = if self.best.is_some() {
            Some(self.best_strategy())
        } else {
            None
        };
        let recommended = to_recommendations(&self.recs);
        MorphOutcome {
            profile: self.profile,
            recommended,
            confidence: self.confidence,
            full_search_instead: self.full_search,
            best_strategy,
            best_score: self.best_score,
            probes: self.probes,
            stealth_used: self.stealth_used,
        }
    }
}

} // verus!
