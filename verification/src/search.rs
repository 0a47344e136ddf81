//! Full strategy search for a domain, as a state machine: the caller runs
//! each planned probe (and the pause after it), reports its result, and
//! saves what it is told to save; the search decides what to try next and
//! which strategy wins.
//!
//! 1. A baseline probe without desync: if it succeeds the domain is not
//!    blocked and the search ends.
//! 2. Each of five techniques at the SNI position.
//! 3. For each technique that worked, six more split positions.
//! 4. When two or more techniques worked, the two best of them combined in
//!    one strategy (scored with two techniques).
//! 5. The best successful variation wins, or the combination when it
//!    scores higher; without either, the first technique that worked.

use vstd::prelude::*;
use vstd::utf8::{encode_utf8, encode_utf8_valid_utf8, decode_utf8_encode_utf8, valid_utf8, valid_utf8_concat};
use crate::bytes::{all_ascii, lemma_ascii_valid_utf8, utf8_lossy_string};
use crate::morphing::ProbeResult;
use crate::strategy::Strategy;
use crate::technique::TechniqueConfig;
use crate::text::{push_split_debug, push_text, split_debug, text};
use crate::types::{opt_str_view, SplitPosition, StealthConfig};

verus! {

/// A probe's score, in units of 1/200 point, for a strategy of
/// `complexity` techniques: a failure scores 0; a success scores 100 points
/// less a hundredth of a point per millisecond of latency and two points
/// per technique, and at least 1 point.
pub open spec fn spec_score(r: ProbeResult, complexity: int) -> int {
    if !r.success {
        0
    } else {
        let ms = r.latency_nanos / 1_000_000;
        let raw = 20000 - 2 * ms - 400 * complexity;
        if raw < 200 {
            200
        } else {
            raw
        }
    }
}

/// Score a probe result of a strategy with `complexity` techniques (see
/// `spec_score`).
pub fn compute_score(r: &ProbeResult, complexity: usize) -> (s: u32)
    ensures
        s == spec_score(*r, complexity as int),
{
    if !r.success {
        return 0;
    }
    let ms = r.latency_nanos / 1_000_000;
    if ms >= 9900 {
        return 200;
    }
    let penalty: u128 = 2 * ms + 400 * (complexity as u128);
    if penalty + 200 > 20000 {
        200
    } else {
        (20000 - penalty) as u32
    }
}

/// Latency in whole milliseconds, saturating at `u64::MAX`.
pub open spec fn latency_millis(r: ProbeResult) -> u64 {
    let ms = r.latency_nanos / 1_000_000;
    if ms > u64::MAX {
        u64::MAX
    } else {
        ms as u64
    }
}

/// The techniques tried one at a time at the SNI position, in order.
pub open spec fn sweep_technique(i: int) -> Seq<char> {
    if i == 0 {
        seq!['t', 'c', 'p', '_', 's', 'p', 'l', 'i', 't']
    } else if i == 1 {
        seq!['t', 'l', 's', '_', 'r', 'e', 'c', 'o', 'r', 'd', '_', 'f', 'r', 'a', 'g']
    } else if i == 2 {
        seq!['d', 'i', 's', 'o', 'r', 'd', 'e', 'r']
    } else if i == 3 {
        seq!['f', 'a', 'k', 'e', '_', 'p', 'a', 'c', 'k', 'e', 't']
    } else {
        seq!['s', 'n', 'i', '_', 'm', 'a', 'n', 'i', 'p']
    }
}

/// Number of techniques in the sweep.
pub const SWEEP_LEN: usize = 5;
/// Number of split positions in the variation list (the first, the SNI
/// position, is the one already tried in the sweep).
pub const VARIATIONS_LEN: usize = 7;

/// The split positions tried for a technique that works.
pub open spec fn variation(v: int) -> SplitPosition {
    if v == 0 {
        SplitPosition::Sni
    } else if v == 1 {
        SplitPosition::SniOffset(-1i32)
    } else if v == 2 {
        SplitPosition::SniOffset(-2i32)
    } else if v == 3 {
        SplitPosition::SniOffset(1i32)
    } else if v == 4 {
        SplitPosition::Absolute(1usize)
    } else if v == 5 {
        SplitPosition::Absolute(3usize)
    } else {
        SplitPosition::Absolute(5usize)
    }
}

/// The technique name of sweep entry `i`.
pub fn sweep_technique_name(i: usize) -> (r: &'static str)
    requires
        i < SWEEP_LEN,
    ensures
        r@ == sweep_technique(i as int),
        r.is_ascii(),
{
    if i == 0 {
        let s = "tcp_split";
        proof {
            reveal_strlit("tcp_split");
        }
        s
    } else if i == 1 {
        let s = "tls_record_frag";
        proof {
            reveal_strlit("tls_record_frag");
        }
        s
    } else if i == 2 {
        let s = "disorder";
        proof {
            reveal_strlit("disorder");
        }
        s
    } else if i == 3 {
        let s = "fake_packet";
        proof {
            reveal_strlit("fake_packet");
        }
        s
    } else {
        let s = "sni_manip";
        proof {
            reveal_strlit("sni_manip");
        }
        s
    }
}

/// Split position `v` of the variation list.
pub fn variation_position(v: usize) -> (r: SplitPosition)
    requires
        v < VARIATIONS_LEN,
    ensures
        r == variation(v as int),
{
    if v == 0 {
        SplitPosition::Sni
    } else if v == 1 {
        SplitPosition::SniOffset(-1)
    } else if v == 2 {
        SplitPosition::SniOffset(-2)
    } else if v == 3 {
        SplitPosition::SniOffset(1)
    } else if v == 4 {
        SplitPosition::Absolute(1)
    } else if v == 5 {
        SplitPosition::Absolute(3)
    } else {
        SplitPosition::Absolute(5)
    }
}

/// Whether `s` is the strategy named `name` (by its bytes) of the single
/// enabled technique `tech` at `pos`, with `stealth` and no other option.
pub open spec fn is_single(s: Strategy, name: Seq<u8>, tech: Seq<char>, pos: SplitPosition, stealth: Option<StealthConfig>) -> bool {
    &&& encode_utf8(s.name@) == name
    &&& s.techniques@.len() == 1
    &&& s.techniques@[0].name@ == tech
    &&& s.techniques@[0].split_position == Some(pos)
    &&& s.techniques@[0].enabled
    &&& s.techniques@[0].fake_type is None
    &&& s.techniques@[0].sni_mode is None
    &&& s.techniques@[0].fragments is None
    &&& s.techniques@[0].host_mode is None
    &&& s.techniques@[0].stealth == stealth
    &&& s.techniques@[0].l7_filter is None
}

/// A string for bytes that are valid UTF-8.
pub fn string_of(bytes: &Vec<u8>) -> (r: String)
    requires
        valid_utf8(bytes@),
    ensures
        encode_utf8(r@) == bytes@,
{
    let r = utf8_lossy_string(bytes.as_slice());
    proof {
        decode_utf8_encode_utf8(bytes@);
    }
    r
}

/// The strategy of one enabled technique at a position.
pub fn single_technique_strategy(name: &Vec<u8>, tech: &str, pos: SplitPosition, stealth: Option<StealthConfig>) -> (r: Strategy)
    requires
        valid_utf8(name@),
    ensures
        is_single(r, name@, tech@, pos, stealth),
{
    let config = TechniqueConfig {
        name: tech.to_owned(),
        split_position: Some(pos),
        enabled: true,
        fake_type: None,
        sni_mode: None,
        fragments: None,
        host_mode: None,
        stealth,
        l7_filter: None,
    };
    Strategy { name: string_of(name), techniques: vec![config] }
}

/// `probe_` then the technique name.
pub open spec fn sweep_strategy_name(tech: Seq<char>) -> Seq<u8> {
    text(seq!['p', 'r', 'o', 'b', 'e', '_']) + text(tech)
}

/// `probe_`, the technique name, `_`, then the split position as `{:?}`
/// prints it.
pub open spec fn variation_strategy_name(tech: Seq<char>, pos: SplitPosition) -> Seq<u8> {
    text(seq!['p', 'r', 'o', 'b', 'e', '_']) + text(tech) + text(seq!['_']) + split_debug(pos)
}

/// The technique name, `+`, then the split position as `{:?}` prints it.
pub open spec fn variation_label(tech: Seq<char>, pos: SplitPosition) -> Seq<u8> {
    text(tech) + text(seq!['+']) + split_debug(pos)
}

/// `auto_`, the domain, `_`, then the technique name.
pub open spec fn fallback_strategy_name(domain: Seq<char>, tech: Seq<char>) -> Seq<u8> {
    text(seq!['a', 'u', 't', 'o', '_']) + encode_utf8(domain) + text(seq!['_']) + text(tech)
}

/// Index among the first `n` sweep winners, `skip` left out, of the
/// highest score (the earliest on ties); -1 when there is none.
pub open spec fn best_winner(ws: Seq<(usize, u32)>, n: int, skip: int) -> int
    decreases n,
{
    if n <= 0 {
        -1
    } else {
        let b = best_winner(ws, n - 1, skip);
        let k = n - 1;
        if k == skip {
            b
        } else if b < 0 || ws[k].1 > ws[b].1 {
            k
        } else {
            b
        }
    }
}

/// The two best sweep winners, by score: the best, then the best of the
/// others.
#[verifier::opaque]
pub open spec fn top_two(ws: Seq<(usize, u32)>) -> (int, int) {
    let a = best_winner(ws, ws.len() as int, -1);
    (a, best_winner(ws, ws.len() as int, a))
}

/// `combo:`, the first technique, `+`, the second.
pub open spec fn combo_label(a: Seq<char>, b: Seq<char>) -> Seq<u8> {
    text(seq!['c', 'o', 'm', 'b', 'o', ':']) + text(a) + text(seq!['+']) + text(b)
}

/// `probe_` then the combination's label.
pub open spec fn combo_strategy_name(a: Seq<char>, b: Seq<char>) -> Seq<u8> {
    text(seq!['p', 'r', 'o', 'b', 'e', '_']) + combo_label(a, b)
}

/// Whether configuration `c` is the enabled technique `tech` at the SNI
/// position with no other option.
pub open spec fn is_plain_at_sni(c: TechniqueConfig, tech: Seq<char>) -> bool {
    &&& c.name@ == tech
    &&& c.split_position == Some(SplitPosition::Sni)
    &&& c.enabled
    &&& c.fake_type is None
    &&& c.sni_mode is None
    &&& c.fragments is None
    &&& c.host_mode is None
    &&& c.stealth is None
    &&& c.l7_filter is None
}

/// Whether `s` is the strategy named `name` (by its bytes) of technique
/// `a` then technique `b`, both at the SNI position.
pub open spec fn is_pair(s: Strategy, name: Seq<u8>, a: Seq<char>, b: Seq<char>) -> bool {
    &&& encode_utf8(s.name@) == name
    &&& s.techniques@.len() == 2
    &&& is_plain_at_sni(s.techniques@[0], a)
    &&& is_plain_at_sni(s.techniques@[1], b)
}

/// The technique names of the two best sweep winners.
pub open spec fn combo_techniques(ws: Seq<(usize, u32)>) -> (Seq<char>, Seq<char>) {
    (sweep_technique(ws[top_two(ws).0].0 as int), sweep_technique(ws[top_two(ws).1].0 as int))
}

proof fn lemma_best_winner_bounds(ws: Seq<(usize, u32)>, n: int, skip: int, k: int)
    requires
        n <= ws.len(),
        0 <= k < n,
        k != skip,
    ensures
        0 <= best_winner(ws, n, skip) < n,
        best_winner(ws, n, skip) != skip,
    decreases n,
{
    if k < n - 1 {
        lemma_best_winner_bounds(ws, n - 1, skip, k);
    } else {
        lemma_best_winner_below(ws, n - 1, skip);
    }
}

proof fn lemma_best_winner_below(ws: Seq<(usize, u32)>, n: int, skip: int)
    ensures
        -1 <= best_winner(ws, n, skip) < if n > 0 { n } else { 0 },
        best_winner(ws, n, skip) != skip || skip < 0,
    decreases n,
{
    if n > 0 {
        lemma_best_winner_below(ws, n - 1, skip);
    }
}

/// The two best winners are two different winners.
proof fn lemma_top_two(ws: Seq<(usize, u32)>)
    requires
        ws.len() >= 2,
    ensures
        0 <= top_two(ws).0 < ws.len(),
        0 <= top_two(ws).1 < ws.len(),
        top_two(ws).0 != top_two(ws).1,
{
    reveal(top_two);
    let n = ws.len() as int;
    lemma_best_winner_bounds(ws, n, -1, 0);
    let a = top_two(ws).0;
    let other = if a == 0 { 1int } else { 0int };
    lemma_best_winner_bounds(ws, n, a, other);
}

/// Index of the best winner, `skip` left out.
fn best_winner_index(ws: &Vec<(usize, u32)>, skip: Option<usize>) -> (r: usize)
    requires
        ws@.len() >= 2,
        skip matches Some(k) ==> k < ws@.len(),
    ensures
        r as int == best_winner(ws@, ws@.len() as int, match skip { Some(k) => k as int, None => -1 }),
{
    let ghost sk: int = match skip { Some(k) => k as int, None => -1 };
    let mut found: Option<usize> = None;
    let mut i: usize = 0;
    while i < ws.len()
        invariant
            i <= ws@.len(),
            ws@.len() >= 2,
            sk == match skip { Some(k) => k as int, None => -1 },
            match found { Some(f) => f as int == best_winner(ws@, i as int, sk) && f < i, None => best_winner(ws@, i as int, sk) == -1 },
        decreases ws@.len() - i,
    {
        let is_skipped = match skip {
            Some(k) => k == i,
            None => false,
        };
        if !is_skipped {
            found = match found {
                Some(f) => if ws[i].1 > ws[f].1 { Some(i) } else { Some(f) },
                None => Some(i),
            };
        }
        i = i + 1;
    }
    proof {
        let other = if sk == 0 { 1int } else { 0int };
        lemma_best_winner_bounds(ws@, ws@.len() as int, sk, other);
    }
    match found {
        Some(f) => f,
        None => 0,
    }
}

/// The configuration of an enabled technique at the SNI position.
fn plain_at_sni(tech: &str) -> (c: TechniqueConfig)
    ensures
        is_plain_at_sni(c, tech@),
{
    TechniqueConfig {
        name: tech.to_owned(),
        split_position: Some(SplitPosition::Sni),
        enabled: true,
        fake_type: None,
        sni_mode: None,
        fragments: None,
        host_mode: None,
        stealth: None,
        l7_filter: None,
    }
}

/// The bytes of the combination's label.
fn combo_label_bytes(ws: &Vec<(usize, u32)>) -> (r: Vec<u8>)
    requires
        ws@.len() >= 2,
        forall|k: int| 0 <= k < ws@.len() ==> #[trigger] ws@[k].0 < SWEEP_LEN,
    ensures
        r@ == combo_label(combo_techniques(ws@).0, combo_techniques(ws@).1),
        valid_utf8(r@),
{
    proof {
        lemma_top_two(ws@);
        reveal(top_two);
    }
    let a = best_winner_index(ws, None);
    let b = best_winner_index(ws, Some(a));
    let ta = sweep_technique_name(ws[a].0);
    let tb = sweep_technique_name(ws[b].0);
    let mut label: Vec<u8> = Vec::new();
    let head = "combo:";
    let plus = "+";
    proof {
        reveal_strlit("combo:");
        reveal_strlit("+");
    }
    push_text(&mut label, head);
    push_text(&mut label, ta);
    push_text(&mut label, plus);
    push_text(&mut label, tb);
    proof {
        lemma_ascii_valid_utf8(label@);
    }
    assert(label@ =~= combo_label(ta@, tb@));
    label
}

/// The label and the strategy of the combination of the two best sweep
/// winners.
fn combo_probe(ws: &Vec<(usize, u32)>) -> (r: (String, Strategy))
    requires
        ws@.len() >= 2,
        forall|k: int| 0 <= k < ws@.len() ==> #[trigger] ws@[k].0 < SWEEP_LEN,
    ensures
        encode_utf8(r.0@) == combo_label(combo_techniques(ws@).0, combo_techniques(ws@).1),
        is_pair(r.1, combo_strategy_name(combo_techniques(ws@).0, combo_techniques(ws@).1), combo_techniques(ws@).0, combo_techniques(ws@).1),
{
    proof {
        lemma_top_two(ws@);
        reveal(top_two);
    }
    let a = best_winner_index(ws, None);
    let b = best_winner_index(ws, Some(a));
    let ta = sweep_technique_name(ws[a].0);
    let tb = sweep_technique_name(ws[b].0);
    let label = combo_label_bytes(ws);
    let head = "combo:";
    let plus = "+";
    proof {
        reveal_strlit("combo:");
        reveal_strlit("+");
    }
    let mut name: Vec<u8> = Vec::new();
    let prefix = "probe_";
    proof {
        reveal_strlit("probe_");
    }
    push_text(&mut name, prefix);
    push_text(&mut name, head);
    push_text(&mut name, ta);
    push_text(&mut name, plus);
    push_text(&mut name, tb);
    proof {
        lemma_ascii_valid_utf8(name@);
    }
    assert(name@ =~= combo_strategy_name(ta@, tb@));
    let strategy = Strategy { name: string_of(&name), techniques: vec![plain_at_sni(ta), plain_at_sni(tb)] };
    (string_of(&label), strategy)
}

/// Where a search stands.
#[derive(Debug, Clone, Copy, PartialEq, Eq, Structural)]
pub enum Stage {
    /// The baseline probe is next.
    Baseline,
    /// Sweep entry `i` is next.
    Sweep(usize),
    /// Variation `v` of winner `w` is next.
    Variations(usize, usize),
    /// The combination of the two best sweep techniques is next.
    Combo,
    /// Nothing more to probe.
    Finished,
}

/// A probe to run: its label, the strategy to apply (none for the
/// baseline) and how long to wait after it.
#[derive(Debug)]
pub struct PlannedProbe {
    pub label: String,
    pub strategy: Option<Strategy>,
    pub pause_after_millis: u64,
}

/// A probe result to save for the domain, under a technique name.
#[derive(Debug, Clone)]
pub struct TestRecord {
    pub technique: String,
    pub success: bool,
    pub latency_millis: u64,
    pub error: Option<String>,
}

/// What a search found.
#[derive(Debug)]
pub struct SearchOutcome {
    /// The winning strategy, if any.
    pub best_strategy: Option<Strategy>,
    /// Its score, in units of 1/200 point.
    pub best_score: u32,
    /// Every probe, labelled, in the order run.
    pub probes: Vec<(String, ProbeResult)>,
}

/// The highest score among successful variation probes: the first one to
/// reach it, by winner index, variation and score.
pub open spec fn first_best(log: Seq<(usize, usize, u32)>) -> Option<(usize, usize, u32)>
    decreases log.len(),
{
    if log.len() == 0 {
        None
    } else {
        let prev = first_best(log.drop_last());
        let e = log.last();
        match prev {
            Some(b) => if e.2 > b.2 {
                Some(e)
            } else {
                Some(b)
            },
            None => Some(e),
        }
    }
}

/// The full strategy search for one domain.
pub struct FullSearch {
    domain: String,
    max_probes: usize,
    stage: Stage,
    winners: Vec<(usize, u32)>,
    best: Option<(usize, usize, u32)>,
    probes: Vec<(String, ProbeResult)>,
    successes: Ghost<Seq<(usize, usize, u32)>>,
    combo: Option<u32>,
}

impl FullSearch {
    /// The search's internal invariant: the stage, counters and best
    /// strategy agree with the probes recorded.
    pub closed spec fn wf(&self) -> bool {
        &&& self.probes@.len() <= 2 + SWEEP_LEN + SWEEP_LEN * (VARIATIONS_LEN - 1)
        &&& forall|k: int| 0 <= k < self.winners@.len() ==> #[trigger] self.winners@[k].0 < SWEEP_LEN
        &&& self.winners@.len() <= SWEEP_LEN
        &&& match self.stage {
            Stage::Baseline => self.probes@.len() == 0 && self.winners@.len() == 0,
            Stage::Sweep(i) => i < SWEEP_LEN && self.probes@.len() == 1 + i && self.winners@.len() <= i,
            Stage::Variations(w, v) => w < self.winners@.len() && 1 <= v < VARIATIONS_LEN && self.probes@.len()
                <= 1 + SWEEP_LEN + w * (VARIATIONS_LEN - 1) + (v - 1),
            Stage::Combo => self.winners@.len() >= 2 && self.probes@.len() <= 1 + SWEEP_LEN + SWEEP_LEN * (VARIATIONS_LEN - 1),
            Stage::Finished => true,
        }
        &&& (self.combo is Some ==> (self.stage is Finished && self.winners@.len() >= 2))
        &&& self.best == first_best(self.successes@)
        &&& forall|k: int| 0 <= k < self.successes@.len() ==> #[trigger] self.successes@[k].0 < SWEEP_LEN
            && self.successes@[k].1 < VARIATIONS_LEN && self.successes@[k].2 > 0
    }

    /// Where the search stands.
    pub closed spec fn stage(&self) -> Stage {
        self.stage
    }

    /// The techniques that worked in the sweep (by sweep index), with their
    /// scores, in order.
    pub closed spec fn winners(&self) -> Seq<(usize, u32)> {
        self.winners@
    }

    /// The best successful variation so far.
    pub closed spec fn best(&self) -> Option<(usize, usize, u32)> {
        self.best
    }

    /// The successful variation probes so far: winner's sweep index,
    /// variation and score.
    pub closed spec fn successes(&self) -> Seq<(usize, usize, u32)> {
        self.successes@
    }

    /// The combination's score, once its probe succeeded.
    pub closed spec fn combo(&self) -> Option<u32> {
        self.combo
    }

    /// The score the search found without the combination: the best
    /// variation's, else the first sweep winner's, else 0.
    pub open spec fn base_score(&self) -> u32 {
        match self.best() {
            Some((_, _, score)) => score,
            None => if self.winners().len() > 0 {
                self.winners()[0].1
            } else {
                0
            },
        }
    }

    /// The probes recorded so far.
    pub closed spec fn recorded(&self) -> Seq<(String, ProbeResult)> {
        self.probes@
    }

    /// The domain searched.
    pub closed spec fn domain(&self) -> Seq<char> {
        self.domain@
    }

    /// The probe budget for the variations.
    pub closed spec fn max_probes(&self) -> usize {
        self.max_probes
    }

    /// A search for `domain` that stops varying a technique once
    /// `max_probes` probes were run.
    pub fn new(domain: &str, max_probes: usize) -> (r: Self)
        ensures
            r.stage() == Stage::Baseline,
            r.domain() == domain@,
            r.max_probes() == max_probes,
            r.recorded().len() == 0,
            r.winners().len() == 0,
            r.best() is None,
            r.combo() is None,
            r.wf(),
    {
        FullSearch {
            domain: domain.to_owned(),
            max_probes,
            stage: Stage::Baseline,
            winners: Vec::new(),
            best: None,
            probes: Vec::new(),
            successes: Ghost(Seq::empty()),
            combo: None,
        }
    }

    /// The next probe to run, or `None` once the search is finished.
    pub fn next_probe(&self) -> (r: Option<PlannedProbe>)
        requires
            self.wf(),
        ensures
            match self.stage() {
                Stage::Baseline => r matches Some(p) && p.label@ == seq!['b', 'a', 's', 'e', 'l', 'i', 'n', 'e']
                    && p.strategy is None && p.pause_after_millis == 0,
                Stage::Sweep(i) => r matches Some(p) && encode_utf8(p.label@) == text(sweep_technique(i as int))
                    && (p.strategy matches Some(s) && is_single(
                    s,
                    sweep_strategy_name(sweep_technique(i as int)),
                    sweep_technique(i as int),
                    SplitPosition::Sni,
                    None,
                )) && p.pause_after_millis == 1000,
                Stage::Variations(w, v) => r matches Some(p) && encode_utf8(p.label@) == variation_label(
                    sweep_technique(self.winners()[w as int].0 as int),
                    variation(v as int),
                ) && (p.strategy matches Some(s) && is_single(
                    s,
                    variation_strategy_name(sweep_technique(self.winners()[w as int].0 as int), variation(v as int)),
                    sweep_technique(self.winners()[w as int].0 as int),
                    variation(v as int),
                    None,
                )) && p.pause_after_millis == 500,
                Stage::Combo => r matches Some(p) && encode_utf8(p.label@) == combo_label(
                    combo_techniques(self.winners()).0,
                    combo_techniques(self.winners()).1,
                ) && (p.strategy matches Some(s) && is_pair(
                    s,
                    combo_strategy_name(combo_techniques(self.winners()).0, combo_techniques(self.winners()).1),
                    combo_techniques(self.winners()).0,
                    combo_techniques(self.winners()).1,
                )) && p.pause_after_millis == 500,
                Stage::Finished => r is None,
            },
    {
        match self.stage {
            Stage::Baseline => {
                let label = "baseline";
                proof {
                    reveal_strlit("baseline");
                }
                let r = Some(PlannedProbe { label: label.to_owned(), strategy: None, pause_after_millis: 0 });
                assert(r matches Some(p) && p.label@ == seq!['b', 'a', 's', 'e', 'l', 'i', 'n', 'e']);
                r
            },
            Stage::Sweep(i) => {
                let tech = sweep_technique_name(i);
                let mut name: Vec<u8> = Vec::new();
                let prefix = "probe_";
                proof {
                    reveal_strlit("probe_");
                }
                push_text(&mut name, prefix);
                push_text(&mut name, tech);
                proof {
                    lemma_ascii_valid_utf8(name@);
                }
                let strategy = single_technique_strategy(&name, tech, SplitPosition::Sni, None);
                let label = tech.to_owned();
                proof {
                    vstd::string::is_ascii_spec_bytes(tech);
                    assert(encode_utf8(tech@) =~= text(tech@));
                }
                let r = Some(PlannedProbe { label, strategy: Some(strategy), pause_after_millis: 1000 });
                assert(r matches Some(p) && encode_utf8(p.label@) == text(sweep_technique(i as int)));
                assert(name@ == sweep_strategy_name(sweep_technique(i as int)));
                assert(r matches Some(p) && (p.strategy matches Some(s) && is_single(
                    s,
                    sweep_strategy_name(sweep_technique(i as int)),
                    sweep_technique(i as int),
                    SplitPosition::Sni,
                    None,
                )));
                r
            },
            Stage::Variations(w, v) => {
                let tech = sweep_technique_name(self.winners[w].0);
                let pos = variation_position(v);
                let mut name: Vec<u8> = Vec::new();
                let prefix = "probe_";
                let sep = "_";
                proof {
                    reveal_strlit("probe_");
                    reveal_strlit("_");
                }
                push_text(&mut name, prefix);
                push_text(&mut name, tech);
                push_text(&mut name, sep);
                push_split_debug(&mut name, &pos);
                let mut label: Vec<u8> = Vec::new();
                let plus = "+";
                proof {
                    reveal_strlit("+");
                }
                push_text(&mut label, tech);
                push_text(&mut label, plus);
                push_split_debug(&mut label, &pos);
                proof {
                    lemma_ascii_valid_utf8(name@);
                    lemma_ascii_valid_utf8(label@);
                }
                let strategy = single_technique_strategy(&name, tech, pos, None);
                let r = Some(PlannedProbe { label: string_of(&label), strategy: Some(strategy), pause_after_millis: 500 });
                assert(r matches Some(p) && encode_utf8(p.label@) == variation_label(
                    sweep_technique(self.winners()[w as int].0 as int),
                    variation(v as int),
                ));
                assert(name@ == variation_strategy_name(sweep_technique(self.winners()[w as int].0 as int), variation(v as int)));
                r
            },
            Stage::Combo => {
                let (label, strategy) = combo_probe(&self.winners);
                Some(PlannedProbe { label, strategy: Some(strategy), pause_after_millis: 500 })
            },
            Stage::Finished => None,
        }
    }
}

/// The stage after a variation probe of winner `w`: the next variation, or
/// the next winner's first one once this winner's list is done or the
/// probe budget is spent, or the combination when two or more techniques
/// worked, or the end.
pub open spec fn after_variation(w: usize, v: usize, budget_spent: bool, winners: int) -> Stage {
    if budget_spent || v + 1 >= VARIATIONS_LEN {
        if w + 1 < winners {
            Stage::Variations((w + 1) as usize, 1)
        } else if winners >= 2 {
            Stage::Combo
        } else {
            Stage::Finished
        }
    } else {
        Stage::Variations(w, (v + 1) as usize)
    }
}

/// The label of the probe a stage plans.
pub open spec fn stage_label(stage: Stage, winners: Seq<(usize, u32)>) -> Seq<u8> {
    match stage {
        Stage::Baseline => text(seq!['b', 'a', 's', 'e', 'l', 'i', 'n', 'e']),
        Stage::Sweep(i) => text(sweep_technique(i as int)),
        Stage::Variations(w, v) => variation_label(sweep_technique(winners[w as int].0 as int), variation(v as int)),
        Stage::Combo => combo_label(combo_techniques(winners).0, combo_techniques(winners).1),
        Stage::Finished => Seq::empty(),
    }
}

/// Whether `t` saves `result` under the technique name `tech`.
pub open spec fn saves(t: TestRecord, tech: Seq<char>, result: ProbeResult) -> bool {
    &&& t.technique@ == tech
    &&& t.success == result.success
    &&& t.latency_millis == latency_millis(result)
    &&& opt_str_view(t.error) == opt_str_view(result.error)
}

pub(crate) fn copy_error(e: &Option<String>) -> (r: Option<String>)
    ensures
        opt_str_view(r) == opt_str_view(*e),
{
    match e {
        Some(s) => Some(s.clone()),
        None => None,
    }
}

pub(crate) fn millis_of(r: &ProbeResult) -> (ms: u64)
    ensures
        ms == latency_millis(*r),
{
    let m = r.latency_nanos / 1_000_000;
    if m > u64::MAX as u128 {
        u64::MAX
    } else {
        m as u64
    }
}

/// The best successful variation is one of them, scores at least as much
/// as each, and exists exactly when one succeeded.
pub proof fn lemma_first_best_is_max(log: Seq<(usize, usize, u32)>)
    ensures
        first_best(log) is None <==> log.len() == 0,
        first_best(log) matches Some(b) ==> log.contains(b) && forall|k: int| 0 <= k < log.len() ==> (#[trigger] log[k]).2 <= b.2,
    decreases log.len(),
{
    if log.len() > 0 {
        let p = log.drop_last();
        lemma_first_best_is_max(p);
        let b = first_best(log)->0;
        assert forall|k: int| 0 <= k < log.len() implies (#[trigger] log[k]).2 <= b.2 by {
            if k < log.len() - 1 {
                assert(log[k] == p[k]);
            }
        }
        if b != log.last() {
            let j = choose|j: int| 0 <= j < p.len() && p[j] == b;
            assert(log[j] == b);
        } else {
            assert(log[log.len() - 1] == b);
        }
    }
}

impl FullSearch {
    /// Record the result of the planned probe; when it is to be saved for
    /// the domain, the record to save.
    pub fn record(&mut self, result: ProbeResult) -> (r: Option<TestRecord>)
        requires
            old(self).wf(),
            old(self).stage() != Stage::Finished,
        ensures
            final(self).wf(),
            final(self).domain() == old(self).domain(),
            final(self).max_probes() == old(self).max_probes(),
            final(self).recorded().len() == old(self).recorded().len() + 1,
            final(self).recorded().subrange(0, old(self).recorded().len() as int) == old(self).recorded(),
            encode_utf8(final(self).recorded().last().0@) == stage_label(old(self).stage(), old(self).winners()),
            final(self).recorded().last().1 == result,
            match old(self).stage() {
                Stage::Baseline => {
                    &&& final(self).winners() == old(self).winners()
                    &&& final(self).successes() == old(self).successes()
                    &&& if result.success {
                        &&& final(self).stage() == Stage::Finished
                        &&& r matches Some(t) && saves(t, seq!['b', 'a', 's', 'e', 'l', 'i', 'n', 'e'], result)
                    } else {
                        final(self).stage() == Stage::Sweep(0) && r is None
                    }
                },
                Stage::Sweep(i) => {
                    &&& r matches Some(t) && saves(t, sweep_technique(i as int), result)
                    &&& final(self).winners() == if result.success {
                        old(self).winners().push((i, spec_score(result, 1) as u32))
                    } else {
                        old(self).winners()
                    }
                    &&& final(self).successes() == old(self).successes()
                    &&& final(self).stage() == if i + 1 < SWEEP_LEN {
                        Stage::Sweep((i + 1) as usize)
                    } else if final(self).winners().len() == 0 {
                        Stage::Finished
                    } else {
                        Stage::Variations(0, 1)
                    }
                },
                Stage::Variations(w, v) => {
                    &&& r is None
                    &&& final(self).winners() == old(self).winners()
                    &&& final(self).successes() == if result.success {
                        old(self).successes().push((old(self).winners()[w as int].0, v, spec_score(result, 1) as u32))
                    } else {
                        old(self).successes()
                    }
                    &&& final(self).stage() == after_variation(
                        w,
                        v,
                        old(self).recorded().len() + 1 >= old(self).max_probes(),
                        old(self).winners().len() as int,
                    )
                },
                Stage::Combo => {
                    &&& r is None
                    &&& final(self).winners() == old(self).winners()
                    &&& final(self).successes() == old(self).successes()
                    &&& final(self).stage() == Stage::Finished
                    &&& final(self).combo() == if result.success {
                        Some(spec_score(result, 2) as u32)
                    } else {
                        None
                    }
                },
                Stage::Finished => true,
            },
            old(self).stage() != Stage::Combo ==> final(self).combo() == old(self).combo(),
            final(self).best() == first_best(final(self).successes()),
    {
        let ghost old_probes = self.probes@;
        let label_bytes: Vec<u8> = self.stage_label_bytes();
        let label = string_of(&label_bytes);
        let score = compute_score(&result, 1);
        let pair_score = compute_score(&result, 2);
        let success = result.success;
        let saved = TestRecord {
            technique: String::new(),
            success,
            latency_millis: millis_of(&result),
            error: copy_error(&result.error),
        };
        self.probes.push((label, result));
        match self.stage {
            Stage::Baseline => {
                if success {
                    self.stage = Stage::Finished;
                    let name = "baseline";
                    proof {
                        reveal_strlit("baseline");
                    }
                    let owned = name.to_owned();
                    assert(owned@ == seq!['b', 'a', 's', 'e', 'l', 'i', 'n', 'e']);
                    Some(TestRecord { technique: owned, ..saved })
                } else {
                    self.stage = Stage::Sweep(0);
                    None
                }
            },
            Stage::Sweep(i) => {
                let ghost before = self.winners@;
                if success {
                    self.winners.push((i, score));
                    assert forall|k: int| 0 <= k < self.winners@.len() implies #[trigger] self.winners@[k].0 < SWEEP_LEN by {
                        if k < before.len() {
                            assert(self.winners@[k] == before[k]);
                        }
                    }
                }
                if i + 1 < SWEEP_LEN {
                    self.stage = Stage::Sweep(i + 1);
                } else if self.winners.len() == 0 {
                    self.stage = Stage::Finished;
                } else {
                    self.stage = Stage::Variations(0, 1);
                }
                Some(TestRecord { technique: sweep_technique_name(i).to_owned(), ..saved })
            },
            Stage::Variations(w, v) => {
                if success {
                    let ghost log = self.successes@.push((self.winners@[w as int].0, v, score));
                    let improves = match self.best {
                        Some((_, _, b)) => score > b,
                        None => true,
                    };
                    if improves {
                        self.best = Some((self.winners[w].0, v, score));
                    }
                    proof {
                        assert(log.drop_last() =~= self.successes@);
                        assert forall|k: int| 0 <= k < log.len() implies #[trigger] log[k].0 < SWEEP_LEN && log[k].1 < VARIATIONS_LEN
                            && log[k].2 > 0 by {
                            if k < log.len() - 1 {
                                assert(log[k] == self.successes@[k]);
                            }
                        }
                    }
                    self.successes = Ghost(log);
                }
                let spent = self.probes.len() >= self.max_probes;
                if spent || v + 1 >= VARIATIONS_LEN {
                    if w + 1 < self.winners.len() {
                        self.stage = Stage::Variations(w + 1, 1);
                    } else if self.winners.len() >= 2 {
                        self.stage = Stage::Combo;
                    } else {
                        self.stage = Stage::Finished;
                    }
                } else {
                    self.stage = Stage::Variations(w, v + 1);
                }
                assert(self.probes@.len() <= 1 + SWEEP_LEN + SWEEP_LEN * (VARIATIONS_LEN - 1));
                assert(self.best == first_best(self.successes@));
                assert(match self.stage {
                    Stage::Variations(w2, v2) => w2 < self.winners@.len() && 1 <= v2 < VARIATIONS_LEN && self.probes@.len()
                        <= 1 + SWEEP_LEN + w2 * (VARIATIONS_LEN - 1) + (v2 - 1),
                    _ => true,
                });
                None
            },
            Stage::Combo => {
                self.stage = Stage::Finished;
                self.combo = if success { Some(pair_score) } else { None };
                assert(self.wf());
                None
            },
            Stage::Finished => None,
        }
    }

    /// The bytes of the label of the planned probe.
    fn stage_label_bytes(&self) -> (r: Vec<u8>)
        requires
            self.wf(),
            self.stage() != Stage::Finished,
        ensures
            r@ == stage_label(self.stage(), self.winners()),
            valid_utf8(r@),
    {
        let mut out: Vec<u8> = Vec::new();
        match self.stage {
            Stage::Baseline => {
                let t = "baseline";
                proof {
                    reveal_strlit("baseline");
                }
                push_text(&mut out, t);
            },
            Stage::Sweep(i) => {
                push_text(&mut out, sweep_technique_name(i));
            },
            Stage::Variations(w, v) => {
                let plus = "+";
                proof {
                    reveal_strlit("+");
                }
                push_text(&mut out, sweep_technique_name(self.winners[w].0));
                push_text(&mut out, plus);
                push_split_debug(&mut out, &variation_position(v));
            },
            Stage::Combo => {
                out = combo_label_bytes(&self.winners);
            },
            Stage::Finished => {},
        }
        proof {
            lemma_ascii_valid_utf8(out@);
        }
        out
    }

    /// What the finished search found: the combination when its probe
    /// succeeded and scored higher than what follows; else the best
    /// successful variation, or else the first technique that worked in
    /// the sweep (as `auto_<domain>_<technique>` at the SNI position), or
    /// nothing; and all the probes.
    pub fn into_outcome(self) -> (r: SearchOutcome)
        requires
            self.wf(),
            self.stage() == Stage::Finished,
        ensures
            r.probes@ == self.recorded(),
            if self.combo() is Some && self.combo()->0 > self.base_score() {
                (r.best_strategy matches Some(s) && is_pair(
                    s,
                    combo_strategy_name(combo_techniques(self.winners()).0, combo_techniques(self.winners()).1),
                    combo_techniques(self.winners()).0,
                    combo_techniques(self.winners()).1,
                )) && r.best_score == self.combo()->0
            } else {
                match self.best() {
                    Some((t, v, score)) => (r.best_strategy matches Some(s) && is_single(
                        s,
                        variation_strategy_name(sweep_technique(t as int), variation(v as int)),
                        sweep_technique(t as int),
                        variation(v as int),
                        None,
                    )) && r.best_score == score,
                    None => if self.winners().len() > 0 {
                        (r.best_strategy matches Some(s) && is_single(
                            s,
                            fallback_strategy_name(self.domain(), sweep_technique(self.winners()[0].0 as int)),
                            sweep_technique(self.winners()[0].0 as int),
                            SplitPosition::Sni,
                            None,
                        )) && r.best_score == self.winners()[0].1
                    } else {
                        r.best_strategy is None && r.best_score == 0
                    },
                }
            },
    {
        proof {
            lemma_first_best_is_max(self.successes@);
        }
        let (best_strategy, best_score) = match self.best {
            Some((t, v, score)) => {
                proof {
                    let k = choose|k: int| 0 <= k < self.successes@.len() && self.successes@[k] == (t, v, score);
                    assert(self.successes@[k].0 < SWEEP_LEN);
                }
                let tech = sweep_technique_name(t);
                let pos = variation_position(v);
                let mut name: Vec<u8> = Vec::new();
                let prefix = "probe_";
                let sep = "_";
                proof {
                    reveal_strlit("probe_");
                    reveal_strlit("_");
                }
                push_text(&mut name, prefix);
                push_text(&mut name, tech);
                push_text(&mut name, sep);
                push_split_debug(&mut name, &pos);
                proof {
                    lemma_ascii_valid_utf8(name@);
                }
                assert(name@ == variation_strategy_name(sweep_technique(t as int), variation(v as int)));
                (Some(single_technique_strategy(&name, tech, pos, None)), score)
            },
            None => if self.winners.len() > 0 {
                let (t, score) = self.winners[0];
                let tech = sweep_technique_name(t);
                let mut name: Vec<u8> = Vec::new();
                let prefix = "auto_";
                let sep = "_";
                proof {
                    reveal_strlit("auto_");
                    reveal_strlit("_");
                }
                push_text(&mut name, prefix);
                let ghost before_domain = name@;
                let db = self.domain.as_str().as_bytes();
                crate::bytes::extend_range(&mut name, db, 0, db.len());
                let ghost dom = encode_utf8(self.domain@);
                assert(db@.subrange(0, dom.len() as int) =~= dom);
                let ghost after_domain = name@;
                push_text(&mut name, sep);
                push_text(&mut name, tech);
                proof {
                    lemma_ascii_valid_utf8(before_domain);
                    encode_utf8_valid_utf8(self.domain@);
                    valid_utf8_concat(before_domain, dom);
                    let rest = name@.subrange(after_domain.len() as int, name@.len() as int);
                    assert(name@ =~= after_domain + rest);
                    assert(all_ascii(rest));
                    lemma_ascii_valid_utf8(rest);
                    valid_utf8_concat(after_domain, rest);
                }
                assert(name@ == fallback_strategy_name(self.domain(), sweep_technique(t as int)));
                (Some(single_technique_strategy(&name, tech, SplitPosition::Sni, None)), score)
            } else {
                (None, 0)
            },
        };
        let (best_strategy, best_score) = match self.combo {
            Some(c) => if c > best_score {
                let (_, pair) = combo_probe(&self.winners);
                (Some(pair), c)
            } else {
                (best_strategy, best_score)
            },
            None => (best_strategy, best_score),
        };
        SearchOutcome { best_strategy, best_score, probes: self.probes }
    }
}

} // verus!
