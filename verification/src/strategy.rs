//! Strategy selection: a strategy is an ordered list of technique
//! configurations; rules map domain patterns to strategies by priority;
//! domains learned to be blocked get a fallback technique even when their
//! strategy would pass them through.

use vstd::prelude::*;
use vstd::utf8::{encode_utf8, encode_utf8_decode_utf8, decode_utf8_encode_utf8, is_char_boundary_iff_not_is_continuation_byte, is_char_boundary_start_end_of_seq, encode_utf8_valid_utf8};
use crate::types::{AppProtocol, AppProtocolView, DesyncAction, Error, L7Filter, l7_filter_accepts};
use crate::context::PayloadContext;
use crate::technique::TechniqueConfig;
use crate::registry::{apply_technique_cfg, config_admits, configured_position, configured_stealth, default_techniques, registry_admits, registry_result};
use crate::bytes::{bytes_eq, eq_ignore_ascii_case, eq_ignore_case, lower_seq, range_eq_ignore_case, to_ascii_lower, ascii_lower};
use crate::registry::str_eq;

verus! {

/// The ASCII-lowercased bytes of a name, the key learned domains are kept
/// under.
pub open spec fn domain_key(domain: Seq<u8>) -> Seq<u8> {
    lower_seq(domain)
}

/// Runtime set of domains discovered to need desync (learned from early
/// resets at connection time), compared without regard to ASCII case.
#[derive(Debug)]
pub struct LearnedBlocked {
    domains: Vec<Vec<u8>>,
}

impl View for LearnedBlocked {
    type V = Seq<Seq<u8>>;

    closed spec fn view(&self) -> Seq<Seq<u8>> {
        self.domains.deep_view()
    }
}

impl LearnedBlocked {
    /// The learned keys are distinct.
    #[verifier::type_invariant]
    closed spec fn distinct(&self) -> bool {
        self.domains.deep_view().no_duplicates()
    }

    /// The set of learned domain keys.
    pub open spec fn learned(&self) -> Set<Seq<u8>> {
        self@.to_set()
    }

    /// An empty set.
    pub fn new() -> (r: Self)
        ensures
            r@ == Seq::<Seq<u8>>::empty(),
            r.learned() == Set::<Seq<u8>>::empty(),
    {
        let r = LearnedBlocked { domains: Vec::new() };
        assert(r@.to_set() =~= Set::<Seq<u8>>::empty());
        r
    }

    fn position(&self, key: &Vec<u8>) -> (r: Option<usize>)
        ensures
            match r {
                Some(i) => i < self@.len() && self@[i as int] == key@,
                None => !self@.contains(key@),
            },
    {
        let mut i: usize = 0;
        while i < self.domains.len()
            invariant
                i <= self.domains@.len(),
                forall|k: int| 0 <= k < i ==> self.domains.deep_view()[k] != key@,
            decreases self.domains@.len() - i,
        {
            proof {
                crate::bytes::lemma_bytes_deep_view(&self.domains@[i as int]);
            }
            if bytes_eq(self.domains[i].as_slice(), key.as_slice()) {
                return Some(i);
            }
            i = i + 1;
        }
        None
    }

    /// Mark a domain as learned-blocked; `true` if it was not known yet.
    pub fn insert(&mut self, domain: &str) -> (r: bool)
        ensures
            r == !old(self).learned().contains(domain_key(encode_utf8(domain@))),
            final(self).learned() == old(self).learned().insert(domain_key(encode_utf8(domain@))),
    {
        let key = lowered_bytes(domain);
        match self.position(&key) {
            Some(_) => {
                proof {
                    assert(self@.to_set().insert(key@) =~= self@.to_set());
                }
                false
            },
            None => {
                proof {
                    use_type_invariant(&*self);
                    crate::bytes::lemma_bytes_deep_view(&key);
                }
                let ghost before = self@;
                let mut v: Vec<Vec<u8>> = Vec::new();
                std::mem::swap(&mut v, &mut self.domains);
                assert(v.deep_view() == before);
                v.push(key);
                proof {
                    assert(v.deep_view() =~= before.push(domain_key(encode_utf8(domain@))));
                    assert forall|a: int, b: int| 0 <= a < v.deep_view().len() && 0 <= b < v.deep_view().len() && a != b implies v.deep_view()[a] != v.deep_view()[b] by {
                        if a < before.len() && b < before.len() {
                        } else if a < before.len() {
                            assert(before.contains(before[a]));
                        } else {
                            assert(before.contains(before[b]));
                        }
                    }
                    before.lemma_push_to_set_commute(domain_key(encode_utf8(domain@)));
                }
                *self = LearnedBlocked { domains: v };
                true
            },
        }
    }

    /// Whether a domain is known to need desync.
    pub fn contains(&self, domain: &str) -> (r: bool)
        ensures
            r == self.learned().contains(domain_key(encode_utf8(domain@))),
    {
        let key = lowered_bytes(domain);
        match self.position(&key) {
            Some(_) => true,
            None => false,
        }
    }

    /// Number of learned domains.
    pub fn len(&self) -> (r: usize)
        ensures
            r == self.learned().len(),
    {
        proof {
            use_type_invariant(self);
            self@.unique_seq_to_set();
        }
        self.domains.len()
    }

    /// Whether no domain is learned.
    pub fn is_empty(&self) -> (r: bool)
        ensures
            r == (self.learned().len() == 0),
    {
        self.len() == 0
    }
}

impl Clone for LearnedBlocked {
    fn clone(&self) -> (r: Self)
        ensures
            r@ == self@,
    {
        proof {
            use_type_invariant(self);
        }
        let mut domains: Vec<Vec<u8>> = Vec::new();
        let mut i: usize = 0;
        while i < self.domains.len()
            invariant
                i <= self.domains@.len(),
                domains.deep_view() == self.domains.deep_view().take(i as int),
            decreases self.domains@.len() - i,
        {
            let ghost old_v = domains@;
            let ghost old_dv = domains.deep_view();
            let c = crate::bytes::copy_range(self.domains[i].as_slice(), 0, self.domains[i].len());
            proof {
                assert(self.domains@[i as int]@.subrange(0, self.domains@[i as int]@.len() as int) =~= self.domains@[i as int]@);
                crate::bytes::lemma_bytes_deep_view(&c);
                crate::bytes::lemma_bytes_deep_view(&self.domains@[i as int]);
            }
            domains.push(c);
            proof {
                assert forall|j: int| 0 <= j < old_v.len() implies domains.deep_view()[j] == old_dv[j] by {
                    assert(domains@[j] == old_v[j]);
                }
                assert(old_dv.len() == old_v.len());
                assert(domains.deep_view().len() == old_v.len() + 1);
                assert(domains.deep_view()[old_v.len() as int] == self.domains.deep_view()[i as int]);
                assert forall|j: int| 0 <= j < domains.deep_view().len() implies domains.deep_view()[j] == self.domains.deep_view().take(i + 1)[j] by {
                    if j < old_v.len() {
                        assert(old_dv[j] == self.domains.deep_view().take(i as int)[j]);
                    }
                }
                assert(domains.deep_view() =~= self.domains.deep_view().take(i + 1));
            }
            i = i + 1;
        }
        assert(self.domains.deep_view().take(i as int) =~= self.domains.deep_view());
        LearnedBlocked { domains }
    }
}

impl Default for LearnedBlocked {
    fn default() -> (r: Self)
        ensures
            r.learned() == Set::<Seq<u8>>::empty(),
    {
        LearnedBlocked::new()
    }
}

/// The ASCII-lowercased bytes of a string.
pub fn lowered_bytes(s: &str) -> (r: Vec<u8>)
    ensures
        r@ == domain_key(encode_utf8(s@)),
{
    let b = s.as_bytes();
    let mut r: Vec<u8> = Vec::new();
    let mut i: usize = 0;
    while i < b.len()
        invariant
            b@ == encode_utf8(s@),
            i <= b@.len(),
            r@ == lower_seq(b@.subrange(0, i as int)),
        decreases b@.len() - i,
    {
        r.push(to_ascii_lower(b[i]));
        i = i + 1;
        assert(r@ =~= lower_seq(b@.subrange(0, i as int)));
    }
    assert(b@.subrange(0, b@.len() as int) =~= b@);
    r
}

/// A named strategy: its techniques in order.
#[derive(Debug, Clone)]
pub struct Strategy {
    pub name: String,
    pub techniques: Vec<TechniqueConfig>,
}

/// Whether a technique configuration is skipped for a detected protocol:
/// disabled, or filtered to another protocol.
pub open spec fn technique_skipped(t: TechniqueConfig, proto: AppProtocolView) -> bool {
    !t.enabled || (t.l7_filter matches Some(f) && !l7_filter_accepts(f, proto))
}

/// Whether every technique of a list, from the `i`-th on, accepts the
/// payload.
pub open spec fn techniques_admit(ts: Seq<TechniqueConfig>, ctx: &PayloadContext) -> bool {
    forall|i: int| 0 <= i < ts.len() ==> #[trigger] registry_admits(
        default_techniques(),
        ts[i].name@,
        ctx,
        configured_position(&ts[i]),
        &ts[i],
        configured_stealth(&ts[i]),
    )
}

/// Whether `r` is a result of applying the techniques from the `i`-th on:
/// the first technique not skipped that applies gives the result; one
/// that does not apply passes to the next; with none left the payload
/// passes through.
pub open spec fn strategy_result_from(ts: Seq<TechniqueConfig>, i: int, ctx: &PayloadContext, r: Result<DesyncAction, Error>) -> bool
    decreases ts.len() - i,
{
    if i < 0 || i >= ts.len() {
        r matches Ok(DesyncAction::PassThrough)
    } else if technique_skipped(ts[i], ctx.protocol@) {
        strategy_result_from(ts, i + 1, ctx, r)
    } else {
        exists|ri: Result<DesyncAction, Error>|
            #[trigger] registry_result(
                default_techniques(),
                ts[i].name@,
                ctx,
                configured_position(&ts[i]),
                &ts[i],
                configured_stealth(&ts[i]),
                ri,
            ) && match ri {
                Err(Error::NotApplicable(_)) => strategy_result_from(ts, i + 1, ctx, r),
                _ => r == ri,
            }
    }
}

fn techniques_all_admit(ts: &[TechniqueConfig], ctx: &PayloadContext) -> (r: bool)
    ensures
        r == techniques_admit(ts@, ctx),
{
    let mut i: usize = 0;
    while i < ts.len()
        invariant
            i <= ts@.len(),
            techniques_admit(ts@.subrange(0, i as int), ctx),
        decreases ts@.len() - i,
    {
        let ok = config_admits(&ts[i], ctx);
        if !ok {
            proof {
                assert(!techniques_admit(ts@, ctx)) by {
                    if techniques_admit(ts@, ctx) {
                        assert(registry_admits(
                            default_techniques(),
                            ts@[i as int].name@,
                            ctx,
                            configured_position(&ts@[i as int]),
                            &ts@[i as int],
                            configured_stealth(&ts@[i as int]),
                        ));
                    }
                }
            }
            return false;
        }
        proof {
            let pre = ts@.subrange(0, i as int);
            let next = ts@.subrange(0, i + 1);
            assert forall|k: int| 0 <= k < next.len() implies #[trigger] registry_admits(
                default_techniques(),
                next[k].name@,
                ctx,
                configured_position(&next[k]),
                &next[k],
                configured_stealth(&next[k]),
            ) by {
                if k < i {
                    assert(next[k] == pre[k]);
                }
            }
        }
        i = i + 1;
    }
    assert(ts@.subrange(0, ts@.len() as int) =~= ts@);
    true
}

impl Strategy {
    /// Whether every technique of this strategy accepts the payload
    /// wherever its split position may fall, so that `apply` may be called.
    pub fn admits(&self, ctx: &PayloadContext) -> (r: bool)
        ensures
            r == techniques_admit(self.techniques@, ctx),
    {
        techniques_all_admit(self.techniques.as_slice(), ctx)
    }

    /// Apply this strategy: the first technique that is enabled, passes its
    /// L7 filter and applies gives the result.
    pub fn apply(&self, ctx: &PayloadContext) -> (r: Result<DesyncAction, Error>)
        requires
            techniques_admit(self.techniques@, ctx),
        ensures
            strategy_result_from(self.techniques@, 0, ctx, r),
    {
        let n = self.techniques.len();
        let mut i: usize = 0;
        while i < n
            invariant
                n == self.techniques@.len(),
                i <= n,
                techniques_admit(self.techniques@, ctx),
                forall|r: Result<DesyncAction, Error>|
                    strategy_result_from(self.techniques@, i as int, ctx, r) ==> strategy_result_from(self.techniques@, 0, ctx, r),
            decreases n - i,
        {
            let tech = &self.techniques[i];
            if !tech.enabled {
                i = i + 1;
                continue;
            }
            if let Some(filter) = tech.l7_filter {
                if !filter.matches(&ctx.protocol) {
                    i = i + 1;
                    continue;
                }
            }
            assert(registry_admits(
                default_techniques(),
                self.techniques@[i as int].name@,
                ctx,
                configured_position(&self.techniques@[i as int]),
                &self.techniques@[i as int],
                configured_stealth(&self.techniques@[i as int]),
            ));
            let res = apply_technique_cfg(tech, ctx);
            match res {
                Ok(action) => return Ok(action),
                Err(Error::NotApplicable(m)) => {
                    i = i + 1;
                    continue;
                },
                Err(e) => return Err(e),
            }
        }
        Ok(DesyncAction::PassThrough)
    }
}

/// A rule that maps domain patterns to a strategy.
#[derive(Debug, Clone)]
pub struct MatchRule {
    /// Domain glob patterns (e.g., "*.youtube.com").
    pub domains: Vec<String>,
    /// Strategy name to apply when matched.
    pub strategy: String,
    /// Priority (higher wins on conflict).
    pub priority: i32,
}

/// Index of the first rule from the `i`-th on whose priority is lower than
/// `priority`.
pub open spec fn first_lower(sorted: Seq<MatchRule>, priority: i32, i: int) -> int
    decreases sorted.len() - i,
{
    if 0 <= i < sorted.len() && sorted[i].priority >= priority {
        first_lower(sorted, priority, i + 1)
    } else {
        i
    }
}

/// Rules sorted by descending priority, stably (rules of equal priority
/// keep their order).
pub open spec fn sort_rules(rules: Seq<MatchRule>) -> Seq<MatchRule>
    decreases rules.len(),
{
    if rules.len() == 0 {
        Seq::empty()
    } else {
        let sorted = sort_rules(rules.drop_last());
        sorted.insert(first_lower(sorted, rules.last().priority, 0), rules.last())
    }
}

/// The strategy registered last under `name`.
pub open spec fn strategy_named(ss: Seq<Strategy>, name: Seq<char>) -> Option<Strategy>
    decreases ss.len(),
{
    if ss.len() == 0 {
        None
    } else if ss.last().name@ == name {
        Some(ss.last())
    } else {
        strategy_named(ss.drop_last(), name)
    }
}

/// Whether one of a rule's patterns matches the domain.
pub open spec fn rule_matches(rule: MatchRule, domain: Seq<u8>) -> bool {
    exists|k: int| 0 <= k < rule.domains@.len() && #[trigger] spec_domain_matches(encode_utf8(rule.domains@[k]@), domain)
}

/// The first rule from the `i`-th on that matches the domain.
pub open spec fn first_matching_rule(rules: Seq<MatchRule>, domain: Seq<u8>, i: int) -> Option<MatchRule>
    decreases rules.len() - i,
{
    if 0 <= i < rules.len() {
        if rule_matches(rules[i], domain) {
            Some(rules[i])
        } else {
            first_matching_rule(rules, domain, i + 1)
        }
    } else {
        None
    }
}

/// Mathematical view of a [`Selector`].
pub struct SelectorView {
    pub strategies: Seq<Strategy>,
    pub rules: Seq<MatchRule>,
    pub default_strategy: Option<String>,
    pub auto_retry_fallback: Seq<TechniqueConfig>,
    pub learned: Set<Seq<u8>>,
}

/// The strategy for a domain: that of the first (highest-priority) rule
/// that matches it, else the default strategy.
pub open spec fn spec_select(v: SelectorView, domain: Option<Seq<u8>>) -> Option<Strategy> {
    let default = match v.default_strategy {
        Some(n) => strategy_named(v.strategies, n@),
        None => None,
    };
    match domain {
        Some(d) => match first_matching_rule(v.rules, d, 0) {
            Some(rule) => strategy_named(v.strategies, rule.strategy@),
            None => default,
        },
        None => default,
    }
}

/// The strategy selector: strategies, rules, default, fallback chain and
/// learned-blocked domains.
pub struct Selector {
    strategies: Vec<Strategy>,
    rules: Vec<MatchRule>,
    default_strategy: Option<String>,
    auto_retry_fallback: Vec<TechniqueConfig>,
    learned_blocked: LearnedBlocked,
}

impl View for Selector {
    type V = SelectorView;

    closed spec fn view(&self) -> SelectorView {
        SelectorView {
            strategies: self.strategies@,
            rules: self.rules@,
            default_strategy: self.default_strategy,
            auto_retry_fallback: self.auto_retry_fallback@,
            learned: self.learned_blocked.learned(),
        }
    }
}

/// Index of the first colon in `b` from `i` on, or the length.
pub open spec fn colon_index(b: Seq<u8>, i: int) -> int
    decreases b.len() - i,
{
    if 0 <= i < b.len() && b[i] != 58 {
        colon_index(b, i + 1)
    } else {
        i
    }
}

/// The bytes before the first colon (all of them without one).
pub open spec fn before_colon(b: Seq<u8>) -> Seq<u8> {
    b.subrange(0, colon_index(b, 0))
}

/// The bytes of the domain a detected protocol names: the SNI, or the Host
/// value up to its first colon.
pub open spec fn spec_extract_domain(proto: AppProtocolView) -> Option<Seq<u8>> {
    match proto {
        AppProtocolView::TlsClientHello { sni: Some(s), .. } => Some(encode_utf8(s)),
        AppProtocolView::HttpRequest { host: Some(h), .. } => Some(before_colon(encode_utf8(h))),
        _ => None,
    }
}

/// Whether `r` is a result of the selector's `apply` for a payload.
pub open spec fn selector_result(v: SelectorView, ctx: &PayloadContext, r: Result<DesyncAction, Error>) -> bool {
    let domain = spec_extract_domain(ctx.protocol@);
    exists|r0: Result<DesyncAction, Error>|
        #[trigger] selected_result(v, ctx, r0) && if r0 matches Ok(DesyncAction::PassThrough) && domain is Some && v.auto_retry_fallback.len() > 0
            && v.learned.contains(domain_key(domain->0)) {
            strategy_result_from(seq![v.auto_retry_fallback[0]], 0, ctx, r)
        } else {
            r == r0
        }
}

/// Whether `r` is what the selected strategy gives (pass-through when none
/// is selected).
pub open spec fn selected_result(v: SelectorView, ctx: &PayloadContext, r: Result<DesyncAction, Error>) -> bool {
    match spec_select(v, spec_extract_domain(ctx.protocol@)) {
        Some(s) => strategy_result_from(s.techniques@, 0, ctx, r),
        None => r matches Ok(DesyncAction::PassThrough),
    }
}

/// Whether the selected strategy and the first fallback accept a payload.
pub open spec fn selector_admits(v: SelectorView, ctx: &PayloadContext) -> bool {
    &&& match spec_select(v, spec_extract_domain(ctx.protocol@)) {
        Some(s) => techniques_admit(s.techniques@, ctx),
        None => true,
    }
    &&& v.auto_retry_fallback.len() > 0 ==> techniques_admit(seq![v.auto_retry_fallback[0]], ctx)
}

fn take_rules_sorted(rules: Vec<MatchRule>) -> (r: Vec<MatchRule>)
    ensures
        r@ == sort_rules(rules@),
{
    let ghost orig = rules@;
    let mut remaining = rules;
    let mut sorted: Vec<MatchRule> = Vec::new();
    let mut i: usize = 0;
    let n = remaining.len();
    while remaining.len() > 0
        invariant
            i + remaining@.len() == n,
            n == orig.len(),
            remaining@ == orig.subrange(i as int, n as int),
            sorted@ == sort_rules(orig.subrange(0, i as int)),
        decreases remaining@.len(),
    {
        let x = remaining.remove(0);
        let ghost pre = orig.subrange(0, i as int);
        let mut k: usize = 0;
        while k < sorted.len() && sorted[k].priority >= x.priority
            invariant
                k <= sorted@.len(),
                first_lower(sorted@, x.priority, 0) == first_lower(sorted@, x.priority, k as int),
            decreases sorted@.len() - k,
        {
            k = k + 1;
        }
        sorted.insert(k, x);
        proof {
            let pre1 = orig.subrange(0, i + 1);
            assert(pre1.drop_last() =~= pre);
            assert(pre1.last() == x);
        }
        i = i + 1;
        proof {
            assert(remaining@ =~= orig.subrange(i as int, n as int));
        }
    }
    assert(orig.subrange(0, n as int) =~= orig);
    sorted
}

fn strategy_index(strategies: &Vec<Strategy>, name: &str) -> (r: Option<usize>)
    ensures
        match strategy_named(strategies@, name@) {
            Some(s) => r is Some && r->0 < strategies@.len() && strategies@[r->0 as int] == s,
            None => r is None,
        },
{
    let mut i = strategies.len();
    assert(strategies@.subrange(0, i as int) =~= strategies@);
    while i > 0
        invariant
            i <= strategies@.len(),
            strategy_named(strategies@, name@) == strategy_named(strategies@.subrange(0, i as int), name@),
        decreases i,
    {
        let ghost pre = strategies@.subrange(0, i as int);
        assert(pre.drop_last() =~= strategies@.subrange(0, i - 1));
        if str_eq(strategies[i - 1].name.as_str(), name) {
            return Some(i - 1);
        }
        i = i - 1;
    }
    assert(strategies@.subrange(0, 0) =~= Seq::<Strategy>::empty());
    None
}

fn rule_matches_domain(rule: &MatchRule, d: &str) -> (r: bool)
    ensures
        r == rule_matches(*rule, encode_utf8(d@)),
{
    let mut k: usize = 0;
    while k < rule.domains.len()
        invariant
            k <= rule.domains@.len(),
            forall|j: int| 0 <= j < k ==> !spec_domain_matches(encode_utf8(#[trigger] rule.domains@[j]@), encode_utf8(d@)),
        decreases rule.domains@.len() - k,
    {
        if domain_matches(rule.domains[k].as_str(), d) {
            return true;
        }
        k = k + 1;
    }
    false
}

impl Selector {
    /// A selector over the strategies and rules, with an optional default
    /// strategy; rules are ordered by descending priority.
    pub fn new(strategies: Vec<Strategy>, rules: Vec<MatchRule>, default_strategy: Option<String>) -> (r: Self)
        ensures
            r@.strategies == strategies@,
            r@.rules == sort_rules(rules@),
            r@.default_strategy == default_strategy,
            r@.auto_retry_fallback == Seq::<TechniqueConfig>::empty(),
            r@.learned == Set::<Seq<u8>>::empty(),
    {
        let rules = take_rules_sorted(rules);
        Selector {
            strategies,
            rules,
            default_strategy,
            auto_retry_fallback: Vec::new(),
            learned_blocked: LearnedBlocked::new(),
        }
    }

    /// Enable auto-retry on early reset with a fallback chain.
    pub fn with_auto_retry_fallback(self, fallback: Vec<TechniqueConfig>) -> (r: Self)
        ensures
            r@.strategies == self@.strategies,
            r@.rules == self@.rules,
            r@.default_strategy == self@.default_strategy,
            r@.auto_retry_fallback == fallback@,
            r@.learned == self@.learned,
    {
        let mut s = self;
        s.auto_retry_fallback = fallback;
        s
    }

    /// The auto-retry fallback chain (empty when auto-retry is disabled).
    pub fn auto_retry_fallback(&self) -> (r: &[TechniqueConfig])
        ensures
            r@ == self@.auto_retry_fallback,
    {
        self.auto_retry_fallback.as_slice()
    }

    /// The learned-blocked domain set, for the relay to add to.
    pub fn learned_blocked(&mut self) -> (r: &mut LearnedBlocked)
        ensures
            r.learned() == old(self)@.learned,
            final(self)@.strategies == old(self)@.strategies,
            final(self)@.rules == old(self)@.rules,
            final(self)@.default_strategy == old(self)@.default_strategy,
            final(self)@.auto_retry_fallback == old(self)@.auto_retry_fallback,
            final(self)@.learned == final(r).learned(),
    {
        &mut self.learned_blocked
    }

    /// Find the strategy for a domain: that of the first rule (by
    /// priority) with a matching pattern, else the default strategy.
    pub fn select(&self, domain: Option<&str>) -> (r: Option<&Strategy>)
        ensures
            match spec_select(self@, match domain {
                Some(d) => Some(encode_utf8(d@)),
                None => None,
            }) {
                Some(s) => r is Some && *r->0 == s,
                None => r is None,
            },
    {
        if let Some(d) = domain {
            let mut i: usize = 0;
            while i < self.rules.len()
                invariant
                    domain == Some(d),
                    i <= self.rules@.len(),
                    first_matching_rule(self.rules@, encode_utf8(d@), 0) == first_matching_rule(self.rules@, encode_utf8(d@), i as int),
                decreases self.rules@.len() - i,
            {
                let rule = &self.rules[i];
                if rule_matches_domain(rule, d) {
                    assert(first_matching_rule(self.rules@, encode_utf8(d@), i as int) == Some(self.rules@[i as int]));
                    assert(self@.rules == self.rules@);
                    assert(self@.strategies == self.strategies@);
                    assert(spec_select(self@, Some(encode_utf8(d@))) == strategy_named(self.strategies@, self.rules@[i as int].strategy@));
                    let idx = strategy_index(&self.strategies, rule.strategy.as_str());
                    match idx {
                        Some(j) => {
                            let found = &self.strategies[j];
                            assert(*found == self.strategies@[j as int]);
                            return Some(found);
                        },
                        None => {
                            return None;
                        },
                    }
                }
                i = i + 1;
            }
        }
        match &self.default_strategy {
            Some(name) => match strategy_index(&self.strategies, name.as_str()) {
                Some(j) => Some(&self.strategies[j]),
                None => None,
            },
            None => None,
        }
    }

    /// Whether the selected strategy and the first fallback technique
    /// accept the payload wherever their split positions may fall, so that
    /// `apply` may be called.
    pub fn admits(&self, ctx: &PayloadContext) -> (r: bool)
        ensures
            r == selector_admits(self@, ctx),
    {
        let domain = extract_domain(&ctx.protocol);
        assert(match domain {
            Some(d) => Some(encode_utf8(d@)),
            None => None,
        } == spec_extract_domain(ctx.protocol@));
        let first = match self.select(domain) {
            Some(s) => s.admits(ctx),
            None => true,
        };
        if !first {
            return false;
        }
        if self.auto_retry_fallback.len() == 0 {
            return true;
        }
        let head = &self.auto_retry_fallback.as_slice()[0..1];
        assert(head@ =~= seq![self.auto_retry_fallback@[0]]);
        assert(self@.auto_retry_fallback.take(1) =~= head@);
        techniques_all_admit(head, ctx)
    }

    /// Apply the selected strategy to a payload. When it would pass the
    /// payload through but the domain is learned-blocked and a fallback
    /// chain is configured, the first fallback technique is applied
    /// instead.
    pub fn apply(&self, ctx: &PayloadContext) -> (r: Result<DesyncAction, Error>)
        requires
            selector_admits(self@, ctx),
        ensures
            selector_result(self@, ctx, r),
    {
        let domain = extract_domain(&ctx.protocol);
        let ghost dom = spec_extract_domain(ctx.protocol@);
        assert(match domain {
            Some(d) => Some(encode_utf8(d@)),
            None => None,
        } == dom);
        let strategy = self.select(domain);
        let r0 = match strategy {
            Some(s) => s.apply(ctx),
            None => Ok(DesyncAction::PassThrough),
        };
        let ghost g0 = r0;
        assert(selected_result(self@, ctx, g0));
        let action = match r0 {
            Ok(a) => a,
            Err(e) => return Err(e),
        };
        if let DesyncAction::PassThrough = action {
            if let Some(d) = domain {
                if self.auto_retry_fallback.len() > 0 && self.learned_blocked.contains(d) {
                    let first = Strategy {
                        name: "learned_fallback".to_owned(),
                        techniques: vec![self.auto_retry_fallback[0].duplicate()],
                    };
                    assert(first.techniques@ =~= seq![self@.auto_retry_fallback[0]]);
                    let r = first.apply(ctx);
                    assert(selected_result(self@, ctx, g0) && strategy_result_from(seq![self@.auto_retry_fallback[0]], 0, ctx, r));
                    return r;
                }
            }
        }
        Ok(action)
    }
}

/// The domain a detected protocol names: the SNI, or the Host value up to
/// its first colon.
pub fn extract_domain(proto: &AppProtocol) -> (r: Option<&str>)
    ensures
        match spec_extract_domain(proto@) {
            Some(d) => r is Some && encode_utf8(r->0@) == d,
            None => r is None,
        },
{
    match proto {
        AppProtocol::TlsClientHello { sni: Some(sni), .. } => Some(sni.as_str()),
        AppProtocol::HttpRequest { host: Some(host), .. } => Some(host_before_colon(host.as_str())),
        _ => None,
    }
}

fn colon_position(b: &[u8]) -> (i: usize)
    ensures
        i as int == colon_index(b@, 0),
        i <= b@.len(),
        i < b@.len() ==> b@[i as int] == 58,
{
    let mut i: usize = 0;
    while i < b.len()
        invariant
            i <= b@.len(),
            colon_index(b@, 0) == colon_index(b@, i as int),
        decreases b@.len() - i,
    {
        if b[i] == 58 {
            return i;
        }
        i = i + 1;
    }
    i
}

fn host_before_colon(host: &str) -> (r: &str)
    ensures
        encode_utf8(r@) == before_colon(encode_utf8(host@)),
{
    let b = host.as_bytes();
    let i = colon_position(b);
    proof {
        encode_utf8_valid_utf8(host@);
        is_char_boundary_start_end_of_seq(b@);
        if i < b@.len() {
            is_char_boundary_iff_not_is_continuation_byte(b@, i as int);
        }
    }
    let (front, _) = host.split_at(i);
    front
}

/// The bytes of `s` without its first two.
pub open spec fn after_star_dot(p: Seq<u8>) -> Seq<u8> {
    p.subrange(2, p.len() as int)
}

/// Whether a domain pattern matches a domain: `*` matches anything,
/// `*.suffix` matches subdomains of `suffix` only (not `suffix` itself,
/// RFC 6125), anything else matches the same name; names compare without
/// regard to ASCII case.
pub open spec fn spec_domain_matches(p: Seq<u8>, d: Seq<u8>) -> bool {
    if p == seq![42u8] {
        true
    } else if p.len() >= 2 && p[0] == 42 && p[1] == 46 {
        let suffix = after_star_dot(p);
        d.len() > suffix.len() && d[d.len() - suffix.len() - 1] == 46 && eq_ignore_case(
            d.subrange(d.len() - suffix.len(), d.len() as int),
            suffix,
        )
    } else {
        eq_ignore_case(p, d)
    }
}

/// Whether a domain pattern matches a domain (see `spec_domain_matches`).
pub fn domain_matches(pattern: &str, domain: &str) -> (r: bool)
    ensures
        r == spec_domain_matches(encode_utf8(pattern@), encode_utf8(domain@)),
{
    let p = pattern.as_bytes();
    let d = domain.as_bytes();
    if p.len() == 1 && p[0] == 42 {
        assert(p@ =~= seq![42u8]);
        return true;
    }
    assert(p@ != seq![42u8]);
    if p.len() >= 2 && p[0] == 42 && p[1] == 46 {
        let sl = p.len() - 2;
        if d.len() <= sl {
            return false;
        }
        if d[d.len() - sl - 1] != 46 {
            return false;
        }
        let r = range_eq_ignore_case(d, d.len() - sl, p, 2, sl);
        assert(d@.subrange(d@.len() - sl, d@.len() - sl + sl) =~= d@.subrange(d@.len() - sl, d@.len() as int));
        assert(p@.subrange(2, 2 + sl) =~= after_star_dot(p@));
        r
    } else {
        eq_ignore_ascii_case(p, d)
    }
}

/// Law: `*` matches every domain.
pub proof fn lemma_star_matches_everything(domain: Seq<u8>)
    ensures
        spec_domain_matches(seq![42u8], domain),
{
}

/// Law: a wildcard `*.suffix` matches subdomains only, never the bare
/// `suffix` (RFC 6125).
pub proof fn lemma_wildcard_excludes_bare_domain(suffix: Seq<u8>)
    ensures
        !spec_domain_matches(seq![42u8, 46u8] + suffix, suffix),
{
    let p = seq![42u8, 46u8] + suffix;
    assert(after_star_dot(p) =~= suffix);
    if p == seq![42u8] {
        assert(p.len() == 1);
    }
}

/// Law: a learned domain is found again under any ASCII case, and learning
/// it again reports it as known.
pub proof fn lemma_learned_found_in_any_case(learned: Set<Seq<u8>>, domain: Seq<u8>, other_case: Seq<u8>)
    requires
        domain_key(domain) == domain_key(other_case),
    ensures
        learned.insert(domain_key(domain)).contains(domain_key(other_case)),
        learned.insert(domain_key(domain)).insert(domain_key(other_case)) == learned.insert(domain_key(domain)),
{
    assert(learned.insert(domain_key(domain)).insert(domain_key(other_case)) =~= learned.insert(domain_key(domain)));
}

proof fn lemma_first_lower_bounds(sorted: Seq<MatchRule>, priority: i32, i: int)
    requires
        0 <= i <= sorted.len(),
    ensures
        i <= first_lower(sorted, priority, i) <= sorted.len(),
        forall|k: int| i <= k < first_lower(sorted, priority, i) ==> sorted[k].priority >= priority,
        first_lower(sorted, priority, i) < sorted.len() ==> sorted[first_lower(sorted, priority, i)].priority < priority,
    decreases sorted.len() - i,
{
    if i < sorted.len() && sorted[i].priority >= priority {
        lemma_first_lower_bounds(sorted, priority, i + 1);
    }
}

/// Whether rules are ordered by descending priority.
pub open spec fn by_descending_priority(rules: Seq<MatchRule>) -> bool {
    forall|a: int, b: int| 0 <= a < b < rules.len() ==> rules[a].priority >= rules[b].priority
}

/// Sorting orders the rules by descending priority and keeps every rule.
pub proof fn lemma_sort_rules(rules: Seq<MatchRule>)
    ensures
        by_descending_priority(sort_rules(rules)),
        sort_rules(rules).len() == rules.len(),
        forall|x: MatchRule| rules.contains(x) ==> sort_rules(rules).contains(x),
    decreases rules.len(),
{
    if rules.len() > 0 {
        let prefix = rules.drop_last();
        lemma_sort_rules(prefix);
        let sorted = sort_rules(prefix);
        let x = rules.last();
        lemma_first_lower_bounds(sorted, x.priority, 0);
        let p = first_lower(sorted, x.priority, 0);
        let out = sorted.insert(p, x);
        assert forall|a: int, b: int| 0 <= a < b < out.len() implies out[a].priority >= out[b].priority by {
            if b < p {
            } else if b == p {
                assert(out[a] == sorted[a]);
            } else if a < p {
                assert(out[b] == sorted[b - 1]);
                if b - 1 >= p {
                    assert(sorted[a].priority >= x.priority);
                    if p < sorted.len() {
                        assert(sorted[p].priority < x.priority);
                    }
                }
            } else if a == p {
                assert(out[b] == sorted[b - 1]);
                assert(sorted[p].priority < x.priority);
                assert(sorted[p].priority >= sorted[b - 1].priority || b - 1 == p);
            } else {
                assert(out[a] == sorted[a - 1]);
                assert(out[b] == sorted[b - 1]);
            }
        }
        assert forall|y: MatchRule| rules.contains(y) implies out.contains(y) by {
            let j = choose|j: int| 0 <= j < rules.len() && rules[j] == y;
            if j == rules.len() - 1 {
                assert(out[p] == y);
            } else {
                assert(prefix[j] == y);
                assert(prefix.contains(y));
                let k = choose|k: int| 0 <= k < sorted.len() && sorted[k] == y;
                if k < p {
                    assert(out[k] == y);
                } else {
                    assert(out[k + 1] == y);
                }
            }
        }
    }
}

/// Law: the rule `select` goes by has the highest priority of all rules
/// that match the domain.
pub proof fn lemma_selected_rule_has_highest_priority(rules: Seq<MatchRule>, domain: Seq<u8>, other: MatchRule)
    requires
        rules.contains(other),
        rule_matches(other, domain),
    ensures
        first_matching_rule(sort_rules(rules), domain, 0) matches Some(chosen) && chosen.priority >= other.priority,
{
    lemma_sort_rules(rules);
    let sorted = sort_rules(rules);
    let j = choose|j: int| 0 <= j < sorted.len() && sorted[j] == other;
    lemma_first_matching_rule_before(sorted, domain, 0, j);
}

proof fn lemma_first_matching_rule_before(sorted: Seq<MatchRule>, domain: Seq<u8>, i: int, j: int)
    requires
        0 <= i <= j < sorted.len(),
        rule_matches(sorted[j], domain),
        by_descending_priority(sorted),
    ensures
        first_matching_rule(sorted, domain, i) matches Some(chosen) && chosen.priority >= sorted[j].priority,
    decreases j - i,
{
    if !rule_matches(sorted[i], domain) {
        lemma_first_matching_rule_before(sorted, domain, i + 1, j);
    }
}

} // verus!
