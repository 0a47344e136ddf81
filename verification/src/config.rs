//! Configuration: the adaptation settings, the sections of the config
//! file, the subcommands, and the rules by which the file, the command
//! line and the built-in defaults combine.

use vstd::prelude::*;
use vstd::utf8::{decode_utf8, encode_utf8, encode_utf8_decode_utf8, encode_utf8_valid_utf8, valid_utf8};
use crate::bytes::{copy_range, eq_ignore_ascii_case, eq_ignore_case, lemma_valid_utf8_ascii_cut, trim_chars, trim_string};
use crate::search::string_of;
use crate::registry::str_eq;
use crate::text::text;
use crate::strategy::{MatchRule, Strategy};
use crate::technique::TechniqueConfig;
use crate::types::{Mode, SplitPosition, StealthConfig};

verus! {

/// `~/.local/share/desyncd/state.db`, where the database lives by default.
pub open spec fn default_db_path() -> Seq<char> {
    seq![
        '~', '/', '.', 'l', 'o', 'c', 'a', 'l', '/', 's', 'h', 'a', 'r', 'e', '/', 'd', 'e', 's', 'y', 'n', 'c', 'd',
        '/', 's', 't', 'a', 't', 'e', '.', 'd', 'b',
    ]
}

fn default_db_path_string() -> (r: String)
    ensures
        r@ == default_db_path(),
{
    let p = "~/.local/share/desyncd/state.db";
    proof {
        reveal_strlit("~/.local/share/desyncd/state.db");
    }
    p.to_owned()
}

/// Settings of the adaptation engine.
#[derive(Debug, Clone)]
pub struct AdaptConfig {
    /// Whether automatic adaptation runs at all.
    pub enabled: bool,
    /// Seconds between two automatic re-tests.
    pub test_interval_secs: u64,
    /// Domains tested periodically.
    pub test_domains: Vec<String>,
    /// Most probes per domain and search.
    pub max_probes: usize,
    /// Seconds a probe may take.
    pub timeout_secs: u64,
    /// Where the database lives.
    pub db_path: String,
    /// Resolve probe targets through public DNS rather than the system's.
    pub secure_dns: bool,
}

impl Default for AdaptConfig {
    /// Enabled, every six hours, no domains, 40 probes of 10 seconds,
    /// the default database path and secure DNS.
    fn default() -> (r: Self)
        ensures
            r.enabled,
            r.test_interval_secs == 21600,
            r.test_domains@.len() == 0,
            r.max_probes == 40,
            r.timeout_secs == 10,
            r.db_path@ == default_db_path(),
            r.secure_dns,
    {
        AdaptConfig {
            enabled: true,
            test_interval_secs: 21600,
            test_domains: Vec::new(),
            max_probes: 40,
            timeout_secs: 10,
            db_path: default_db_path_string(),
            secure_dns: true,
        }
    }
}

/// What `Duration::from_secs` gives for a number of whole seconds.
pub uninterp spec fn duration_of_secs(secs: u64) -> std::time::Duration;

/// `Duration::from_secs`: trusted to give the duration named
/// `duration_of_secs(secs)`, a value of its argument alone.
#[verifier::external_body]
fn duration_from_secs(secs: u64) -> (d: std::time::Duration)
    ensures
        d == duration_of_secs(secs),
{
    std::time::Duration::from_secs(secs)
}

impl AdaptConfig {
    /// The interval between automatic re-tests.
    pub fn test_interval(&self) -> (r: std::time::Duration)
        ensures
            r == duration_of_secs(self.test_interval_secs),
    {
        duration_from_secs(self.test_interval_secs)
    }

    /// How long a probe may take.
    pub fn probe_timeout(&self) -> (r: std::time::Duration)
        ensures
            r == duration_of_secs(self.timeout_secs),
    {
        duration_from_secs(self.timeout_secs)
    }
}

/// The `[adaptation]` section of the config file.
#[derive(Debug, Clone)]
pub struct AdaptationConfig {
    pub enabled: bool,
    pub test_interval_secs: u64,
    pub test_domains: Vec<String>,
    pub db_path: String,
    /// Resolve probe targets through public DNS rather than the system's.
    pub secure_dns: bool,
}

impl Default for AdaptationConfig {
    fn default() -> (r: Self)
        ensures
            r.enabled,
            r.test_interval_secs == 21600,
            r.test_domains@.len() == 0,
            r.db_path@ == default_db_path(),
            r.secure_dns,
    {
        AdaptationConfig {
            enabled: true,
            test_interval_secs: 21600,
            test_domains: Vec::new(),
            db_path: default_db_path_string(),
            secure_dns: true,
        }
    }
}

/// `info`, the log level by default.
pub open spec fn info_level() -> Seq<char> {
    seq!['i', 'n', 'f', 'o']
}

/// The `[general]` section of the config file.
#[derive(Debug, Clone)]
pub struct GeneralConfig {
    pub mode: Mode,
    pub log_level: String,
}

impl Default for GeneralConfig {
    /// SOCKS mode at log level `info`.
    fn default() -> (r: Self)
        ensures
            r.mode == Mode::Socks,
            r.log_level@ == info_level(),
    {
        let l = "info";
        proof {
            reveal_strlit("info");
        }
        GeneralConfig { mode: Mode::Socks, log_level: l.to_owned() }
    }
}

/// A strategy as the config file defines it, under its name.
#[derive(Debug, Clone)]
pub struct StrategyDef {
    pub techniques: Vec<TechniqueConfig>,
}

/// What the command line asks for.
#[derive(Debug)]
pub enum Command {
    /// Start the proxy or interceptor (the default).
    Run,
    /// Check whether domains are blocked.
    Test {
        domain: Vec<String>,
        /// Try every technique and show each result.
        all_techniques: bool,
    },
    /// Search the best strategy for domains.
    Adapt {
        domain: Vec<String>,
        /// A file with one domain per line.
        domains_file: Option<String>,
        /// A built-in list of domains: russia, china, iran or test.
        preset: Option<String>,
        /// Save what was found and write a config file.
        save: bool,
        /// Classify the DPI first, then search only what it recommends.
        morphing: bool,
    },
    /// Print the effective configuration.
    ShowConfig,
    /// Launch the graphical interface.
    Gui,
}

/// The log level: the configured one at verbosity 0, `debug` at 1,
/// `trace` above.
pub open spec fn spec_log_level(verbose: u8, configured: Seq<char>) -> Seq<char> {
    if verbose == 0 {
        configured
    } else if verbose == 1 {
        seq!['d', 'e', 'b', 'u', 'g']
    } else {
        seq!['t', 'r', 'a', 'c', 'e']
    }
}

/// The log level for a verbosity given on the command line (see
/// `spec_log_level`).
pub fn log_level(verbose: u8, configured: &str) -> (r: String)
    ensures
        r@ == spec_log_level(verbose, configured@),
{
    if verbose == 0 {
        configured.to_owned()
    } else if verbose == 1 {
        let d = "debug";
        proof {
            reveal_strlit("debug");
        }
        d.to_owned()
    } else {
        let t = "trace";
        proof {
            reveal_strlit("trace");
        }
        t.to_owned()
    }
}

/// `default_tls`, the strategy used when the config defines none.
pub open spec fn default_tls_name() -> Seq<char> {
    seq!['d', 'e', 'f', 'a', 'u', 'l', 't', '_', 't', 'l', 's']
}

/// Whether a technique is enabled at the SNI position with nothing else
/// set.
pub open spec fn is_plain_technique(t: TechniqueConfig, name: Seq<char>, pos: SplitPosition) -> bool {
    &&& t.name@ == name
    &&& t.split_position == Some(pos)
    &&& t.enabled
    &&& t.fake_type is None
    &&& t.sni_mode is None
    &&& t.fragments is None
    &&& t.host_mode is None
    &&& t.stealth is None
    &&& t.l7_filter is None
}

/// Whether `s` is a strategy of one plain technique.
pub open spec fn is_plain_strategy(s: Strategy, name: Seq<char>, tech: Seq<char>, pos: SplitPosition) -> bool {
    &&& s.name@ == name
    &&& s.techniques@.len() == 1
    &&& is_plain_technique(s.techniques@[0], tech, pos)
}

fn plain_strategy(name: &str, tech: &str, pos: SplitPosition) -> (r: Strategy)
    ensures
        is_plain_strategy(r, name@, tech@, pos),
{
    let t = TechniqueConfig {
        name: tech.to_owned(),
        split_position: Some(pos),
        enabled: true,
        fake_type: None,
        sni_mode: None,
        fragments: None,
        host_mode: None,
        stealth: None,
        l7_filter: None,
    };
    Strategy { name: name.to_owned(), techniques: vec![t] }
}

/// The strategies of the config file, each under its name in the order
/// given; when there are none, `default_tls`: `tcp_split` at the SNI.
pub fn resolve_strategies(defs: Vec<(String, StrategyDef)>) -> (r: Vec<Strategy>)
    ensures
        defs@.len() == 0 ==> r@.len() == 1 && is_plain_strategy(
            r@[0],
            default_tls_name(),
            seq!['t', 'c', 'p', '_', 's', 'p', 'l', 'i', 't'],
            SplitPosition::Sni,
        ),
        defs@.len() > 0 ==> r@.len() == defs@.len() && forall|i: int|
            0 <= i < defs@.len() ==> (#[trigger] r@[i]).name == defs@[i].0 && r@[i].techniques == defs@[i].1.techniques,
{
    if defs.len() == 0 {
        let n = "default_tls";
        let t = "tcp_split";
        proof {
            reveal_strlit("default_tls");
            reveal_strlit("tcp_split");
        }
        assert(n@ =~= default_tls_name());
        assert(t@ =~= seq!['t', 'c', 'p', '_', 's', 'p', 'l', 'i', 't']);
        let mut one: Vec<Strategy> = Vec::new();
        one.push(plain_strategy(n, t, SplitPosition::Sni));
        return one;
    }
    let ghost d = defs@;
    let mut out: Vec<Strategy> = Vec::new();
    for item in it: defs
        invariant
            it.seq() == d,
            out@.len() == it.index(),
            forall|i: int| 0 <= i < out@.len() ==> (#[trigger] out@[i]).name == d[i].0 && out@[i].techniques == d[i].1.techniques,
    {
        let (name, def) = item;
        out.push(Strategy { name, techniques: def.techniques });
    }
    out
}

/// Whether a rule's patterns include the catch-all `*`.
pub open spec fn is_catch_all(r: MatchRule) -> bool {
    exists|j: int| 0 <= j < r.domains@.len() && (#[trigger] r.domains@[j])@ == seq!['*']
}

/// Index of the first catch-all rule from the `i`-th on (`rules.len()`
/// when there is none).
pub open spec fn first_catch_all(rules: Seq<MatchRule>, i: int) -> int
    decreases rules.len() - i,
{
    if i >= rules.len() || i < 0 {
        rules.len() as int
    } else if is_catch_all(rules[i]) {
        i
    } else {
        first_catch_all(rules, i + 1)
    }
}

/// The default strategy's name: the one given on the command line; else
/// the strategy of the first catch-all rule; else the first strategy the
/// config file defines; else `default_tls`.
pub open spec fn spec_default_strategy(
    cli: Option<Seq<char>>,
    rules: Seq<MatchRule>,
    defined: Seq<Seq<char>>,
) -> Seq<char> {
    let k = first_catch_all(rules, 0);
    match cli {
        Some(s) => s,
        None => if k < rules.len() {
            rules[k].strategy@
        } else if defined.len() > 0 {
            defined[0]
        } else {
            default_tls_name()
        },
    }
}

fn is_star(s: &String) -> (r: bool)
    ensures
        r == (s@ == seq!['*']),
{
    let star = "*";
    proof {
        reveal_strlit("*");
    }
    assert(star@ =~= seq!['*']);
    str_eq(s.as_str(), star)
}

fn rule_is_catch_all(r: &MatchRule) -> (b: bool)
    ensures
        b == is_catch_all(*r),
{
    let mut j: usize = 0;
    while j < r.domains.len()
        invariant
            j <= r.domains@.len(),
            forall|k: int| 0 <= k < j ==> (#[trigger] r.domains@[k])@ != seq!['*'],
        decreases r.domains@.len() - j,
    {
        if is_star(&r.domains[j]) {
            return true;
        }
        j = j + 1;
    }
    false
}

fn first_catch_all_index(rules: &Vec<MatchRule>) -> (k: usize)
    ensures
        k == first_catch_all(rules@, 0),
{
    let mut i: usize = 0;
    while i < rules.len()
        invariant
            i <= rules@.len(),
            first_catch_all(rules@, 0) == first_catch_all(rules@, i as int),
        decreases rules@.len() - i,
    {
        if rule_is_catch_all(&rules[i]) {
            return i;
        }
        i = i + 1;
    }
    i
}

/// The default strategy's name (see `spec_default_strategy`), from the
/// command line's choice, the rules and the names of the strategies the
/// config file defines.
pub fn default_strategy(cli: Option<String>, rules: &Vec<MatchRule>, defined: &Vec<String>) -> (r: String)
    ensures
        r@ == spec_default_strategy(
            match cli {
                Some(s) => Some(s@),
                None => None,
            },
            rules@,
            views(defined@),
        ),
{
    if let Some(s) = cli {
        return s;
    }
    let k = first_catch_all_index(rules);
    if k < rules.len() {
        return rules[k].strategy.clone();
    }
    if defined.len() > 0 {
        defined[0].clone()
    } else {
        let n = "default_tls";
        proof {
            reveal_strlit("default_tls");
        }
        n.to_owned()
    }
}


/// A domain as a strategy name: each `.` becomes `_` and each `*`
/// becomes `wildcard`.
pub open spec fn clean_name(d: Seq<char>) -> Seq<char>
    decreases d.len(),
{
    if d.len() == 0 {
        Seq::empty()
    } else {
        let c = d.last();
        clean_name(d.drop_last()) + if c == '.' {
            seq!['_']
        } else if c == '*' {
            seq!['w', 'i', 'l', 'd', 'c', 'a', 'r', 'd']
        } else {
            seq![c]
        }
    }
}

/// The strategy name for a domain (see `clean_name`).
pub fn strategy_name_for(domain: &str) -> (r: String)
    ensures
        r@ == clean_name(domain@),
{
    let n = domain.unicode_len();
    let mut out = String::new();
    let mut i: usize = 0;
    while i < n
        invariant
            n == domain@.len(),
            i <= n,
            out@ == clean_name(domain@.subrange(0, i as int)),
        decreases n - i,
    {
        let c = domain.get_char(i);
        assert(domain@.subrange(0, i + 1).drop_last() =~= domain@.subrange(0, i as int));
        if c == '.' {
            let u = "_";
            proof {
                reveal_strlit("_");
            }
            out.append(u);
        } else if c == '*' {
            let w = "wildcard";
            proof {
                reveal_strlit("wildcard");
            }
            out.append(w);
        } else {
            let one = domain.substring_char(i, i + 1);
            assert(one@ =~= seq![c]);
            out.append(one);
        }
        i = i + 1;
    }
    assert(domain@.subrange(0, n as int) =~= domain@);
    out
}

/// `passthrough`, the catch-all strategy of a config with nothing found.
pub open spec fn passthrough_name() -> Seq<char> {
    seq!['p', 'a', 's', 's', 't', 'h', 'r', 'o', 'u', 'g', 'h']
}

/// The patterns of the rule for a discovered domain: the domain and its
/// subdomains.
pub open spec fn domain_patterns(d: Seq<char>) -> Seq<Seq<char>> {
    seq![d, seq!['*', '.'] + d]
}

/// The views of a list of strings.
pub open spec fn views(v: Seq<String>) -> Seq<Seq<char>> {
    v.map_values(|s: String| s@)
}

/// A config file written from the strategies a search discovered.
#[derive(Debug)]
pub struct GeneratedConfig {
    pub general: GeneralConfig,
    pub adaptation: AdaptationConfig,
    pub stealth: StealthConfig,
    /// Strategies under their names, in order; where two share a name the
    /// later one is kept.
    pub strategies: Vec<(String, StrategyDef)>,
    pub rules: Vec<MatchRule>,
}

/// Whether the first `discovered.len()` strategies and rules are those
/// written for the discovered strategies: for each discovered domain a
/// strategy named after it (see `clean_name`) with the discovered
/// techniques, and a rule for the domain and its subdomains at priority
/// 10, 11, ...
pub open spec fn has_domain_entries(
    strategies: Seq<(String, StrategyDef)>,
    rules: Seq<MatchRule>,
    discovered: Seq<(String, Strategy)>,
) -> bool {
    &&& strategies.len() >= discovered.len()
    &&& rules.len() >= discovered.len()
    &&& forall|i: int|
        0 <= i < discovered.len() ==> (#[trigger] strategies[i]).0@ == clean_name(discovered[i].0@)
            && strategies[i].1.techniques@ == discovered[i].1.techniques@
    &&& forall|i: int|
        0 <= i < discovered.len() ==> views((#[trigger] rules[i]).domains@) == domain_patterns(discovered[i].0@)
            && rules[i].strategy@ == clean_name(discovered[i].0@) && rules[i].priority == 10 + i
}

/// Whether a rule is the catch-all rule `*` at priority 0 for a strategy.
pub open spec fn is_catch_all_rule(r: MatchRule, strategy: Seq<char>) -> bool {
    views(r.domains@) == seq![seq!['*']] && r.strategy@ == strategy && r.priority == 0
}

/// Whether `r` holds the strategies and rules written for the
/// discovered strategies (see `has_domain_entries`); after them a
/// catch-all rule for the first discovered strategy, or for an empty
/// `passthrough` strategy, added last, when nothing was discovered.
pub open spec fn is_generated(r: GeneratedConfig, discovered: Seq<(String, Strategy)>) -> bool {
    &&& has_domain_entries(r.strategies@, r.rules@, discovered)
    &&& r.strategies@.len() == if discovered.len() == 0 { 1 } else { discovered.len() }
    &&& discovered.len() == 0 ==> r.strategies@[0].0@ == passthrough_name() && r.strategies@[0].1.techniques@.len() == 0
    &&& r.rules@.len() == discovered.len() + 1
    &&& is_catch_all_rule(r.rules@.last(), if discovered.len() > 0 {
        clean_name(discovered[0].0@)
    } else {
        passthrough_name()
    })
}

/// Whether `r` holds the strategies and rules the graphical interface
/// writes: those for the discovered strategies (see `has_domain_entries`),
/// then an empty `passthrough` strategy and a catch-all rule for it.
pub open spec fn is_generated_for_gui(r: GeneratedConfig, discovered: Seq<(String, Strategy)>) -> bool {
    &&& has_domain_entries(r.strategies@, r.rules@, discovered)
    &&& r.strategies@.len() == discovered.len() + 1
    &&& r.strategies@.last().0@ == passthrough_name()
    &&& r.strategies@.last().1.techniques@.len() == 0
    &&& r.rules@.len() == discovered.len() + 1
    &&& is_catch_all_rule(r.rules@.last(), passthrough_name())
}

fn copy_techniques(v: &Vec<TechniqueConfig>) -> (r: Vec<TechniqueConfig>)
    ensures
        r@ == v@,
{
    let mut r: Vec<TechniqueConfig> = Vec::new();
    let mut i: usize = 0;
    while i < v.len()
        invariant
            i <= v@.len(),
            r@ == v@.subrange(0, i as int),
        decreases v@.len() - i,
    {
        r.push(v[i].duplicate());
        i = i + 1;
    }
    assert(v@.subrange(0, v@.len() as int) =~= v@);
    r
}

fn strings_of(v: &Vec<(String, Strategy)>) -> (r: Vec<String>)
    ensures
        r@.len() == v@.len(),
        forall|i: int| 0 <= i < v@.len() ==> (#[trigger] r@[i])@ == v@[i].0@,
{
    let mut r: Vec<String> = Vec::new();
    let mut i: usize = 0;
    while i < v.len()
        invariant
            i <= v@.len(),
            r@.len() == i,
            forall|k: int| 0 <= k < i ==> (#[trigger] r@[k])@ == v@[k].0@,
        decreases v@.len() - i,
    {
        r.push(v[i].0.clone());
        i = i + 1;
    }
    r
}

fn domain_entries(discovered: &Vec<(String, Strategy)>) -> (r: (Vec<(String, StrategyDef)>, Vec<MatchRule>))
    requires
        discovered@.len() + 10 <= i32::MAX,
    ensures
        r.0@.len() == discovered@.len(),
        r.1@.len() == discovered@.len(),
        has_domain_entries(r.0@, r.1@, discovered@),
{
    let n = discovered.len();
    let mut strategies: Vec<(String, StrategyDef)> = Vec::new();
    let mut rules: Vec<MatchRule> = Vec::new();
    let mut i: usize = 0;
    while i < n
        invariant
            n == discovered@.len(),
            n + 10 <= i32::MAX,
            i <= n,
            strategies@.len() == i,
            rules@.len() == i,
            forall|k: int|
                0 <= k < i ==> (#[trigger] strategies@[k]).0@ == clean_name(discovered@[k].0@)
                    && strategies@[k].1.techniques@ == discovered@[k].1.techniques@,
            forall|k: int|
                0 <= k < i ==> views((#[trigger] rules@[k]).domains@) == domain_patterns(discovered@[k].0@)
                    && rules@[k].strategy@ == clean_name(discovered@[k].0@) && rules@[k].priority == 10 + k,
        decreases n - i,
    {
        let domain = &discovered[i].0;
        let name = strategy_name_for(domain.as_str());
        strategies.push((name.clone(), StrategyDef { techniques: copy_techniques(&discovered[i].1.techniques) }));
        let mut sub = String::from_str("*.");
        proof {
            reveal_strlit("*.");
        }
        sub.append(domain.as_str());
        let mut patterns: Vec<String> = Vec::new();
        patterns.push(domain.clone());
        patterns.push(sub);
        assert(patterns@[0]@ == discovered@[i as int].0@);
        assert(patterns@[1]@ =~= seq!['*', '.'] + discovered@[i as int].0@);
        assert(views(patterns@) =~= domain_patterns(discovered@[i as int].0@));
        rules.push(MatchRule { domains: patterns, strategy: name, priority: 10 + i as i32 });
        i = i + 1;
    }
    (strategies, rules)
}

fn catch_all_rule(strategy: String) -> (r: MatchRule)
    ensures
        is_catch_all_rule(r, strategy@),
{
    let star = "*";
    proof {
        reveal_strlit("*");
    }
    let mut all: Vec<String> = Vec::new();
    all.push(star.to_owned());
    assert(all@[0]@ =~= seq!['*']);
    assert(views(all@) =~= seq![seq!['*']]);
    MatchRule { domains: all, strategy, priority: 0 }
}

fn passthrough() -> (r: (String, StrategyDef))
    ensures
        r.0@ == passthrough_name(),
        r.1.techniques@.len() == 0,
{
    let p = "passthrough";
    proof {
        reveal_strlit("passthrough");
    }
    (p.to_owned(), StrategyDef { techniques: Vec::new() })
}

fn generated_adaptation(adaptation: &AdaptationConfig, discovered: &Vec<(String, Strategy)>) -> (r: AdaptationConfig)
    ensures
        r.enabled,
        r.test_interval_secs == adaptation.test_interval_secs,
        r.db_path == adaptation.db_path,
        r.secure_dns == adaptation.secure_dns,
        views(r.test_domains@) == discovered@.map_values(|e: (String, Strategy)| e.0@),
{
    let test_domains = strings_of(discovered);
    assert(views(test_domains@) =~= discovered@.map_values(|e: (String, Strategy)| e.0@));
    AdaptationConfig {
        enabled: true,
        test_interval_secs: adaptation.test_interval_secs,
        test_domains,
        db_path: adaptation.db_path.clone(),
        secure_dns: adaptation.secure_dns,
    }
}

/// The config to write after a search (see `is_generated`): the general
/// settings and stealth as they were, adaptation enabled for the
/// discovered domains.
pub fn generate_config(
    general: GeneralConfig,
    adaptation: &AdaptationConfig,
    stealth: StealthConfig,
    discovered: &Vec<(String, Strategy)>,
) -> (r: GeneratedConfig)
    requires
        discovered@.len() + 10 <= i32::MAX,
    ensures
        r.general == general,
        r.stealth == stealth,
        r.adaptation.enabled,
        r.adaptation.test_interval_secs == adaptation.test_interval_secs,
        r.adaptation.db_path == adaptation.db_path,
        r.adaptation.secure_dns == adaptation.secure_dns,
        views(r.adaptation.test_domains@) == discovered@.map_values(|e: (String, Strategy)| e.0@),
        is_generated(r, discovered@),
{
    let (mut strategies, mut rules) = domain_entries(discovered);
    let default_name = if discovered.len() > 0 {
        strategy_name_for(discovered[0].0.as_str())
    } else {
        let p = passthrough();
        let name = p.0.clone();
        strategies.push(p);
        name
    };
    rules.push(catch_all_rule(default_name));
    let r = GeneratedConfig {
        general,
        adaptation: generated_adaptation(adaptation, discovered),
        stealth,
        strategies,
        rules,
    };
    assert(has_domain_entries(r.strategies@, r.rules@, discovered@));
    r
}

/// The config the graphical interface writes after a search (see
/// `is_generated_for_gui`): the general settings as they were, the given
/// stealth settings, adaptation enabled for the discovered domains.
pub fn generate_gui_config(
    general: GeneralConfig,
    adaptation: &AdaptationConfig,
    stealth: StealthConfig,
    discovered: &Vec<(String, Strategy)>,
) -> (r: GeneratedConfig)
    requires
        discovered@.len() + 10 <= i32::MAX,
    ensures
        r.general == general,
        r.stealth == stealth,
        r.adaptation.enabled,
        r.adaptation.test_interval_secs == adaptation.test_interval_secs,
        r.adaptation.db_path == adaptation.db_path,
        r.adaptation.secure_dns == adaptation.secure_dns,
        views(r.adaptation.test_domains@) == discovered@.map_values(|e: (String, Strategy)| e.0@),
        is_generated_for_gui(r, discovered@),
{
    let (mut strategies, mut rules) = domain_entries(discovered);
    let p = passthrough();
    let name = p.0.clone();
    strategies.push(p);
    rules.push(catch_all_rule(name));
    let r = GeneratedConfig {
        general,
        adaptation: generated_adaptation(adaptation, discovered),
        stealth,
        strategies,
        rules,
    };
    assert(has_domain_entries(r.strategies@, r.rules@, discovered@));
    r
}

/// `auto_default`, the strategy used at startup when none is configured.
pub open spec fn auto_default_name() -> Seq<char> {
    seq!['a', 'u', 't', 'o', '_', 'd', 'e', 'f', 'a', 'u', 'l', 't']
}

/// The strategies and rules to start with: those configured; or, with no
/// strategy configured, `auto_default` (`tls_record_frag` one byte before
/// the SNI) for every domain.
pub fn startup_strategies(strategies: Vec<Strategy>, rules: Vec<MatchRule>) -> (r: (Vec<Strategy>, Vec<MatchRule>))
    ensures
        strategies@.len() > 0 ==> r.0 == strategies && r.1 == rules,
        strategies@.len() == 0 ==> {
            &&& r.0@.len() == 1
            &&& is_plain_strategy(
                r.0@[0],
                auto_default_name(),
                seq!['t', 'l', 's', '_', 'r', 'e', 'c', 'o', 'r', 'd', '_', 'f', 'r', 'a', 'g'],
                SplitPosition::SniOffset(-1i32),
            )
            &&& r.1@.len() == 1
            &&& views(r.1@[0].domains@) == seq![seq!['*']]
            &&& r.1@[0].strategy@ == auto_default_name()
            &&& r.1@[0].priority == 0
        },
{
    if strategies.len() > 0 {
        return (strategies, rules);
    }
    let n = "auto_default";
    let t = "tls_record_frag";
    let star = "*";
    proof {
        reveal_strlit("auto_default");
        reveal_strlit("tls_record_frag");
        reveal_strlit("*");
    }
    assert(n@ =~= auto_default_name());
    assert(t@ =~= seq!['t', 'l', 's', '_', 'r', 'e', 'c', 'o', 'r', 'd', '_', 'f', 'r', 'a', 'g']);
    let mut ss: Vec<Strategy> = Vec::new();
    ss.push(plain_strategy(n, t, SplitPosition::SniOffset(-1)));
    let mut all: Vec<String> = Vec::new();
    all.push(star.to_owned());
    assert(all@[0]@ =~= seq!['*']);
    assert(views(all@) =~= seq![seq!['*']]);
    let mut rs: Vec<MatchRule> = Vec::new();
    rs.push(MatchRule { domains: all, strategy: n.to_owned(), priority: 0 });
    (ss, rs)
}

/// Whether stealth settings are all off (the defaults).
pub open spec fn stealth_off(s: StealthConfig) -> bool {
    s.split_jitter == 0 && s.timing_jitter_us == 0 && s.fake_size_range is None && !s.randomize_tls_padding
}

/// The stealth settings to run the proxy with: none when they are the
/// defaults.
pub fn active_stealth(s: &StealthConfig) -> (r: Option<StealthConfig>)
    ensures
        stealth_off(*s) ==> r is None,
        !stealth_off(*s) ==> r == Some(*s),
{
    if s.split_jitter == 0 && s.timing_jitter_us == 0 && s.fake_size_range.is_none() && !s.randomize_tls_padding {
        None
    } else {
        Some(s.duplicate())
    }
}

/// The domains of the `russia` preset.
pub open spec fn russia_domains() -> Seq<Seq<char>> {
    seq![
        seq!['f', 'a', 'c', 'e', 'b', 'o', 'o', 'k', '.', 'c', 'o', 'm'],
        seq!['i', 'n', 's', 't', 'a', 'g', 'r', 'a', 'm', '.', 'c', 'o', 'm'],
        seq!['t', 'w', 'i', 't', 't', 'e', 'r', '.', 'c', 'o', 'm'],
        seq!['x', '.', 'c', 'o', 'm'],
        seq!['y', 'o', 'u', 't', 'u', 'b', 'e', '.', 'c', 'o', 'm'],
        seq!['d', 'i', 's', 'c', 'o', 'r', 'd', '.', 'c', 'o', 'm'],
        seq!['l', 'i', 'n', 'k', 'e', 'd', 'i', 'n', '.', 'c', 'o', 'm'],
        seq!['m', 'e', 'd', 'i', 'u', 'm', '.', 'c', 'o', 'm'],
        seq!['m', 'e', 'd', 'u', 'z', 'a', '.', 'i', 'o'],
    ]
}

/// The domains of the `china` preset.
pub open spec fn china_domains() -> Seq<Seq<char>> {
    seq![
        seq!['g', 'o', 'o', 'g', 'l', 'e', '.', 'c', 'o', 'm'],
        seq!['y', 'o', 'u', 't', 'u', 'b', 'e', '.', 'c', 'o', 'm'],
        seq!['f', 'a', 'c', 'e', 'b', 'o', 'o', 'k', '.', 'c', 'o', 'm'],
        seq!['t', 'w', 'i', 't', 't', 'e', 'r', '.', 'c', 'o', 'm'],
        seq!['w', 'i', 'k', 'i', 'p', 'e', 'd', 'i', 'a', '.', 'o', 'r', 'g'],
        seq!['i', 'n', 's', 't', 'a', 'g', 'r', 'a', 'm', '.', 'c', 'o', 'm'],
    ]
}

/// The domains of the `iran` preset.
pub open spec fn iran_domains() -> Seq<Seq<char>> {
    seq![
        seq!['y', 'o', 'u', 't', 'u', 'b', 'e', '.', 'c', 'o', 'm'],
        seq!['f', 'a', 'c', 'e', 'b', 'o', 'o', 'k', '.', 'c', 'o', 'm'],
        seq!['t', 'w', 'i', 't', 't', 'e', 'r', '.', 'c', 'o', 'm'],
        seq!['t', 'e', 'l', 'e', 'g', 'r', 'a', 'm', '.', 'o', 'r', 'g'],
        seq!['i', 'n', 's', 't', 'a', 'g', 'r', 'a', 'm', '.', 'c', 'o', 'm'],
    ]
}

/// The domains of the `test` preset.
pub open spec fn test_domains() -> Seq<Seq<char>> {
    seq![
        seq!['f', 'a', 'c', 'e', 'b', 'o', 'o', 'k', '.', 'c', 'o', 'm'],
        seq!['y', 'o', 'u', 't', 'u', 'b', 'e', '.', 'c', 'o', 'm'],
    ]
}

/// Whether a preset name is `name`, ignoring ASCII case.
pub open spec fn is_preset(p: Seq<char>, name: Seq<char>) -> bool {
    eq_ignore_case(encode_utf8(p), text(name))
}

/// The domains of a built-in preset (`russia` or `ru`, `china` or `cn`,
/// `iran` or `ir`, `test`, in any ASCII case); none for another name.
pub open spec fn preset_domains(p: Seq<char>) -> Option<Seq<Seq<char>>> {
    if is_preset(p, seq!['r', 'u', 's', 's', 'i', 'a']) || is_preset(p, seq!['r', 'u']) {
        Some(russia_domains())
    } else if is_preset(p, seq!['c', 'h', 'i', 'n', 'a']) || is_preset(p, seq!['c', 'n']) {
        Some(china_domains())
    } else if is_preset(p, seq!['i', 'r', 'a', 'n']) || is_preset(p, seq!['i', 'r']) {
        Some(iran_domains())
    } else if is_preset(p, seq!['t', 'e', 's', 't']) {
        Some(test_domains())
    } else {
        None
    }
}

/// The names of the built-in presets, as offered for choosing.
pub fn preset_names() -> (r: Vec<String>)
    ensures
        views(r@) == seq![seq!['r', 'u', 's', 's', 'i', 'a'], seq!['c', 'h', 'i', 'n', 'a'], seq!['i', 'r', 'a', 'n'], seq!['t', 'e', 's', 't']],
        forall|i: int| 0 <= i < r@.len() ==> preset_domains((#[trigger] r@[i])@) is Some,
{
    let a = "russia";
    let b = "china";
    let c = "iran";
    let d = "test";
    proof {
        reveal_strlit("russia");
        reveal_strlit("china");
        reveal_strlit("iran");
        reveal_strlit("test");
    }
    let mut v: Vec<String> = Vec::new();
    v.push(a.to_owned());
    v.push(b.to_owned());
    v.push(c.to_owned());
    v.push(d.to_owned());
    assert(v@[0]@ =~= seq!['r', 'u', 's', 's', 'i', 'a']);
    assert(v@[1]@ =~= seq!['c', 'h', 'i', 'n', 'a']);
    assert(v@[2]@ =~= seq!['i', 'r', 'a', 'n']);
    assert(v@[3]@ =~= seq!['t', 'e', 's', 't']);
    assert(views(v@) =~= seq![seq!['r', 'u', 's', 's', 'i', 'a'], seq!['c', 'h', 'i', 'n', 'a'], seq!['i', 'r', 'a', 'n'], seq!['t', 'e', 's', 't']]);
    proof {
        lemma_ascii_text_eq_ignore_case(v@[0]@);
        lemma_ascii_text_eq_ignore_case(v@[1]@);
        lemma_ascii_text_eq_ignore_case(v@[2]@);
        lemma_ascii_text_eq_ignore_case(v@[3]@);
    }
    v
}

proof fn lemma_ascii_text_eq_ignore_case(s: Seq<char>)
    requires
        vstd::utf8::is_ascii_chars(s),
    ensures
        is_preset(s, s),
{
    vstd::utf8::is_ascii_chars_encode_utf8(s);
    assert(encode_utf8(s) =~= text(s));
}

/// A preset name that is not one of the built-in presets.
#[derive(Debug)]
pub struct UnknownPreset {
    pub name: String,
}

fn preset_is(p: &str, name: &str) -> (r: bool)
    requires
        name.is_ascii(),
    ensures
        r == eq_ignore_case(encode_utf8(p@), text(name@)),
{
    proof {
        vstd::string::is_ascii_spec_bytes(name);
    }
    let nb = name.as_bytes();
    assert(nb@ =~= text(name@));
    eq_ignore_ascii_case(p.as_bytes(), nb)
}

/// The domains of a built-in preset (see `preset_domains`), or the
/// unknown name.
pub fn get_preset_domains(preset: &str) -> (r: Result<Vec<String>, UnknownPreset>)
    ensures
        match preset_domains(preset@) {
            Some(ds) => r matches Ok(v) && views(v@) == ds,
            None => r matches Err(e) && e.name@ == preset@,
        },
{
    let n0 = "russia";
    proof {
        reveal_strlit("russia");
    }
    assert(n0@ =~= seq!['r', 'u', 's', 's', 'i', 'a']);
    let s0 = "ru";
    proof {
        reveal_strlit("ru");
    }
    assert(s0@ =~= seq!['r', 'u']);
    let n1 = "china";
    proof {
        reveal_strlit("china");
    }
    assert(n1@ =~= seq!['c', 'h', 'i', 'n', 'a']);
    let s1 = "cn";
    proof {
        reveal_strlit("cn");
    }
    assert(s1@ =~= seq!['c', 'n']);
    let n2 = "iran";
    proof {
        reveal_strlit("iran");
    }
    assert(n2@ =~= seq!['i', 'r', 'a', 'n']);
    let s2 = "ir";
    proof {
        reveal_strlit("ir");
    }
    assert(s2@ =~= seq!['i', 'r']);
    let n3 = "test";
    proof {
        reveal_strlit("test");
    }
    assert(n3@ =~= seq!['t', 'e', 's', 't']);
    let mut v: Vec<String> = Vec::new();
    if preset_is(preset, n0) || preset_is(preset, s0) {
        let d = "facebook.com";
        proof {
            reveal_strlit("facebook.com");
        }
        v.push(d.to_owned());
        assert(v@.last()@ =~= seq!['f', 'a', 'c', 'e', 'b', 'o', 'o', 'k', '.', 'c', 'o', 'm']);
        let d = "instagram.com";
        proof {
            reveal_strlit("instagram.com");
        }
        v.push(d.to_owned());
        assert(v@.last()@ =~= seq!['i', 'n', 's', 't', 'a', 'g', 'r', 'a', 'm', '.', 'c', 'o', 'm']);
        let d = "twitter.com";
        proof {
            reveal_strlit("twitter.com");
        }
        v.push(d.to_owned());
        assert(v@.last()@ =~= seq!['t', 'w', 'i', 't', 't', 'e', 'r', '.', 'c', 'o', 'm']);
        let d = "x.com";
        proof {
            reveal_strlit("x.com");
        }
        v.push(d.to_owned());
        assert(v@.last()@ =~= seq!['x', '.', 'c', 'o', 'm']);
        let d = "youtube.com";
        proof {
            reveal_strlit("youtube.com");
        }
        v.push(d.to_owned());
        assert(v@.last()@ =~= seq!['y', 'o', 'u', 't', 'u', 'b', 'e', '.', 'c', 'o', 'm']);
        let d = "discord.com";
        proof {
            reveal_strlit("discord.com");
        }
        v.push(d.to_owned());
        assert(v@.last()@ =~= seq!['d', 'i', 's', 'c', 'o', 'r', 'd', '.', 'c', 'o', 'm']);
        let d = "linkedin.com";
        proof {
            reveal_strlit("linkedin.com");
        }
        v.push(d.to_owned());
        assert(v@.last()@ =~= seq!['l', 'i', 'n', 'k', 'e', 'd', 'i', 'n', '.', 'c', 'o', 'm']);
        let d = "medium.com";
        proof {
            reveal_strlit("medium.com");
        }
        v.push(d.to_owned());
        assert(v@.last()@ =~= seq!['m', 'e', 'd', 'i', 'u', 'm', '.', 'c', 'o', 'm']);
        let d = "meduza.io";
        proof {
            reveal_strlit("meduza.io");
        }
        v.push(d.to_owned());
        assert(v@.last()@ =~= seq!['m', 'e', 'd', 'u', 'z', 'a', '.', 'i', 'o']);
        assert(views(v@) =~= russia_domains());
    } else if preset_is(preset, n1) || preset_is(preset, s1) {
        let d = "google.com";
        proof {
            reveal_strlit("google.com");
        }
        v.push(d.to_owned());
        assert(v@.last()@ =~= seq!['g', 'o', 'o', 'g', 'l', 'e', '.', 'c', 'o', 'm']);
        let d = "youtube.com";
        proof {
            reveal_strlit("youtube.com");
        }
        v.push(d.to_owned());
        assert(v@.last()@ =~= seq!['y', 'o', 'u', 't', 'u', 'b', 'e', '.', 'c', 'o', 'm']);
        let d = "facebook.com";
        proof {
            reveal_strlit("facebook.com");
        }
        v.push(d.to_owned());
        assert(v@.last()@ =~= seq!['f', 'a', 'c', 'e', 'b', 'o', 'o', 'k', '.', 'c', 'o', 'm']);
        let d = "twitter.com";
        proof {
            reveal_strlit("twitter.com");
        }
        v.push(d.to_owned());
        assert(v@.last()@ =~= seq!['t', 'w', 'i', 't', 't', 'e', 'r', '.', 'c', 'o', 'm']);
        let d = "wikipedia.org";
        proof {
            reveal_strlit("wikipedia.org");
        }
        v.push(d.to_owned());
        assert(v@.last()@ =~= seq!['w', 'i', 'k', 'i', 'p', 'e', 'd', 'i', 'a', '.', 'o', 'r', 'g']);
        let d = "instagram.com";
        proof {
            reveal_strlit("instagram.com");
        }
        v.push(d.to_owned());
        assert(v@.last()@ =~= seq!['i', 'n', 's', 't', 'a', 'g', 'r', 'a', 'm', '.', 'c', 'o', 'm']);
        assert(views(v@) =~= china_domains());
    } else if preset_is(preset, n2) || preset_is(preset, s2) {
        let d = "youtube.com";
        proof {
            reveal_strlit("youtube.com");
        }
        v.push(d.to_owned());
        assert(v@.last()@ =~= seq!['y', 'o', 'u', 't', 'u', 'b', 'e', '.', 'c', 'o', 'm']);
        let d = "facebook.com";
        proof {
            reveal_strlit("facebook.com");
        }
        v.push(d.to_owned());
        assert(v@.last()@ =~= seq!['f', 'a', 'c', 'e', 'b', 'o', 'o', 'k', '.', 'c', 'o', 'm']);
        let d = "twitter.com";
        proof {
            reveal_strlit("twitter.com");
        }
        v.push(d.to_owned());
        assert(v@.last()@ =~= seq!['t', 'w', 'i', 't', 't', 'e', 'r', '.', 'c', 'o', 'm']);
        let d = "telegram.org";
        proof {
            reveal_strlit("telegram.org");
        }
        v.push(d.to_owned());
        assert(v@.last()@ =~= seq!['t', 'e', 'l', 'e', 'g', 'r', 'a', 'm', '.', 'o', 'r', 'g']);
        let d = "instagram.com";
        proof {
            reveal_strlit("instagram.com");
        }
        v.push(d.to_owned());
        assert(v@.last()@ =~= seq!['i', 'n', 's', 't', 'a', 'g', 'r', 'a', 'm', '.', 'c', 'o', 'm']);
        assert(views(v@) =~= iran_domains());
    } else if preset_is(preset, n3) {
        let d = "facebook.com";
        proof {
            reveal_strlit("facebook.com");
        }
        v.push(d.to_owned());
        assert(v@.last()@ =~= seq!['f', 'a', 'c', 'e', 'b', 'o', 'o', 'k', '.', 'c', 'o', 'm']);
        let d = "youtube.com";
        proof {
            reveal_strlit("youtube.com");
        }
        v.push(d.to_owned());
        assert(v@.last()@ =~= seq!['y', 'o', 'u', 't', 'u', 'b', 'e', '.', 'c', 'o', 'm']);
        assert(views(v@) =~= test_domains());
    } else {
        return Err(UnknownPreset { name: preset.to_owned() });
    }
    Ok(v)
}


/// The pieces of `b` between newline bytes (a text without newlines is
/// one piece).
pub open spec fn newline_pieces(b: Seq<u8>) -> Seq<Seq<u8>>
    decreases b.len(),
{
    if b.len() == 0 {
        seq![Seq::empty()]
    } else {
        let p = newline_pieces(b.drop_last());
        if b.last() == 10 {
            p.push(Seq::empty())
        } else {
            p.update(p.len() - 1, p.last().push(b.last()))
        }
    }
}

/// The domains a list of lines names: each line trimmed, without empty
/// lines and lines starting with `#`.
pub open spec fn listed_domains(lines: Seq<Seq<u8>>) -> Seq<Seq<char>>
    decreases lines.len(),
{
    if lines.len() == 0 {
        Seq::empty()
    } else {
        let prev = listed_domains(lines.drop_last());
        let t = trim_chars(decode_utf8(lines.last()));
        if names_domain(t) {
            prev.push(t)
        } else {
            prev
        }
    }
}

/// The domains of a domains file: one per line, trimmed; empty lines and
/// lines starting with `#` are skipped.
pub open spec fn domains_in_text(t: Seq<char>) -> Seq<Seq<char>> {
    listed_domains(newline_pieces(encode_utf8(t)))
}

/// Whether a line names a domain: not empty once trimmed and not
/// starting with `#`.
pub open spec fn names_domain(t: Seq<char>) -> bool {
    t.len() > 0 && t[0] != '#'
}

fn listed_domain(piece: &[u8]) -> (r: Option<String>)
    requires
        valid_utf8(piece@),
    ensures
        match r {
            Some(s) => s@ == trim_chars(decode_utf8(piece@)) && names_domain(s@),
            None => !names_domain(trim_chars(decode_utf8(piece@))),
        },
{
    let v = copy_range(piece, 0, piece.len());
    assert(v@ =~= piece@);
    let s = string_of(&v);
    proof {
        encode_utf8_decode_utf8(s@);
    }
    let t = trim_string(&s);
    if t.as_str().is_empty() {
        return None;
    }
    if t.as_str().get_char(0) == '#' {
        return None;
    }
    Some(t)
}

/// The domains of a domains file (see `domains_in_text`).
pub fn domains_from_text(content: &str) -> (r: Vec<String>)
    ensures
        views(r@) == domains_in_text(content@),
{
    let b = content.as_bytes();
    let n = b.len();
    proof {
        encode_utf8_valid_utf8(content@);
    }
    let mut out: Vec<String> = Vec::new();
    let mut start: usize = 0;
    let mut i: usize = 0;
    let ghost mut done: Seq<Seq<u8>> = Seq::empty();
    assert(b@.subrange(0, 0) =~= Seq::<u8>::empty());
    assert(newline_pieces(b@.subrange(0, 0)) =~= done.push(b@.subrange(0, 0)));
    while i < n
        invariant
            n == b@.len(),
            b@ == encode_utf8(content@),
            valid_utf8(b@),
            start <= i <= n,
            start == 0 || b@[start - 1] == 10,
            newline_pieces(b@.subrange(0, i as int)) == done.push(b@.subrange(start as int, i as int)),
            views(out@) == listed_domains(done),
        decreases n - i,
    {
        assert(b@.subrange(0, i + 1).drop_last() =~= b@.subrange(0, i as int));
        assert(b@.subrange(0, i + 1).last() == b@[i as int]);
        if b[i] == 10 {
            proof {
                lemma_valid_utf8_ascii_cut(b@, start as int, i as int);
            }
            let piece = copy_range(b, start, i);
            let got = listed_domain(piece.as_slice());
            let ghost before = done;
            proof {
                done = done.push(b@.subrange(start as int, i as int));
                assert(done.drop_last() =~= before);
            }
            match got {
                Some(s) => {
                    out.push(s);
                },
                None => {},
            }
            assert(views(out@) =~= listed_domains(done));
            start = i + 1;
            assert(b@.subrange(start as int, i + 1) =~= Seq::<u8>::empty());
        } else {
            assert(b@.subrange(start as int, i + 1) =~= b@.subrange(start as int, i as int).push(b@[i as int]));
        }
        i = i + 1;
    }
    proof {
        lemma_valid_utf8_ascii_cut(b@, start as int, n as int);
    }
    assert(b@.subrange(0, n as int) =~= b@);
    let piece = copy_range(b, start, n);
    let got = listed_domain(piece.as_slice());
    let ghost before = done;
    proof {
        done = done.push(b@.subrange(start as int, n as int));
        assert(done.drop_last() =~= before);
    }
    match got {
        Some(s) => {
            out.push(s);
        },
        None => {},
    }
    assert(views(out@) =~= listed_domains(done));
    out
}

/// Byte-wise lexicographic order, the order of strings.
pub open spec fn lex_lt(a: Seq<u8>, b: Seq<u8>) -> bool
    decreases a.len(),
{
    if a.len() == 0 {
        b.len() > 0
    } else if b.len() == 0 {
        false
    } else if a[0] != b[0] {
        a[0] < b[0]
    } else {
        lex_lt(a.drop_first(), b.drop_first())
    }
}

/// No byte string comes before itself.
pub proof fn lemma_lex_irreflexive(a: Seq<u8>)
    ensures
        !lex_lt(a, a),
    decreases a.len(),
{
    if a.len() > 0 {
        lemma_lex_irreflexive(a.drop_first());
    }
}

/// The order is transitive.
pub proof fn lemma_lex_transitive(a: Seq<u8>, b: Seq<u8>, c: Seq<u8>)
    requires
        lex_lt(a, b),
        lex_lt(b, c),
    ensures
        lex_lt(a, c),
    decreases a.len(),
{
    if a.len() > 0 && a[0] == b[0] && b[0] == c[0] {
        lemma_lex_transitive(a.drop_first(), b.drop_first(), c.drop_first());
    }
}

/// Of two different byte strings, one comes first.
pub proof fn lemma_lex_total(a: Seq<u8>, b: Seq<u8>)
    ensures
        a == b || lex_lt(a, b) || lex_lt(b, a),
    decreases a.len(),
{
    if a.len() > 0 && b.len() > 0 && a[0] == b[0] {
        lemma_lex_total(a.drop_first(), b.drop_first());
        if a.drop_first() == b.drop_first() {
            assert(a =~= seq![a[0]] + a.drop_first());
            assert(b =~= seq![b[0]] + b.drop_first());
        }
    } else if a.len() == 0 && b.len() == 0 {
        assert(a =~= b);
    }
}

/// Whether `a` comes before `b`, byte-wise.
pub fn bytes_lt(a: &[u8], b: &[u8]) -> (r: bool)
    ensures
        r == lex_lt(a@, b@),
{
    let na = a.len();
    let nb = b.len();
    let mut i: usize = 0;
    assert(a@.skip(0) =~= a@);
    assert(b@.skip(0) =~= b@);
    while i < na && i < nb
        invariant
            na == a@.len(),
            nb == b@.len(),
            i <= na,
            i <= nb,
            lex_lt(a@, b@) == lex_lt(a@.skip(i as int), b@.skip(i as int)),
        decreases na - i,
    {
        if a[i] != b[i] {
            assert(a@.skip(i as int)[0] == a@[i as int]);
            assert(b@.skip(i as int)[0] == b@[i as int]);
            return a[i] < b[i];
        }
        assert(a@.skip(i as int).drop_first() =~= a@.skip(i + 1));
        assert(b@.skip(i as int).drop_first() =~= b@.skip(i + 1));
        i = i + 1;
    }
    assert(a@.skip(i as int).len() == na - i);
    assert(b@.skip(i as int).len() == nb - i);
    i == na && i < nb
}

/// The bytes of a string.
pub open spec fn sbytes(s: String) -> Seq<u8> {
    encode_utf8(s@)
}

/// Whether strings are in strictly increasing byte order.
pub open spec fn strictly_sorted(v: Seq<String>) -> bool {
    forall|i: int, j: int| 0 <= i < j < v.len() ==> lex_lt(sbytes(#[trigger] v[i]), sbytes(#[trigger] v[j]))
}

/// Whether every string of `a` occurs in `b`.
pub open spec fn all_in(a: Seq<String>, b: Seq<String>) -> bool {
    forall|i: int| 0 <= i < a.len() ==> views(b).contains(#[trigger] a[i]@)
}

proof fn lemma_all_in(a: Seq<String>, b: Seq<String>, at: Seq<int>)
    requires
        at.len() >= a.len(),
        forall|i: int| 0 <= i < a.len() ==> 0 <= #[trigger] at[i] < b.len() && b[at[i]]@ == a[i]@,
    ensures
        all_in(a, b),
{
    assert forall|i: int| 0 <= i < a.len() implies views(b).contains(#[trigger] a[i]@) by {
        let j = at[i];
        assert(views(b)[j] == a[i]@);
    }
}

proof fn lemma_same_set(a: Seq<String>, b: Seq<String>)
    requires
        all_in(a, b),
        all_in(b, a),
    ensures
        views(b).to_set() == views(a).to_set(),
{
    assert forall|x: Seq<char>| views(a).contains(x) implies views(b).contains(x) by {
        let i = choose|i: int| 0 <= i < views(a).len() && views(a)[i] == x;
        assert(a[i]@ == x);
    }
    assert forall|x: Seq<char>| views(b).contains(x) implies views(a).contains(x) by {
        let i = choose|i: int| 0 <= i < views(b).len() && views(b)[i] == x;
        assert(b[i]@ == x);
    }
    assert(views(b).to_set() =~= views(a).to_set());
}

/// The strings of `v` sorted in byte order, each once (as `sort` and
/// `dedup` leave them).
pub fn sorted_unique(v: &Vec<String>) -> (r: Vec<String>)
    ensures
        strictly_sorted(r@),
        views(r@).to_set() == views(v@).to_set(),
{
    let mut r: Vec<String> = Vec::new();
    let ghost mut src: Seq<int> = Seq::empty();
    let ghost mut at: Seq<int> = Seq::empty();
    let mut idx: usize = 0;
    while idx < v.len()
        invariant
            idx <= v@.len(),
            strictly_sorted(r@),
            src.len() == r@.len(),
            forall|j: int| 0 <= j < r@.len() ==> 0 <= #[trigger] src[j] < idx && r@[j]@ == v@[src[j]]@,
            at.len() == idx,
            forall|i: int| 0 <= i < idx ==> 0 <= #[trigger] at[i] < r@.len() && r@[at[i]]@ == v@[i]@,
        decreases v@.len() - idx,
    {
        let x = &v[idx];
        let xb = x.as_str().as_bytes();
        let mut p: usize = 0;
        loop
            invariant
                p <= r@.len(),
                idx < v@.len(),
                xb@ == sbytes(v@[idx as int]),
                forall|k: int| 0 <= k < p ==> lex_lt(sbytes(#[trigger] r@[k]), xb@),
            ensures
                p <= r@.len(),
                forall|k: int| 0 <= k < p ==> lex_lt(sbytes(#[trigger] r@[k]), xb@),
                p < r@.len() ==> !lex_lt(sbytes(r@[p as int]), xb@),
            decreases r@.len() - p,
        {
            if p >= r.len() {
                break;
            }
            if !bytes_lt(r[p].as_str().as_bytes(), xb) {
                break;
            }
            p = p + 1;
        }
        if p < r.len() && str_eq(r[p].as_str(), x.as_str()) {
            proof {
                at = at.push(p as int);
            }
        } else {
            let ghost old_r = r@;
            proof {
                if p < old_r.len() {
                    lemma_lex_total(sbytes(old_r[p as int]), xb@);
                    if sbytes(old_r[p as int]) == xb@ {
                        encode_utf8_decode_utf8(old_r[p as int]@);
                        encode_utf8_decode_utf8(v@[idx as int]@);
                    }
                    assert(lex_lt(xb@, sbytes(old_r[p as int])));
                }
            }
            r.insert(p, x.clone());
            proof {
                assert(r@[p as int]@ == v@[idx as int]@);
                assert forall|i: int, j: int| 0 <= i < j < r@.len() implies lex_lt(
                    sbytes(#[trigger] r@[i]),
                    sbytes(#[trigger] r@[j]),
                ) by {
                    if j < p {
                        assert(r@[i] == old_r[i] && r@[j] == old_r[j]);
                    } else if j == p {
                        assert(r@[i] == old_r[i]);
                    } else if i == p {
                        assert(r@[j] == old_r[j - 1]);
                        if j - 1 > p {
                            lemma_lex_transitive(xb@, sbytes(old_r[p as int]), sbytes(old_r[j - 1]));
                        }
                    } else if i < p {
                        assert(r@[i] == old_r[i] && r@[j] == old_r[j - 1]);
                    } else {
                        assert(r@[i] == old_r[i - 1] && r@[j] == old_r[j - 1]);
                    }
                }
                let ghost old_src = src;
                src = old_src.insert(p as int, idx as int);
                assert forall|j: int| 0 <= j < r@.len() implies 0 <= #[trigger] src[j] < idx + 1 && r@[j]@
                    == v@[src[j]]@ by {
                    if j < p {
                        assert(src[j] == old_src[j] && r@[j] == old_r[j]);
                    } else if j > p {
                        assert(src[j] == old_src[j - 1] && r@[j] == old_r[j - 1]);
                    }
                }
                let ghost old_at = at;
                at = Seq::new(idx as nat, |i: int| if old_at[i] >= p { old_at[i] + 1 } else { old_at[i] }).push(
                    p as int,
                );
                assert forall|i: int| 0 <= i < idx + 1 implies 0 <= #[trigger] at[i] < r@.len() && r@[at[i]]@
                    == v@[i]@ by {
                    if i < idx {
                        let k = old_at[i];
                        if k >= p {
                            assert(r@[k + 1] == old_r[k]);
                        } else {
                            assert(r@[k] == old_r[k]);
                        }
                    }
                }
            }
        }
        idx = idx + 1;
    }
    proof {
        lemma_all_in(v@, r@, at);
        lemma_all_in(r@, v@, src);
        lemma_same_set(v@, r@);
    }
    r
}

/// Why no domain list could be made for a search.
#[derive(Debug)]
pub enum DomainListError {
    /// The preset asked for is not a built-in one.
    UnknownPreset(String),
    /// No domain was given in any way.
    NoDomains,
}

/// The domains a search was asked for, in the order given: those named,
/// those of the domains file, those of the preset.
pub open spec fn requested_domains(named: Seq<Seq<char>>, file: Option<Seq<char>>, preset: Seq<Seq<char>>) -> Seq<Seq<char>> {
    named + match file {
        Some(t) => domains_in_text(t),
        None => Seq::empty(),
    } + preset
}

fn append_strings(out: &mut Vec<String>, more: &Vec<String>)
    ensures
        views(final(out)@) == views(old(out)@) + views(more@),
{
    let ghost start = out@;
    let mut i: usize = 0;
    while i < more.len()
        invariant
            i <= more@.len(),
            views(out@) == views(start) + views(more@.subrange(0, i as int)),
        decreases more@.len() - i,
    {
        let ghost before = out@;
        let c = more[i].clone();
        out.push(c);
        assert(more@.subrange(0, i + 1) =~= more@.subrange(0, i as int).push(more@[i as int]));
        assert(views(out@) =~= views(before).push(c@));
        assert(views(more@.subrange(0, i + 1)) =~= views(more@.subrange(0, i as int)).push(more@[i as int]@));
        assert(views(out@) =~= views(start) + views(more@.subrange(0, i + 1)));
        i = i + 1;
    }
    assert(more@.subrange(0, more@.len() as int) =~= more@);
}

/// The domains to search: those named, those of the domains file and
/// those of the preset, sorted in byte order with each once; an error
/// for an unknown preset, or when there is no domain at all.
pub fn adapt_domain_list(named: Vec<String>, file_text: Option<&str>, preset: Option<&str>) -> (r: Result<
    Vec<String>,
    DomainListError,
>)
    ensures
        match preset {
            Some(p) => preset_domains(p@) is None ==> (r matches Err(DomainListError::UnknownPreset(n)) && n@ == p@),
            None => true,
        },
        (match preset {
            Some(p) => preset_domains(p@) is Some,
            None => true,
        }) ==> {
            let all = requested_domains(
                views(named@),
                match file_text {
                    Some(t) => Some(t@),
                    None => None,
                },
                match preset {
                    Some(p) => preset_domains(p@)->0,
                    None => Seq::empty(),
                },
            );
            &&& all.len() == 0 ==> (r matches Err(DomainListError::NoDomains))
            &&& all.len() > 0 ==> (r matches Ok(v) && strictly_sorted(v@) && views(v@).to_set() == all.to_set())
        },
{
    let mut all = named;
    match file_text {
        Some(t) => {
            let ds = domains_from_text(t);
            append_strings(&mut all, &ds);
        },
        None => {},
    }
    match preset {
        Some(p) => {
            match get_preset_domains(p) {
                Ok(ds) => {
                    append_strings(&mut all, &ds);
                },
                Err(e) => {
                    return Err(DomainListError::UnknownPreset(e.name));
                },
            }
        },
        None => {},
    }
    if all.len() == 0 {
        return Err(DomainListError::NoDomains);
    }
    let r = sorted_unique(&all);
    Ok(r)
}

proof fn lemma_no_catch_all_before(rules: Seq<MatchRule>, i: int)
    requires
        0 <= i < rules.len(),
        is_catch_all(rules.last()),
        forall|k: int| i <= k < rules.len() - 1 ==> !is_catch_all(#[trigger] rules[k]),
    ensures
        first_catch_all(rules, i) == rules.len() - 1,
    decreases rules.len() - i,
{
    if i < rules.len() - 1 {
        lemma_no_catch_all_before(rules, i + 1);
    } else {
        assert(rules[i] == rules.last());
    }
}

proof fn lemma_last_rule_is_first_catch_all(
    strategies: Seq<(String, StrategyDef)>,
    rules: Seq<MatchRule>,
    discovered: Seq<(String, Strategy)>,
    name: Seq<char>,
)
    requires
        has_domain_entries(strategies, rules, discovered),
        rules.len() == discovered.len() + 1,
        is_catch_all_rule(rules.last(), name),
        forall|i: int| 0 <= i < discovered.len() ==> (#[trigger] discovered[i]).0@ != seq!['*'],
    ensures
        first_catch_all(rules, 0) == rules.len() - 1,
{
    assert forall|k: int| 0 <= k < rules.len() - 1 implies !is_catch_all(#[trigger] rules[k]) by {
        let d = discovered[k].0@;
        assert(views(rules[k].domains@) == domain_patterns(d));
        if is_catch_all(rules[k]) {
            let j = choose|j: int| 0 <= j < rules[k].domains@.len() && (#[trigger] rules[k].domains@[j])@ == seq!['*'];
            assert(views(rules[k].domains@)[j] == rules[k].domains@[j]@);
            if j == 0 {
                assert(d == seq!['*']);
            } else {
                assert((seq!['*', '.'] + d).len() >= 2);
            }
        }
    }
    let dl = rules.last().domains@;
    assert(views(dl).len() == 1);
    assert(dl.len() == 1);
    assert(views(dl)[0] == dl[0]@);
    assert(views(dl)[0] == seq!['*']);
    assert(dl[0]@ == seq!['*']);
    assert(is_catch_all(rules.last()));
    lemma_no_catch_all_before(rules, 0);
}

/// The names under which a config defines its strategies.
pub open spec fn defined_names(strategies: Seq<(String, StrategyDef)>) -> Seq<Seq<char>> {
    strategies.map_values(|e: (String, StrategyDef)| e.0@)
}

/// Loading a config written after a search, with no strategy chosen on
/// the command line, makes the strategy of the first discovered domain
/// the default (`passthrough` when nothing was discovered), as long as no
/// discovered domain is the catch-all pattern `*` itself.
pub proof fn lemma_generated_config_default(r: GeneratedConfig, discovered: Seq<(String, Strategy)>)
    requires
        is_generated(r, discovered),
        forall|i: int| 0 <= i < discovered.len() ==> (#[trigger] discovered[i]).0@ != seq!['*'],
    ensures
        spec_default_strategy(None, r.rules@, defined_names(r.strategies@)) == if discovered.len() > 0 {
            clean_name(discovered[0].0@)
        } else {
            passthrough_name()
        },
{
    lemma_last_rule_is_first_catch_all(
        r.strategies@,
        r.rules@,
        discovered,
        if discovered.len() > 0 {
            clean_name(discovered[0].0@)
        } else {
            passthrough_name()
        },
    );
}

/// Loading a config the graphical interface wrote, with no strategy
/// chosen on the command line, makes `passthrough` the default, as long
/// as no discovered domain is the catch-all pattern `*` itself.
pub proof fn lemma_gui_config_default(r: GeneratedConfig, discovered: Seq<(String, Strategy)>)
    requires
        is_generated_for_gui(r, discovered),
        forall|i: int| 0 <= i < discovered.len() ==> (#[trigger] discovered[i]).0@ != seq!['*'],
    ensures
        spec_default_strategy(None, r.rules@, defined_names(r.strategies@)) == passthrough_name(),
{
    lemma_last_rule_is_first_catch_all(r.strategies@, r.rules@, discovered, passthrough_name());
}

} // verus!
