use desyncd::config::{
    adapt_domain_list, active_stealth, default_strategy, domains_from_text, generate_config, get_preset_domains,
    log_level, preset_names, resolve_strategies, sorted_unique, startup_strategies, strategy_name_for, AdaptConfig,
    AdaptationConfig, DomainListError, GeneralConfig, StrategyDef,
};
use desyncd::firewall::{IptablesManager, IptablesRedirectManager};
use desyncd::strategy::{MatchRule, Strategy};
use desyncd::technique::TechniqueConfig;
use desyncd::types::{Mode, SplitPosition, StealthConfig};

fn technique(name: &str) -> TechniqueConfig {
    TechniqueConfig {
        name: name.to_string(),
        split_position: Some(SplitPosition::Sni),
        enabled: true,
        fake_type: None,
        sni_mode: None,
        fragments: None,
        host_mode: None,
        stealth: None,
        l7_filter: None,
    }
}

fn strategy(name: &str, tech: &str) -> Strategy {
    Strategy { name: name.to_string(), techniques: vec![technique(tech)] }
}

fn rule(domains: &[&str], strategy: &str, priority: i32) -> MatchRule {
    MatchRule { domains: domains.iter().map(|d| d.to_string()).collect(), strategy: strategy.to_string(), priority }
}

#[test]
fn adapt_config_defaults() {
    let c = AdaptConfig::default();
    assert!(c.enabled);
    assert_eq!(c.test_interval_secs, 21600);
    assert!(c.test_domains.is_empty());
    assert_eq!(c.max_probes, 40);
    assert_eq!(c.timeout_secs, 10);
    assert_eq!(c.db_path, "~/.local/share/desyncd/state.db");
    assert!(c.secure_dns);
    assert_eq!(c.test_interval(), std::time::Duration::from_secs(21600));
    assert_eq!(c.probe_timeout(), std::time::Duration::from_secs(10));
    let a = AdaptationConfig::default();
    assert_eq!(a.test_interval_secs, 21600);
    assert_eq!(a.db_path, "~/.local/share/desyncd/state.db");
    let g = GeneralConfig::default();
    assert_eq!(g.mode, Mode::Socks);
    assert_eq!(g.log_level, "info");
}

#[test]
fn verbosity_overrides_log_level() {
    assert_eq!(log_level(0, "warn"), "warn");
    assert_eq!(log_level(1, "warn"), "debug");
    assert_eq!(log_level(2, "warn"), "trace");
    assert_eq!(log_level(9, "warn"), "trace");
}

#[test]
fn no_strategies_gives_default_tls() {
    let s = resolve_strategies(Vec::new());
    assert_eq!(s.len(), 1);
    assert_eq!(s[0].name, "default_tls");
    assert_eq!(s[0].techniques[0].name, "tcp_split");
    assert_eq!(s[0].techniques[0].split_position, Some(SplitPosition::Sni));
    let defs = vec![("mine".to_string(), StrategyDef { techniques: vec![technique("disorder")] })];
    let s = resolve_strategies(defs);
    assert_eq!(s.len(), 1);
    assert_eq!(s[0].name, "mine");
    assert_eq!(s[0].techniques[0].name, "disorder");
}

#[test]
fn default_strategy_precedence() {
    let rules = vec![rule(&["a.com"], "a", 5), rule(&["x.com", "*"], "catch", 0)];
    let defined = vec!["first".to_string()];
    assert_eq!(default_strategy(Some("cli".into()), &rules, &defined), "cli");
    assert_eq!(default_strategy(None, &rules, &defined), "catch");
    assert_eq!(default_strategy(None, &vec![rule(&["*.a.com"], "a", 1)], &defined), "first");
    assert_eq!(default_strategy(None, &Vec::new(), &Vec::new()), "default_tls");
}

#[test]
fn startup_uses_auto_default_without_strategies() {
    let (s, r) = startup_strategies(Vec::new(), Vec::new());
    assert_eq!(s.len(), 1);
    assert_eq!(s[0].name, "auto_default");
    assert_eq!(s[0].techniques[0].name, "tls_record_frag");
    assert_eq!(s[0].techniques[0].split_position, Some(SplitPosition::SniOffset(-1)));
    assert_eq!(r.len(), 1);
    assert_eq!(r[0].domains, vec!["*".to_string()]);
    assert_eq!(r[0].strategy, "auto_default");
    assert_eq!(r[0].priority, 0);
    let (s, r) = startup_strategies(vec![strategy("x", "disorder")], vec![rule(&["a.com"], "x", 3)]);
    assert_eq!(s[0].name, "x");
    assert_eq!(r[0].strategy, "x");
}

#[test]
fn stealth_only_when_set() {
    assert!(active_stealth(&StealthConfig::default()).is_none());
    let s = StealthConfig { split_jitter: 2, ..StealthConfig::default() };
    assert_eq!(active_stealth(&s).unwrap().split_jitter, 2);
}

#[test]
fn strategy_names_from_domains() {
    assert_eq!(strategy_name_for("facebook.com"), "facebook_com");
    assert_eq!(strategy_name_for("*.cdn.net"), "wildcard_cdn_net");
    assert_eq!(strategy_name_for("пример.рф"), "пример_рф");
}

#[test]
fn generated_config_has_rules_and_catch_all() {
    let discovered = vec![
        ("youtube.com".to_string(), strategy("probe_disorder", "disorder")),
        ("x.com".to_string(), strategy("probe_tcp_split", "tcp_split")),
    ];
    let general = GeneralConfig { mode: Mode::Socks, log_level: "info".into() };
    let adaptation = AdaptationConfig::default();
    let g = generate_config(general, &adaptation, StealthConfig::default(), &discovered);
    assert_eq!(g.strategies.len(), 2);
    assert_eq!(g.strategies[0].0, "youtube_com");
    assert_eq!(g.strategies[0].1.techniques[0].name, "disorder");
    assert_eq!(g.strategies[1].0, "x_com");
    assert_eq!(g.rules.len(), 3);
    assert_eq!(g.rules[0].domains, vec!["youtube.com".to_string(), "*.youtube.com".to_string()]);
    assert_eq!(g.rules[0].strategy, "youtube_com");
    assert_eq!(g.rules[0].priority, 10);
    assert_eq!(g.rules[1].priority, 11);
    assert_eq!(g.rules[2].domains, vec!["*".to_string()]);
    assert_eq!(g.rules[2].strategy, "youtube_com");
    assert_eq!(g.rules[2].priority, 0);
    assert!(g.adaptation.enabled);
    assert_eq!(g.adaptation.test_domains, vec!["youtube.com".to_string(), "x.com".to_string()]);
    // Loading it back: the catch-all rule's strategy is the default.
    let names: Vec<String> = g.strategies.iter().map(|(n, _)| n.clone()).collect();
    assert_eq!(default_strategy(None, &g.rules, &names), "youtube_com");

    let g = generate_config(GeneralConfig::default(), &adaptation, StealthConfig::default(), &Vec::new());
    assert_eq!(g.strategies.len(), 1);
    assert_eq!(g.strategies[0].0, "passthrough");
    assert!(g.strategies[0].1.techniques.is_empty());
    assert_eq!(g.rules.len(), 1);
    assert_eq!(g.rules[0].strategy, "passthrough");
}

#[test]
fn presets_ignore_case() {
    let ru = get_preset_domains("Russia").unwrap();
    assert_eq!(ru.len(), 9);
    assert_eq!(ru[0], "facebook.com");
    assert_eq!(ru[8], "meduza.io");
    assert_eq!(get_preset_domains("RU").unwrap().len(), 9);
    assert_eq!(get_preset_domains("cn").unwrap()[0], "google.com");
    assert_eq!(get_preset_domains("iran").unwrap()[3], "telegram.org");
    assert_eq!(get_preset_domains("test").unwrap(), vec!["facebook.com".to_string(), "youtube.com".to_string()]);
    let e = get_preset_domains("mars").unwrap_err();
    assert_eq!(e.name, "mars");
}

#[test]
fn domains_file_skips_comments_and_blank_lines() {
    let text = "# blocked\nfacebook.com\n\n  twitter.com  \r\n#x.com\n   \nyoutube.com";
    assert_eq!(domains_from_text(text), vec!["facebook.com", "twitter.com", "youtube.com"]);
    assert!(domains_from_text("").is_empty());
    assert_eq!(domains_from_text("a.com\n"), vec!["a.com"]);
}

#[test]
fn sorted_unique_sorts_bytewise() {
    let v: Vec<String> = ["b.com", "a.com", "b.com", "B.com", "a.co"].iter().map(|s| s.to_string()).collect();
    assert_eq!(sorted_unique(&v), vec!["B.com", "a.co", "a.com", "b.com"]);
}

#[test]
fn adapt_domain_list_combines_sources() {
    let named = vec!["youtube.com".to_string(), "zz.org".to_string()];
    let r = adapt_domain_list(named, Some("a.com\nyoutube.com\n"), Some("test")).unwrap();
    assert_eq!(r, vec!["a.com", "facebook.com", "youtube.com", "zz.org"]);
    match adapt_domain_list(Vec::new(), None, None) {
        Err(DomainListError::NoDomains) => {},
        other => panic!("unexpected: {:?}", other),
    }
    match adapt_domain_list(vec!["a.com".into()], None, Some("atlantis")) {
        Err(DomainListError::UnknownPreset(p)) => assert_eq!(p, "atlantis"),
        other => panic!("unexpected: {:?}", other),
    }
}

#[test]
fn iptables_commands_per_port() {
    let m = IptablesManager::new(200, vec![443, 80]);
    assert!(!m.installed());
    let cmds = m.rule_commands(true);
    assert_eq!(cmds.len(), 2);
    assert_eq!(
        cmds[0].join(" "),
        "-A OUTPUT -p tcp --dport 443 -m connbytes --connbytes 1:6 --connbytes-dir original --connbytes-mode packets -j NFQUEUE --queue-num 200 --queue-bypass"
    );
    assert_eq!(m.rule_commands(false)[1][0], "-D");
    assert_eq!(m.rule_commands(false)[1][5], "80");

    let r = IptablesRedirectManager::new(1080, vec![80]);
    assert_eq!(r.rule_commands(true)[0].join(" "), "-t nat -A OUTPUT -p tcp --dport 80 -j REDIRECT --to-ports 1080");
    assert_eq!(r.rule_commands(false)[0][2], "-D");
}

#[test]
fn iptables_cleanup_only_after_install() {
    let mut m = IptablesManager::new(200, vec![443, 80]);
    assert!(m.drop_commands().is_empty());
    m.mark_installed();
    assert!(m.installed());
    assert_eq!(m.drop_commands(), m.rule_commands(false));
    assert_eq!(m.drop_commands()[0][0], "-D");

    let mut r = IptablesRedirectManager::new(1080, vec![80, 443]);
    assert!(r.drop_commands().is_empty());
    r.mark_installed();
    assert_eq!(r.drop_commands().len(), 2);
    assert_eq!(r.drop_commands()[1].join(" "), "-t nat -D OUTPUT -p tcp --dport 443 -j REDIRECT --to-ports 1080");
}

#[test]
fn preset_names_are_the_presets() {
    let names = preset_names();
    assert_eq!(names, vec!["russia", "china", "iran", "test"]);
    for n in &names {
        assert!(get_preset_domains(n).is_ok());
    }
}
