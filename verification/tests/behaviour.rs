use mihomo_manifold::api::{format_bytes, DelaySample, ProxyInfo};
use mihomo_manifold::config::{AppConfig, AppMatch, AppRule, DomainRule, MatchKind, Target};
use mihomo_manifold::corectl::{classify, ExecOutcome, TunReadiness};
use mihomo_manifold::headers::{format_headers, parse_headers};
use mihomo_manifold::json::{merge, prune, Json};
use mihomo_manifold::subscription::{classify_error, extract_proxies, parse_user_info, FetchError};
use mihomo_manifold::template::{generate, rules};
use mihomo_manifold::yaml::Yaml;

fn num(text: &str) -> Json {
    Json::Number(text.to_string())
}

fn object(members: Vec<(&str, Json)>) -> Json {
    Json::Object(members.into_iter().map(|(k, v)| (k.to_string(), v)).collect())
}

fn node(name: &str) -> Yaml {
    Yaml::Mapping(vec![
        (Yaml::Text("name".to_string()), Yaml::Text(name.to_string())),
        (Yaml::Text("type".to_string()), Yaml::Text("vless".to_string())),
    ])
}

#[test]
fn humanises_sizes() {
    assert_eq!(format_bytes(512), "512 B");
    assert_eq!(format_bytes(1536), "1.5 KiB");
}

#[test]
fn zero_delay_means_unreachable() {
    let info = ProxyInfo {
        name: "n".into(),
        kind: "Vless".into(),
        now: None,
        all: vec![],
        history: vec![DelaySample { delay: 0 }],
        udp: false,
    };
    assert_eq!(info.last_delay(), None);
}

#[test]
fn user_config_wins_over_declarative_defaults() {
    let mut base = object(vec![("core", object(vec![("ipv6", Json::Bool(true)), ("mixed_port", num("1080"))]))]);
    merge(&mut base, object(vec![("core", object(vec![("mixed_port", num("7890"))]))]));
    let core = base.get("core").unwrap();
    assert!(core.get("mixed_port").unwrap().same(&num("7890")));
    assert!(core.get("ipv6").unwrap().same(&Json::Bool(true)));
}

#[test]
fn saving_does_not_shadow_untouched_defaults() {
    let defaults = object(vec![("core", object(vec![("ipv6", Json::Bool(true)), ("mixed_port", num("1080"))]))]);
    let full = object(vec![
        (
            "core",
            object(vec![
                ("ipv6", Json::Bool(false)),
                ("log_level", Json::Str("info".to_string())),
                ("mixed_port", num("1080")),
            ]),
        ),
        ("subscriptions", Json::Array(vec![])),
    ]);

    let pruned = prune(full, &defaults);
    // Untouched: stays the declarative layer's business.
    assert!(pruned.get("core").unwrap().get("mixed_port").is_none());
    // Changed in the UI: written out and wins on the next load.
    assert!(pruned.get("core").unwrap().get("ipv6").unwrap().same(&Json::Bool(false)));
    assert!(pruned.get("core").unwrap().get("log_level").unwrap().same(&Json::Str("info".to_string())));

    // And the round trip puts the defaults back.
    let mut reloaded = defaults.deep_clone();
    merge(&mut reloaded, pruned);
    assert!(reloaded.get("core").unwrap().get("mixed_port").unwrap().same(&num("1080")));
    assert!(reloaded.get("core").unwrap().get("ipv6").unwrap().same(&Json::Bool(false)));
}

#[test]
fn without_a_defaults_file_everything_is_written() {
    let full = object(vec![("core", object(vec![("mixed_port", num("7890"))]))]);
    let pruned = prune(full.deep_clone(), &Json::Object(vec![]));
    assert!(pruned.same(&full));
}

#[test]
fn ip_rules_do_not_resolve() {
    let rule = DomainRule {
        kind: MatchKind::Geoip,
        value: "RU".into(),
        target: Target::Direct,
        enabled: true,
    };
    // Without fake-ip the destination address is already the real one.
    assert_eq!(rule.to_rule(false), "GEOIP,RU,DIRECT,no-resolve");
    // With fake-ip it must be allowed to resolve, or it matches nothing.
    assert_eq!(rule.to_rule(true), "GEOIP,RU,DIRECT");
}

#[test]
fn group_membership_is_not_a_missing_capability() {
    let readiness = classify("/run/wrappers/bin/mihomo".into(), ExecOutcome::PermissionDenied, None);
    assert!(matches!(&readiness, TunReadiness::NotPermitted(p) if p == "/run/wrappers/bin/mihomo"));
    let warning = readiness.warning().unwrap();
    assert!(warning.contains("Log out and back in"), "{warning}");
    assert!(!warning.contains("CAP_NET_ADMIN"), "{warning}");
}

#[test]
fn capabilities_are_read_from_getcap() {
    let caps = Some("/run/wrappers/bin/mihomo cap_net_bind_service,cap_net_admin,cap_net_raw=ep\n".to_string());
    assert!(matches!(classify("p".into(), ExecOutcome::Ran, caps), TunReadiness::Ready));
    assert!(matches!(
        classify("p".into(), ExecOutcome::Ran, Some(String::new())),
        TunReadiness::NoCapabilities(p) if p == "p"
    ));
}

#[test]
fn no_getcap_means_no_warning() {
    let readiness = classify("p".into(), ExecOutcome::Ran, None);
    assert!(matches!(readiness, TunReadiness::Unknown));
    assert!(readiness.warning().is_none());
}

#[test]
fn reads_traffic_counters() {
    let info = parse_user_info("upload=100; download=200; total=1000; expire=1789000000");
    assert_eq!(info.used(), 300);
    assert_eq!(info.remaining(), 700);
    assert_eq!(info.expire, 1789000000);
}

#[test]
fn device_limit_is_its_own_error() {
    let err = classify_error(403, r#"{"message":"Device limit reached for this user"}"#);
    assert!(matches!(err, FetchError::DeviceLimit(_)));

    let err = classify_error(500, "upstream exploded");
    assert!(matches!(err, FetchError::Http { status: 500, .. }));
}

#[test]
fn rejects_non_clash_payloads() {
    let err = extract_proxies("dm1lc3M6Ly9leUp3Y3lJNi==").unwrap_err();
    assert!(matches!(err, FetchError::NotClash(_)));
}

#[test]
fn keeps_every_node() {
    let yaml = "proxies:\n  - {name: A, type: vless}\n  - {name: B, type: vless}\nrules: [MATCH,DIRECT]\n";
    let (proxies, _) = extract_proxies(yaml).unwrap();
    assert_eq!(proxies.len(), 2);
}

#[test]
fn process_rules_come_before_geo_rules() {
    let mut cfg = AppConfig::default();
    cfg.routing.app_rules.push(AppRule {
        enabled: true,
        match_by: AppMatch::Name,
        value: "steam".into(),
        target: Target::Direct,
        label: "Steam".into(),
    });
    cfg.routing.domain_rules.push(DomainRule {
        enabled: true,
        kind: MatchKind::Geosite,
        value: "youtube".into(),
        target: Target::Group("PROXY".into()),
    });

    let rules = rules(&cfg, Vec::new());
    let steam = rules.iter().position(|r| r.contains("steam")).unwrap();
    let youtube = rules.iter().position(|r| r.contains("youtube")).unwrap();
    assert!(steam < youtube, "process rules must win: {rules:?}");
    assert_eq!(rules.last().unwrap(), "MATCH,PROXY");
}

#[test]
fn process_rules_switch_on_process_lookup() {
    let mut cfg = AppConfig::default();
    let plain = generate(&cfg, &[node("a")]).unwrap();
    assert!(plain.contains("find-process-mode: strict"));

    let mut rule = AppRule::default();
    rule.value = "telegram-desktop".into();
    cfg.routing.app_rules.push(rule);
    let with_apps = generate(&cfg, &[node("a")]).unwrap();
    assert!(with_apps.contains("find-process-mode: always"));
}

#[test]
fn generated_config_keeps_subscription_nodes_only() {
    let cfg = AppConfig::default();
    let yaml = generate(&cfg, &[node("Amsterdam"), node("Frankfurt")]).unwrap();
    let parsed: serde_yaml::Value = serde_yaml::from_str(&yaml).unwrap();
    assert_eq!(parsed["proxies"].as_sequence().unwrap().len(), 2);
    assert!(yaml.contains("Amsterdam"));
    // Groups and rules are ours, not the provider's.
    assert!(parsed["proxy-groups"].as_sequence().unwrap().len() == 2);
}

#[test]
fn headers_round_trip() {
    let parsed = parse_headers("X-Token: abc\n# comment\n\nX-Hwid: {hwid}");
    assert_eq!(parsed.get("X-Token").unwrap(), "abc");
    assert_eq!(parsed.get("X-Hwid").unwrap(), "{hwid}");
    assert_eq!(parsed.len(), 2);
    assert_eq!(format_headers(&parsed), "X-Hwid: {hwid}\nX-Token: abc");
}
