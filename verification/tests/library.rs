use mihomo_manifold::api::{
    controller_base, format_bytes, group_delay_path, logs_path, select_path, version_text,
    DelaySample, LineBuffer, LogLine, ProxyInfo,
};
use mihomo_manifold::config::{
    AppConfig, AppMatch, HwidSettings, MachineFacts, MatchKind, Subscription, Target, UserInfo,
};
use mihomo_manifold::corectl::CoreStatus;
use mihomo_manifold::hwid::{device_model, os_version};
use mihomo_manifold::json::{layered, merge, parse_json, prune, to_save, Json};
use mihomo_manifold::pages::{
    active_line, app_choices, delay_badge, format_expiry, format_timestamp, graph_peak, group_order, kind_labels,
    peak_caption, proxy_address, raw_rules, routing_summary, selected_target, status_line_with,
    status_row, tray_description, tray_icon_name, LogView, TrafficHistory,
};
use mihomo_manifold::state::{
    active_proxies, device_limit_body, edited_subscription, fetch_toast, is_running, next_status,
    print_config_text, record_fetch, remove_subscription, upsert_subscription, app_rule_from_form,
    domain_rule_from_form, probe_next, provider_from_form, ProbeAction, ProbeEvent,
};
use mihomo_manifold::subscription::{FetchError, Fetched};
use mihomo_manifold::yaml::Yaml;

/// The byte count computed with `f64`, the reference the integer computation
/// has to match.
fn float_reference(bytes: u64) -> String {
    let units = ["B", "KiB", "MiB", "GiB", "TiB"];
    let mut value = bytes as f64;
    let mut unit = 0;
    while value >= 1024.0 && unit < units.len() - 1 {
        value /= 1024.0;
        unit += 1;
    }
    if unit == 0 {
        format!("{} {}", bytes, units[unit])
    } else {
        format!("{value:.1} {}", units[unit])
    }
}

fn num(text: &str) -> Json {
    Json::Number(text.to_string())
}

fn object(members: Vec<(&str, Json)>) -> Json {
    Json::Object(members.into_iter().map(|(k, v)| (k.to_string(), v)).collect())
}

fn group(name: &str, kind: &str, members: &[&str]) -> ProxyInfo {
    ProxyInfo {
        name: name.into(),
        kind: kind.into(),
        now: None,
        all: members.iter().map(|m| m.to_string()).collect(),
        history: vec![],
        udp: false,
    }
}

fn subscription(id: &str, name: &str) -> Subscription {
    let mut s = Subscription::default();
    s.id = id.into();
    s.name = name.into();
    s
}

const PROFILE: &str = "proxies:\n  - {name: A, type: vless}\n  - {name: B, type: vless}\n";

// ---------------------------------------------------------------- byte counts

#[test]
fn byte_counts_match_the_float_formatting() {
    let samples: [u64; 20] = [
        0,
        1,
        1023,
        1024,
        1280,
        1331,
        1382,
        10239,
        1048575,
        1048576,
        1073741823,
        1099511627775,
        1099511627776,
        5 * 1099511627776 + 123456789,
        (1 << 53) + 1,
        (1 << 53) + 3,
        (1 << 60) - 1,
        u64::MAX - 1,
        u64::MAX,
        1126999418470,
    ];
    for b in samples {
        assert_eq!(format_bytes(b), float_reference(b), "for {b}");
    }
    for b in (0u64..5_000_000).step_by(997) {
        assert_eq!(format_bytes(b), float_reference(b), "for {b}");
    }
}

#[test]
fn byte_counts_round_ties_to_even() {
    // 1280 B is exactly 1.25 KiB: the tie goes to the even digit.
    assert_eq!(format_bytes(1280), "1.2 KiB");
    assert_eq!(format_bytes(1048575), "1024.0 KiB");
    assert_eq!(format_bytes(u64::MAX), "16777216.0 TiB");
}

// ---------------------------------------------------------------- controller client

#[test]
fn latency_is_the_last_sample() {
    let mut info = group("n", "Vless", &[]);
    info.history = vec![DelaySample { delay: 0 }, DelaySample { delay: 120 }];
    assert_eq!(info.last_delay(), Some(120));
    info.history.clear();
    assert_eq!(info.last_delay(), None);
    assert!(!info.is_group());
    assert!(group("g", "URLTest", &[]).is_group());
    assert!(group("g", "Relay", &[]).is_group());
}

#[test]
fn request_paths_are_percent_encoded() {
    assert_eq!(select_path("Proxy Group/ü"), "/proxies/Proxy%20Group%2F%C3%BC");
    assert_eq!(
        group_delay_path("AUTO", "https://cp.cloudflare.com/generate_204", 3000),
        "/group/AUTO/delay?timeout=3000&url=https%3A%2F%2Fcp.cloudflare.com%2Fgenerate_204"
    );
    assert_eq!(logs_path("info"), "/logs?level=info");
    assert_eq!(select_path("a-b_c.d~e"), "/proxies/a-b_c.d~e");
}

#[test]
fn controller_base_loses_trailing_slashes() {
    assert_eq!(controller_base("http://127.0.0.1:9097//"), "http://127.0.0.1:9097");
    assert_eq!(controller_base("http://127.0.0.1:9097"), "http://127.0.0.1:9097");
    assert_eq!(controller_base("///"), "");
}

#[test]
fn version_falls_back_to_unknown() {
    let body = parse_json("{\"meta\":true,\"version\":\"v1.19.2\"}").unwrap();
    assert_eq!(version_text(&body), "v1.19.2");
    let body = parse_json("{\"version\":3}").unwrap();
    assert_eq!(version_text(&body), "unknown");
    assert_eq!(version_text(&Json::Null), "unknown");
}

#[test]
fn streamed_lines_are_framed_across_chunks() {
    let mut buffer = LineBuffer::new();
    assert_eq!(buffer.feed(b"{\"up\":1,\"down\":2}\n{\"up\""), vec!["{\"up\":1,\"down\":2}".to_string()]);
    assert_eq!(buffer.feed(b":3,\"down\":4}\r\n\n  \n"), vec!["{\"up\":3,\"down\":4}".to_string()]);
    assert_eq!(buffer.feed(b"no newline yet"), Vec::<String>::new());
    assert_eq!(buffer.feed(b"\xff!\n"), vec!["no newline yet\u{fffd}!".to_string()]);
}

#[test]
fn a_line_without_end_is_dropped_past_a_mebibyte() {
    let mut buffer = LineBuffer::new();
    let junk = vec![b'x'; (1 << 20) + 1];
    assert!(buffer.feed(&junk).is_empty());
    assert_eq!(buffer.feed(b"tail\n"), vec!["tail".to_string()]);
}

// ---------------------------------------------------------------- settings files

#[test]
fn layers_merge_and_prune_back() {
    let defaults = parse_json("{\"core\":{\"ipv6\":true,\"mixed_port\":1080},\"hwid\":{\"device_model\":\"x1\"}}").unwrap();
    let user = parse_json("{\"core\":{\"mixed_port\":7890},\"subscriptions\":[]}").unwrap();
    let loaded = layered(Some(defaults.deep_clone()), Some(user));
    let expected = parse_json(
        "{\"core\":{\"ipv6\":true,\"mixed_port\":7890},\"hwid\":{\"device_model\":\"x1\"},\"subscriptions\":[]}",
    )
    .unwrap();
    assert!(loaded.same(&expected));

    let written = to_save(loaded.deep_clone(), &Some(defaults.deep_clone()));
    let only_changes = parse_json("{\"core\":{\"mixed_port\":7890},\"subscriptions\":[]}").unwrap();
    assert!(written.same(&only_changes));

    let mut back = defaults.deep_clone();
    merge(&mut back, written);
    assert!(back.same(&loaded));

    assert!(layered(None, None).same(&Json::Object(vec![])));
    assert!(to_save(loaded.deep_clone(), &None).same(&loaded));
}

#[test]
fn an_empty_object_is_not_an_override() {
    let defaults = object(vec![("core", object(vec![("a", num("1")), ("b", num("2"))]))]);
    let full = object(vec![("core", object(vec![("a", num("1")), ("b", num("2"))])), ("x", num("5"))]);
    let pruned = prune(full, &defaults);
    assert!(pruned.same(&object(vec![("x", num("5"))])));
}

#[test]
fn values_compare_member_by_member() {
    assert!(num("1").same(&num("1")));
    assert!(!num("1").same(&num("1.0")));
    assert!(!object(vec![("a", Json::Null)]).same(&object(vec![("b", Json::Null)])));
    assert!(Json::Array(vec![Json::Bool(true)]).same(&Json::Array(vec![Json::Bool(true)])));
    assert!(!Json::Array(vec![]).same(&Json::Null));
}

// ---------------------------------------------------------------- device identity

#[test]
fn hwid_is_a_v5_uuid_of_the_first_machine_id() {
    let namespace = uuid::Uuid::parse_str("1e0f6d9a-4c3b-4f2a-9c7e-8d5b2a1f6c40").unwrap();
    let expected = uuid::Uuid::new_v5(&namespace, b"0123abcd").to_string();
    let files = vec![None, Some("  0123abcd\n".to_string()), Some("other".to_string())];
    assert_eq!(mihomo_manifold::hwid::derive(&files).unwrap(), expected);
    let files = vec![Some(" \n".to_string()), Some("0123abcd".to_string())];
    assert_eq!(mihomo_manifold::hwid::derive(&files).unwrap(), expected);
    assert_eq!(
        mihomo_manifold::hwid::derive(&vec![None, Some("\n".to_string())]).unwrap_err(),
        "deriving HWID: no machine-id found; set an HWID manually in Settings"
    );
}

#[test]
fn os_version_reads_os_release() {
    let release = "NAME=\"NixOS\"\nID=nixos\nVERSION_ID=\"24.11\"\nPRETTY_NAME=\"NixOS 24.11 (Vicuna)\"\n";
    assert_eq!(os_version(Some(release.to_string())), "NixOS 24.11");
    assert_eq!(os_version(Some("NAME=Arch Linux\n".to_string())), "Arch Linux");
    assert_eq!(os_version(Some("ID=x\n".to_string())), "Linux");
    assert_eq!(os_version(None), "Linux");
}

#[test]
fn device_model_is_the_hostname() {
    assert_eq!(device_model(Some(" thinkpad \n".to_string())), "thinkpad");
    assert_eq!(device_model(Some("\n".to_string())), "linux-desktop");
    assert_eq!(device_model(None), "linux-desktop");
}

// ---------------------------------------------------------------- state

#[test]
fn probing_updates_the_status() {
    let (s, changed) = next_status(true, true, &CoreStatus::Stopped);
    assert!(matches!(s, CoreStatus::Running) && changed);
    let (s, changed) = next_status(true, false, &CoreStatus::Adopted);
    assert!(matches!(s, CoreStatus::Adopted) && !changed);
    let (s, changed) = next_status(false, true, &CoreStatus::Failed("boom".into()));
    assert!(matches!(&s, CoreStatus::Failed(e) if e == "boom") && !changed);
    let (s, changed) = next_status(false, false, &CoreStatus::Running);
    assert!(matches!(s, CoreStatus::Stopped) && changed);
    assert!(is_running(&CoreStatus::Adopted));
    assert!(!is_running(&CoreStatus::Failed("x".into())));
}

#[test]
fn active_nodes_need_a_profile() {
    let mut cfg = AppConfig::default();
    assert_eq!(active_proxies(&cfg, None).unwrap_err(), "Add a subscription first.");
    cfg.subscriptions.push(subscription("s1", "Home"));
    assert_eq!(
        active_proxies(&cfg, None).unwrap_err(),
        "No downloaded profile for \"Home\" yet — update it first."
    );
    assert_eq!(active_proxies(&cfg, Some(PROFILE.to_string())).unwrap().len(), 2);
    assert_eq!(print_config_text(&AppConfig::default(), None).unwrap_err(), "no subscription configured");
    assert_eq!(print_config_text(&cfg, Some("x: 1".to_string())).unwrap_err(), "no downloaded profile for \"Home\"");
    assert!(print_config_text(&cfg, Some(PROFILE.to_string())).unwrap().contains("proxies"));
}

#[test]
fn a_download_is_recorded() {
    let mut cfg = AppConfig::default();
    cfg.subscriptions.push(subscription("s1", "New subscription"));
    let fetched: Result<Fetched, FetchError> = Ok(Fetched {
        proxies: vec![Yaml::Null, Yaml::Null, Yaml::Null],
        user_info: Some(UserInfo { upload: 1, download: 2, total: 3, expire: 4 }),
        title: Some("Provider".into()),
    });
    assert!(record_fetch(&mut cfg, "s1", &fetched, 1700000000));
    let s = &cfg.subscriptions[0];
    assert_eq!(s.name, "Provider");
    assert_eq!(s.node_count, 3);
    assert_eq!(s.last_updated, Some(1700000000));
    assert_eq!(cfg.active_subscription.as_deref(), Some("s1"));
    assert_eq!(fetch_toast(&fetched).unwrap(), "3 nodes downloaded");

    let failed: Result<Fetched, FetchError> = Err(FetchError::Network("timed out".into()));
    assert!(record_fetch(&mut cfg, "s1", &failed, 1800000000));
    assert_eq!(cfg.subscriptions[0].last_error.as_deref(), Some("network error: timed out"));
    assert_eq!(cfg.subscriptions[0].last_updated, Some(1700000000));
    assert_eq!(fetch_toast(&failed).unwrap(), "Update failed: network error: timed out");
    assert!(fetch_toast(&Err(FetchError::DeviceLimit("no".into()))).is_none());
    assert!(!record_fetch(&mut cfg, "gone", &failed, 0));
}

#[test]
fn subscriptions_are_added_edited_and_removed() {
    let mut cfg = AppConfig::default();
    let base = subscription("s1", "One");
    assert_eq!(
        edited_subscription(&base, "x", "  ", true, 60, "").unwrap_err(),
        "A subscription URL is required."
    );
    let edited = edited_subscription(&base, "  ", " https://example.org/sub ", false, 60, "X-A: 1").unwrap();
    assert_eq!(edited.name, "Subscription");
    assert_eq!(edited.url, "https://example.org/sub");
    assert_eq!(edited.headers.get("X-A").unwrap(), "1");
    upsert_subscription(&mut cfg, edited);
    upsert_subscription(&mut cfg, subscription("s2", "Two"));
    upsert_subscription(&mut cfg, subscription("s1", "Renamed"));
    assert_eq!(cfg.subscriptions.len(), 2);
    assert_eq!(cfg.subscriptions[0].name, "Renamed");
    assert_eq!(cfg.active_subscription.as_deref(), Some("s1"));

    remove_subscription(&mut cfg, "s1");
    assert_eq!(cfg.subscriptions.len(), 1);
    assert_eq!(cfg.active_subscription.as_deref(), Some("s2"));
    remove_subscription(&mut cfg, "s2");
    assert!(cfg.subscriptions.is_empty());
    assert_eq!(cfg.active_subscription, None);
    assert_eq!(
        device_limit_body("Device limit", "abc"),
        "Device limit\n\nThis machine identifies itself as:\nabc\n\nFree a slot in the panel, or set a different HWID in Settings."
    );
}

// ---------------------------------------------------------------- pages

#[test]
fn latency_badges() {
    assert_eq!(delay_badge(Some(150)), ("150 ms".to_string(), "success".to_string()));
    assert_eq!(delay_badge(Some(200)), ("200 ms".to_string(), "warning".to_string()));
    assert_eq!(delay_badge(Some(600)), ("600 ms".to_string(), "error".to_string()));
    assert_eq!(delay_badge(None), ("—".to_string(), "dim-label".to_string()));
}

#[test]
fn configured_groups_come_first() {
    let infos = vec![
        group("OTHER", "Selector", &["a"]),
        group("AUTO", "URLTest", &["a"]),
        group("node", "Vless", &[]),
        group("EMPTY", "Selector", &[]),
        group("PROXY", "Selector", &["AUTO", "a"]),
        group("LAST", "Fallback", &["a"]),
    ];
    let configured = vec!["PROXY".to_string(), "AUTO".to_string()];
    assert_eq!(group_order(&infos, &configured), vec!["PROXY", "AUTO", "OTHER", "LAST"]);
}

#[test]
fn traffic_history_keeps_two_minutes() {
    let mut h = TrafficHistory::new();
    for i in 0..121u64 {
        h.push(i, 2 * i);
    }
    assert_eq!(h.samples().len(), 120);
    assert_eq!(h.samples()[0], (1, 2));
    assert_eq!(h.samples()[119], (120, 240));
    assert_eq!(h.total_up(), 7260);
    assert_eq!(h.total_down(), 14520);
    assert_eq!(graph_peak(h.samples()), 240.max(1024));
    assert_eq!(graph_peak(&vec![(5000, 70)]), 5000);
    assert_eq!(peak_caption(&vec![(1536, 0)]), "peak 1.5 KiB/s");
    h.reset();
    assert!(h.samples().is_empty());
    assert_eq!(h.total_up(), 0);
}

#[test]
fn log_filter_and_render() {
    let mut view = LogView::new();
    for i in 0..2001 {
        view.push(LogLine { level: "info".into(), payload: format!("line {i}") });
    }
    view.push(LogLine { level: "warning".into(), payload: "DNS Timeout".into() });
    view.set_filter("Timeout");
    assert_eq!(view.render(), "[warning] DNS Timeout");
    assert!(view.matches(&LogLine { level: "INFO".into(), payload: "timeout".into() }));
    view.set_filter("WARN");
    assert!(view.matches(&LogLine { level: "warning".into(), payload: "x".into() }));
    view.set_filter("");
    let all = view.render();
    assert_eq!(all.lines().count(), 2000);
    assert!(all.starts_with("[info] line 2\n"));
}

#[test]
fn status_lines() {
    let mut s = subscription("s", "S");
    assert_eq!(status_line_with(&s, "x"), "never updated");
    s.node_count = 12;
    s.user_info = Some(UserInfo { upload: 512, download: 1024, total: 4096, expire: 1789000000 });
    s.last_updated = Some(1);
    assert_eq!(
        status_line_with(&s, "2024-01-01 10:00"),
        "12 nodes · 1.5 KiB of 4.0 KiB used, 2.5 KiB left · expires 2026-09-10 · updated 2024-01-01 10:00"
    );
    s.last_error = Some("boom".into());
    assert_eq!(status_line_with(&s, "x"), "⚠ boom");
    assert_eq!(format_expiry(0), "no expiry");
    assert_eq!(format_expiry(1789000000), "2026-09-10");
}

#[test]
fn routing_page_helpers() {
    assert_eq!(
        kind_labels(),
        vec!["DOMAIN", "DOMAIN-SUFFIX", "DOMAIN-KEYWORD", "DOMAIN-REGEX", "IP-CIDR", "GEOIP", "GEOSITE", "DST-PORT"]
    );
    assert_eq!(raw_rules("  DOMAIN,a,DIRECT \n\n \r\nMATCH,x\n"), vec!["DOMAIN,a,DIRECT", "MATCH,x"]);
    let targets = vec![Target::Direct, Target::Reject, Target::Group("PROXY".into())];
    assert!(matches!(selected_target(&targets, 2), Target::Group(g) if g == "PROXY"));
    assert!(matches!(selected_target(&targets, 7), Target::Direct));
    assert_eq!(tray_icon_name(true), "network-vpn-symbolic");
    assert_eq!(tray_description(false), "Core is stopped");
}

#[test]
fn chunking_does_not_change_lines() {
    let body: &[u8] = b"{\"up\":1}\n{\"up\":2}\n{\"up\":3}\npartial";
    let mut whole = LineBuffer::new();
    let all = whole.feed(body);
    for cut in 0..body.len() {
        let mut split = LineBuffer::new();
        let mut lines = split.feed(&body[..cut]);
        lines.extend(split.feed(&body[cut..]));
        assert_eq!(lines, all, "cut at {cut}");
    }
    assert_eq!(all.len(), 3);
}

#[test]
fn application_picker_sorts_and_drops_repeats() {
    let apps = vec![
        ("firefox".to_string(), "firefox".to_string()),
        ("Alacritty".to_string(), "alacritty".to_string()),
        ("Firefox Beta".to_string(), "firefox".to_string()),
        ("Firefox".to_string(), "firefox".to_string()),
        ("btop".to_string(), "btop".to_string()),
    ];
    let choices = app_choices(&apps);
    let names: Vec<&str> = choices.iter().map(|(n, _)| n.as_str()).collect();
    assert_eq!(names, vec!["Alacritty", "btop", "firefox"]);
}

#[test]
fn dashboard_lines() {
    let mut cfg = AppConfig::default();
    assert_eq!(active_line(&cfg), "none");
    let mut sub = subscription("s", "Home");
    sub.node_count = 7;
    cfg.subscriptions.push(sub);
    assert_eq!(active_line(&cfg), "Home — 7 nodes");
    cfg.core.tun_enabled = false;
    cfg.core.mixed_port = 7890;
    assert_eq!(routing_summary(&cfg), "port 7890 · 0 rules · 0 app rules");
    cfg.core.tun_enabled = true;
    cfg.core.tun_stack = "gvisor".into();
    cfg.routing.domain_rules.push(Default::default());
    assert_eq!(routing_summary(&cfg), "stack gvisor · 1 rule · 0 app rules");
    assert_eq!(proxy_address(7890, false), "127.0.0.1:7890 (HTTP and SOCKS)");
    assert_eq!(proxy_address(7890, true), "127.0.0.1:7890 (HTTP and SOCKS), published to the desktop");
    assert_eq!(
        status_row(&CoreStatus::Running, &Some("v1.19".into())),
        ("Running".to_string(), "mihomo v1.19, started by MihomoManifold".to_string())
    );
    assert_eq!(status_row(&CoreStatus::Failed("no".into()), &None), ("Failed to start".to_string(), "no".to_string()));
}

#[test]
fn local_times_and_never() {
    assert_eq!(format_timestamp(i64::MAX), "never");
    let t = format_timestamp(1700000000);
    assert!(t.contains(':') && t.starts_with("2023-11-1"), "{t}");
}

fn named_node(name: &str) -> Yaml {
    Yaml::Mapping(vec![
        (Yaml::Text("name".to_string()), Yaml::Text(name.to_string())),
        (Yaml::Text("type".to_string()), Yaml::Text("vless".to_string())),
    ])
}

#[test]
fn groups_with_specials_offer_direct_and_reject() {
    let cfg = AppConfig::default();
    let yaml = mihomo_manifold::template::generate(&cfg, &[named_node("Amsterdam")]).unwrap();
    let parsed: serde_yaml::Value = serde_yaml::from_str(&yaml).unwrap();
    let groups = parsed["proxy-groups"].as_sequence().unwrap();
    let proxy: Vec<&str> =
        groups[0]["proxies"].as_sequence().unwrap().iter().map(|v| v.as_str().unwrap()).collect();
    assert_eq!(proxy, vec!["AUTO", "DIRECT", "REJECT", "Amsterdam"]);
    let auto: Vec<&str> =
        groups[1]["proxies"].as_sequence().unwrap().iter().map(|v| v.as_str().unwrap()).collect();
    assert_eq!(auto, vec!["Amsterdam"]);
}

#[test]
fn default_settings_reach_the_document() {
    let cfg = AppConfig::default();
    assert_eq!(cfg.core.mixed_port, 7890);
    assert_eq!(cfg.core.secret.len(), 32);
    assert!(cfg.core.secret.chars().all(|c| c.is_ascii_digit() || ('a'..='f').contains(&c)));
    let yaml = mihomo_manifold::template::generate(&cfg, &[named_node("a")]).unwrap();
    let v: serde_yaml::Value = serde_yaml::from_str(&yaml).unwrap();
    assert_eq!(v["mixed-port"].as_u64(), Some(7890));
    assert_eq!(v["allow-lan"].as_bool(), Some(false));
    assert_eq!(v["external-controller"].as_str(), Some("127.0.0.1:9097"));
    assert_eq!(v["dns"]["listen"].as_str(), Some("127.0.0.1:1053"));
    assert_eq!(v["tun"]["auto-redirect"].as_bool(), Some(false));
    assert_eq!(v["tun"]["device"].as_str(), Some("mihomo-tun"));
}

#[test]
fn allow_lan_changes_only_its_entry() {
    let cfg = AppConfig::default();
    let mut open = cfg.clone();
    open.core.allow_lan = true;
    let a = mihomo_manifold::template::generate(&cfg, &[named_node("a")]).unwrap();
    let b = mihomo_manifold::template::generate(&open, &[named_node("a")]).unwrap();
    let mut va: serde_yaml::Value = serde_yaml::from_str(&a).unwrap();
    let vb: serde_yaml::Value = serde_yaml::from_str(&b).unwrap();
    assert_eq!(vb["allow-lan"].as_bool(), Some(true));
    va["allow-lan"] = serde_yaml::Value::Bool(true);
    let secret_a = va["secret"].clone();
    assert_eq!(secret_a, vb["secret"]);
    assert_eq!(va, vb);
}

#[test]
fn tagged_nodes_pass_through() {
    let profile = "proxies:\n  - !node {name: A, type: vless}\n";
    let (nodes, _) = mihomo_manifold::subscription::extract_proxies(profile).unwrap();
    assert_eq!(nodes.len(), 1);
    match &nodes[0] {
        Yaml::Tagged(tag, _) => assert_eq!(tag, "!node"),
        _ => panic!("the tag was dropped"),
    }
    let yaml = mihomo_manifold::template::generate(&AppConfig::default(), &nodes).unwrap();
    assert!(yaml.contains("!node"), "{yaml}");
}

#[test]
fn local_time_has_the_page_shape() {
    let t = format_timestamp(1700000000);
    let c: Vec<char> = t.chars().collect();
    assert_eq!(c.len(), 16, "{t}");
    for (i, ch) in c.iter().enumerate() {
        match i {
            4 | 7 => assert_eq!(*ch, '-'),
            10 => assert_eq!(*ch, ' '),
            13 => assert_eq!(*ch, ':'),
            _ => assert!(ch.is_ascii_digit(), "{t}"),
        }
    }
}

#[test]
fn ascii_lowercase() {
    assert_eq!(mihomo_manifold::text::to_lowercase("Cap_Net_ADMIN+ep"), "cap_net_admin+ep");
}

#[test]
fn routing_forms() {
    let apps = vec![("Telegram".to_string(), "telegram-desktop".to_string())];
    let rule = app_rule_from_form("  telegram-desktop ", false, 1, &apps, Target::Direct).unwrap();
    assert_eq!(rule.value, "telegram-desktop");
    assert_eq!(rule.label, "Telegram");
    assert!(rule.enabled && rule.match_by == AppMatch::Name && matches!(rule.target, Target::Direct));
    let path = app_rule_from_form("/usr/bin/x", true, 5, &apps, Target::Reject).unwrap();
    assert!(path.match_by == AppMatch::Path && path.label.is_empty());
    assert_eq!(
        app_rule_from_form("  ", false, 0, &apps, Target::Direct).err().unwrap(),
        "Enter a process name, for example telegram-desktop."
    );
    let d = domain_rule_from_form(" github.com ", 1, Target::Group("PROXY".to_string())).unwrap();
    assert!(d.kind == MatchKind::DomainSuffix && d.value == "github.com");
    assert!(domain_rule_from_form("x", 99, Target::Direct).unwrap().kind == MatchKind::DstPort);
    assert_eq!(domain_rule_from_form("", 0, Target::Direct).err().unwrap(), "Enter a value to match.");
    let p = provider_from_form(" ads ", " https://x/ads.yaml ", 1, 7, 86400, Target::Reject).unwrap();
    assert_eq!((p.name.as_str(), p.url.as_str()), ("ads", "https://x/ads.yaml"));
    assert_eq!((p.behavior.as_str(), p.format.as_str(), p.interval), ("ipcidr", "mrs", 86400));
    assert_eq!(
        provider_from_form("ads", " ", 0, 0, 1, Target::Reject).err().unwrap(),
        "A provider needs both a name and a URL."
    );
}

#[test]
fn start_probe_gives_up_after_forty_silent_probes() {
    let mut failures = 0u32;
    let mut action = ProbeAction::Probe;
    let mut probes = 0;
    let mut sleeps = 0;
    let result = loop {
        let event = match action {
            ProbeAction::Probe => {
                probes += 1;
                ProbeEvent::NoAnswer
            }
            ProbeAction::Sleep(ms) => {
                assert_eq!(ms, 250);
                sleeps += 1;
                ProbeEvent::Slept
            }
            ProbeAction::Finish(r) => break r,
        };
        let (f, a) = probe_next(failures, event);
        failures = f;
        action = a;
    };
    assert_eq!((probes, sleeps), (40, 40));
    assert_eq!(result.err().unwrap(), "the core did not answer on the controller port");
    match probe_next(3, ProbeEvent::Answered("v1.19".to_string())) {
        (3, ProbeAction::Finish(Ok(v))) => assert_eq!(v, "v1.19"),
        _ => panic!("an answer ends the wait"),
    }
}

#[test]
fn pruned_settings_merge_back() {
    let defaults = parse_json(r#"{"core":{"ipv6":true,"mixed_port":1080}}"#).unwrap();
    let full = parse_json(r#"{"core":{"ipv6":false,"log_level":"info","mixed_port":1080},"subscriptions":[]}"#).unwrap();
    let expect = parse_json(r#"{"core":{"ipv6":false,"log_level":"info","mixed_port":1080},"subscriptions":[]}"#).unwrap();
    let saved = prune(full, &defaults);
    let mut loaded = defaults;
    merge(&mut loaded, saved);
    assert_eq!(format!("{loaded:?}"), format!("{expect:?}"));
}

#[test]
fn user_headers_win_over_identity() {
    let mut sub = Subscription::default();
    sub.headers = mihomo_manifold::headers::parse_headers("X-HWID: mine-{hwid}\nX-Extra: 1");
    let machine = MachineFacts {
        derived_hwid: Some("abc".to_string()),
        os_version: "NixOS 24.11".to_string(),
        device_model: "box".to_string(),
    };
    let sent = mihomo_manifold::subscription::request_headers(&sub, &HwidSettings::default(), &machine);
    let names: Vec<&str> = sent.iter().map(|(k, _)| k.as_str()).collect();
    assert_eq!(names, vec!["user-agent", "x-device-os", "x-ver-os", "x-device-model", "X-Extra", "X-HWID"]);
    assert_eq!(sent[5].1, "mine-abc");
    sub.headers = mihomo_manifold::headers::parse_headers("X-Extra: {hwid}");
    let sent = mihomo_manifold::subscription::request_headers(&sub, &HwidSettings::default(), &machine);
    assert_eq!(sent.len(), 6);
    assert_eq!(sent[1], ("x-hwid".to_string(), "abc".to_string()));
    assert_eq!(sent[5], ("X-Extra".to_string(), "abc".to_string()));
}

#[test]
fn header_text_in_name_order() {
    let parsed = mihomo_manifold::headers::parse_headers("X-Token: abc\n# comment\n\nX-Hwid: {hwid}");
    assert_eq!(parsed.len(), 2);
    assert_eq!(mihomo_manifold::headers::format_headers(&parsed), "X-Hwid: {hwid}\nX-Token: abc");
}
