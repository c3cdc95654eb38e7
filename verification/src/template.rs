//! Config generation. The subscription only contributes `proxies`; every other
//! section — tun, dns, proxy-groups, rules — is ours, so a provider updating
//! their profile can never rewrite the user's routing.

use vstd::prelude::*;
use vstd::string::StringExecFns;

use crate::config::{
    AppMatch, MatchKind, Target,
    app_rule_live, app_rule_text, controller_addr_of, domain_rule_text, group_kind_yaml, rule_target,
    AppConfig, CoreSettings, DomainRule, GroupKind, GroupSpec, RoutingSettings, RuleProvider,
    AppRule,
};
use crate::text::{blank, decimal, is_blank, push_decimal, str_eq};
use crate::yaml::{
    entry, get_key, as_text, items_view, lemma_entry_for_first, lemma_mapping_view,
    lemma_sequence_view, pairs_view,
    render_yaml, text, texts, view_of, yaml_render, Yaml, YamlV, all_named, entry_named,
    lemma_items_named, lemma_pairs_named, lemma_texts_named, tags_named,
};

verus! {

// ---------------------------------------------------------------- building blocks

/// The views of a list of strings.
pub open spec fn strs(v: Seq<String>) -> Seq<Seq<char>> {
    Seq::new(v.len(), |i: int| v[i]@)
}

fn put(map: &mut Vec<(Yaml, Yaml)>, key: &str, value: Yaml)
    ensures
        pairs_view(final(map)@) == pairs_view(old(map)@).push(entry(key@, value@)),
{
    let ghost v = value@;
    map.push((Yaml::Text(String::from_str(key)), value));
    assert(pairs_view(map@) =~= pairs_view(old(map)@).push(entry(key@, v)));
}

fn text_value(s: &str) -> (y: Yaml)
    ensures
        y@ == text(s@),
{
    Yaml::Text(String::from_str(s))
}

fn number_value(n: u64) -> (y: Yaml)
    ensures
        y@ == YamlV::Number(decimal(n as nat)),
{
    let mut s = String::new();
    push_decimal(&mut s, n);
    Yaml::Number(s)
}

fn texts_value(items: Vec<String>) -> (y: Yaml)
    ensures
        y@ == texts(strs(items@)),
{
    let mut out: Vec<Yaml> = Vec::new();
    let mut k: usize = 0;
    while k < items.len()
        invariant
            k <= items@.len(),
            out@.len() == k,
            forall|j: int| 0 <= j < k ==> view_of(#[trigger] out@[j]) == YamlV::Text(items@[j]@),
        decreases items@.len() - k,
    {
        out.push(Yaml::Text(items[k].clone()));
        k = k + 1;
    }
    proof {
        lemma_sequence_view(out);
        assert(items_view(out@) =~= texts(strs(items@))->Sequence_0);
    }
    Yaml::Sequence(out)
}

fn strings_of(items: &[&str]) -> (r: Vec<String>)
    ensures
        strs(r@) == Seq::new(items@.len(), |i: int| items@[i]@),
{
    let mut r: Vec<String> = Vec::new();
    let mut i: usize = 0;
    while i < items.len()
        invariant
            i <= items@.len(),
            r@.len() == i,
            forall|j: int| 0 <= j < i ==> (#[trigger] r@[j])@ == items@[j]@,
        decreases items@.len() - i,
    {
        r.push(String::from_str(items[i]));
        i = i + 1;
    }
    assert(strs(r@) =~= Seq::new(items@.len(), |i: int| items@[i]@));
    r
}

fn mapping(m: Vec<(Yaml, Yaml)>) -> (y: Yaml)
    ensures
        y@ == YamlV::Mapping(pairs_view(m@)),
{
    proof {
        lemma_mapping_view(m);
    }
    Yaml::Mapping(m)
}

// ---------------------------------------------------------------- tun and dns

pub open spec fn tun_doc(core: CoreSettings) -> YamlV {
    YamlV::Mapping(
        seq![
            entry("enable"@, YamlV::Bool(true)),
            entry("stack"@, text(core.tun_stack@)),
            entry("device"@, text("mihomo-tun"@)),
            entry("auto-route"@, YamlV::Bool(true)),
            entry("auto-redirect"@, YamlV::Bool(false)),
            entry("auto-detect-interface"@, YamlV::Bool(true)),
            entry("strict-route"@, YamlV::Bool(false)),
            entry("mtu"@, YamlV::Number("9000"@)),
            entry("dns-hijack"@, texts(seq!["any:53"@, "tcp://any:53"@])),
        ],
    )
}

fn tun_section(core: &CoreSettings) -> (y: Yaml)
    ensures
        y@ == tun_doc(*core),
{
    let mut m: Vec<(Yaml, Yaml)> = Vec::new();
    put(&mut m, "enable", Yaml::Bool(true));
    put(&mut m, "stack", Yaml::Text(core.tun_stack.clone()));
    put(&mut m, "device", text_value("mihomo-tun"));
    put(&mut m, "auto-route", Yaml::Bool(true));
    // auto-redirect makes the core write its own nftables rules, and only pays
    // off when this host forwards other devices' traffic. On a desktop it buys
    // nothing and adds a second writer to the firewall, so it stays off.
    put(&mut m, "auto-redirect", Yaml::Bool(false));
    put(&mut m, "auto-detect-interface", Yaml::Bool(true));
    put(&mut m, "strict-route", Yaml::Bool(false));
    put(&mut m, "mtu", Yaml::Number(String::from_str("9000")));
    let hijack = strings_of(&["any:53", "tcp://any:53"]);
    proof {
        assert(strs(hijack@) =~= seq!["any:53"@, "tcp://any:53"@]);
    }
    put(&mut m, "dns-hijack", texts_value(hijack));
    let y = mapping(m);
    proof {
        assert(pairs_view(m@) =~= tun_doc(*core)->Mapping_0);
    }
    y
}

pub open spec fn fake_ip_filter() -> Seq<Seq<char>> {
    seq![
        "*.lan"@,
        "*.local"@,
        "*.localdomain"@,
        "localhost"@,
        "time.*.com"@,
        "+.pool.ntp.org"@,
        "+.in-addr.arpa"@,
        "+.ip6.arpa"@,
    ]
}

pub open spec fn dns_doc(core: CoreSettings) -> YamlV {
    let head = seq![
        entry("enable"@, YamlV::Bool(true)),
        entry("ipv6"@, YamlV::Bool(core.ipv6)),
        entry("listen"@, text("127.0.0.1:1053"@)),
        entry("prefer-h3"@, YamlV::Bool(false)),
        entry("respect-rules"@, YamlV::Bool(true)),
    ];
    let mode = if core.fake_ip {
        seq![
            entry("enhanced-mode"@, text("fake-ip"@)),
            entry("fake-ip-range"@, text("198.18.0.1/16"@)),
            entry("fake-ip-filter"@, texts(fake_ip_filter())),
        ]
    } else {
        seq![entry("enhanced-mode"@, text("redir-host"@))]
    };
    let tail = seq![
        entry("default-nameserver"@, texts(seq!["1.1.1.1"@, "8.8.8.8"@])),
        entry(
            "nameserver"@,
            texts(seq!["https://1.1.1.1/dns-query"@, "https://8.8.8.8/dns-query"@]),
        ),
        entry("proxy-server-nameserver"@, texts(seq!["https://1.1.1.1/dns-query"@])),
    ];
    YamlV::Mapping(head + mode + tail)
}

fn dns_section(core: &CoreSettings) -> (y: Yaml)
    ensures
        y@ == dns_doc(*core),
{
    let mut m: Vec<(Yaml, Yaml)> = Vec::new();
    put(&mut m, "enable", Yaml::Bool(true));
    put(&mut m, "ipv6", Yaml::Bool(core.ipv6));
    put(&mut m, "listen", text_value("127.0.0.1:1053"));
    put(&mut m, "prefer-h3", Yaml::Bool(false));
    put(&mut m, "respect-rules", Yaml::Bool(true));
    let ghost head = pairs_view(m@);
    if core.fake_ip {
        put(&mut m, "enhanced-mode", text_value("fake-ip"));
        put(&mut m, "fake-ip-range", text_value("198.18.0.1/16"));
        let filter = strings_of(
            &[
                "*.lan",
                "*.local",
                "*.localdomain",
                "localhost",
                "time.*.com",
                "+.pool.ntp.org",
                "+.in-addr.arpa",
                "+.ip6.arpa",
            ],
        );
        proof {
            assert(strs(filter@) =~= fake_ip_filter());
        }
        put(&mut m, "fake-ip-filter", texts_value(filter));
    } else {
        put(&mut m, "enhanced-mode", text_value("redir-host"));
    }
    let ghost middle = pairs_view(m@);
    let defaults = strings_of(&["1.1.1.1", "8.8.8.8"]);
    proof {
        assert(strs(defaults@) =~= seq!["1.1.1.1"@, "8.8.8.8"@]);
    }
    put(&mut m, "default-nameserver", texts_value(defaults));
    let servers = strings_of(&["https://1.1.1.1/dns-query", "https://8.8.8.8/dns-query"]);
    proof {
        assert(strs(servers@) =~= seq!["https://1.1.1.1/dns-query"@, "https://8.8.8.8/dns-query"@]);
    }
    put(&mut m, "nameserver", texts_value(servers));
    // Resolving the node hostnames themselves must not go through the tunnel.
    let bootstrap = strings_of(&["https://1.1.1.1/dns-query"]);
    proof {
        assert(strs(bootstrap@) =~= seq!["https://1.1.1.1/dns-query"@]);
    }
    put(&mut m, "proxy-server-nameserver", texts_value(bootstrap));
    let y = mapping(m);
    proof {
        assert(pairs_view(m@) =~= dns_doc(*core)->Mapping_0);
    }
    y
}

// ---------------------------------------------------------------- proxy groups

/// `names` without `me`, in order.
pub open spec fn other_names(names: Seq<Seq<char>>, me: Seq<char>) -> Seq<Seq<char>>
    decreases names.len(),
{
    if names.len() == 0 {
        Seq::empty()
    } else if names.last() != me {
        other_names(names.drop_last(), me).push(names.last())
    } else {
        other_names(names.drop_last(), me)
    }
}

/// The entries of a generated group: with specials, the other groups, then
/// DIRECT and REJECT; then every node when no filter is set; never an empty
/// list without a filter, which the core refuses.
pub open spec fn group_members(all_names: Seq<Seq<char>>, g: GroupSpec, nodes: Seq<Seq<char>>) -> Seq<
    Seq<char>,
> {
    let specials = if g.include_specials {
        other_names(all_names, g.name@).push("DIRECT"@).push("REJECT"@)
    } else {
        Seq::empty()
    };
    let members = if blank(g.filter@) {
        specials + nodes
    } else {
        specials
    };
    if members.len() == 0 && blank(g.filter@) {
        seq!["DIRECT"@]
    } else {
        members
    }
}

/// The other groups are exactly the named groups other than `me`.
pub proof fn lemma_other_names(names: Seq<Seq<char>>, me: Seq<char>, x: Seq<char>)
    ensures
        other_names(names, me).contains(x) <==> (names.contains(x) && x != me),
    decreases names.len(),
{
    if names.len() > 0 {
        let rest = names.drop_last();
        lemma_other_names(rest, me, x);
        assert(names =~= rest.push(names.last()));
        if names.contains(x) && x != names.last() {
            let i = choose|i: int| 0 <= i < names.len() && names[i] == x;
            assert(rest[i] == x);
        }
        if rest.contains(x) {
            let i = choose|i: int| 0 <= i < rest.len() && rest[i] == x;
            assert(names[i] == x);
        }
        if names.last() != me {
            let o = other_names(rest, me);
            if o.push(names.last()).contains(x) && x != names.last() {
                let i = choose|i: int| 0 <= i < o.push(names.last()).len() && o.push(names.last())[i] == x;
                assert(o[i] == x);
            }
            if o.contains(x) {
                let i = choose|i: int| 0 <= i < o.len() && o[i] == x;
                assert(o.push(names.last())[i] == x);
            }
            assert(o.push(names.last())[o.len() as int] == names.last());
        }
        assert(names[names.len() - 1] == names.last());
    }
}

/// A group with specials offers every other group, then DIRECT and REJECT,
/// all ahead of the first node, and never itself.
pub proof fn law_group_specials(all_names: Seq<Seq<char>>, g: GroupSpec, nodes: Seq<Seq<char>>)
    requires
        g.include_specials,
    ensures
        ({
            let members = group_members(all_names, g, nodes);
            let others = other_names(all_names, g.name@);
            let n = others.len() as int;
            &&& members.len() >= n + 2
            &&& members.subrange(0, n) == others
            &&& members[n] == "DIRECT"@
            &&& members[n + 1] == "REJECT"@
            &&& blank(g.filter@) ==> members.subrange(n + 2, members.len() as int) == nodes
            &&& !blank(g.filter@) ==> members.len() == n + 2
            &&& forall|x: Seq<char>| #[trigger] others.contains(x) <==> (all_names.contains(x) && x != g.name@)
        }),
{
    let others = other_names(all_names, g.name@);
    let n = others.len() as int;
    let specials = others.push("DIRECT"@).push("REJECT"@);
    let members = group_members(all_names, g, nodes);
    if blank(g.filter@) {
        assert(members == specials + nodes);
        assert(members.subrange(n + 2, members.len() as int) =~= nodes);
    } else {
        assert(members == specials);
    }
    assert(members.subrange(0, n) =~= others);
    assert forall|x: Seq<char>| #[trigger] others.contains(x) <==> (all_names.contains(x) && x != g.name@) by {
        lemma_other_names(all_names, g.name@, x);
    }
}

pub open spec fn group_doc(all_names: Seq<Seq<char>>, g: GroupSpec, nodes: Seq<Seq<char>>) -> YamlV {
    let head = seq![entry("name"@, text(g.name@)), entry("type"@, text(group_kind_yaml(g.kind)))];
    let filter = if blank(g.filter@) {
        Seq::empty()
    } else {
        seq![entry("include-all-proxies"@, YamlV::Bool(true)), entry("filter"@, text(g.filter@))]
    };
    let members = seq![entry("proxies"@, texts(group_members(all_names, g, nodes)))];
    let test = if g.kind != GroupKind::Select {
        seq![
            entry("url"@, text(g.test_url@)),
            entry("interval"@, YamlV::Number(decimal(g.interval as nat))),
            entry("tolerance"@, YamlV::Number("50"@)),
        ]
    } else {
        Seq::empty()
    };
    YamlV::Mapping(head + filter + members + test)
}

pub open spec fn group_names_of(groups: Seq<GroupSpec>) -> Seq<Seq<char>> {
    Seq::new(groups.len(), |i: int| groups[i].name@)
}

pub open spec fn groups_doc(groups: Seq<GroupSpec>, nodes: Seq<Seq<char>>) -> YamlV {
    YamlV::Sequence(
        Seq::new(groups.len(), |i: int| group_doc(group_names_of(groups), groups[i], nodes)),
    )
}

fn other_group_names(names: &Vec<String>, me: &String) -> (r: Vec<String>)
    ensures
        strs(r@) == other_names(strs(names@), me@),
{
    let mut r: Vec<String> = Vec::new();
    let mut i: usize = 0;
    while i < names.len()
        invariant
            i <= names@.len(),
            strs(r@) == other_names(strs(names@).take(i as int), me@),
        decreases names@.len() - i,
    {
        let ghost before = strs(r@);
        let ghost t = strs(names@).take(i + 1);
        assert(t.drop_last() =~= strs(names@).take(i as int));
        assert(t.last() == names@[i as int]@);
        if !str_eq(names[i].as_str(), me.as_str()) {
            r.push(names[i].clone());
            assert(strs(r@) =~= before.push(names@[i as int]@));
        }
        i = i + 1;
    }
    assert(strs(names@).take(names@.len() as int) =~= strs(names@));
    r
}

fn group_section(all_names: &Vec<String>, g: &GroupSpec, nodes: &Vec<String>) -> (y: Yaml)
    ensures
        y@ == group_doc(strs(all_names@), *g, strs(nodes@)),
{
    let mut m: Vec<(Yaml, Yaml)> = Vec::new();
    put(&mut m, "name", Yaml::Text(g.name.clone()));
    put(&mut m, "type", text_value(g.kind.as_yaml()));
    let mut members: Vec<String> = Vec::new();
    if g.include_specials {
        members = other_group_names(all_names, &g.name);
        members.push(String::from_str("DIRECT"));
        members.push(String::from_str("REJECT"));
    }
    let ghost specials = strs(members@);
    proof {
        if g.include_specials {
            assert(specials =~= other_names(strs(all_names@), g.name@).push("DIRECT"@).push(
                "REJECT"@,
            ));
        } else {
            assert(specials =~= Seq::<Seq<char>>::empty());
        }
    }
    let no_filter = is_blank(g.filter.as_str());
    if no_filter {
        let mut k: usize = 0;
        while k < nodes.len()
            invariant
                k <= nodes@.len(),
                strs(members@) == specials + strs(nodes@).take(k as int),
            decreases nodes@.len() - k,
        {
            let ghost before = strs(members@);
            members.push(nodes[k].clone());
            assert(strs(members@) =~= before.push(nodes@[k as int]@));
            assert(strs(nodes@).take(k + 1) =~= strs(nodes@).take(k as int).push(nodes@[k as int]@));
            assert(strs(members@) =~= specials + strs(nodes@).take(k + 1));
            k = k + 1;
        }
        assert(strs(nodes@).take(nodes@.len() as int) =~= strs(nodes@));
    } else {
        // Let the core apply the regex over every node it knows about.
        put(&mut m, "include-all-proxies", Yaml::Bool(true));
        put(&mut m, "filter", Yaml::Text(g.filter.clone()));
        assert(specials + Seq::<Seq<char>>::empty() =~= specials);
    }
    // A group with an empty member list makes the core refuse to start.
    if members.len() == 0 && no_filter {
        members.push(String::from_str("DIRECT"));
        assert(strs(members@) =~= seq!["DIRECT"@]);
    }
    put(&mut m, "proxies", texts_value(members));
    match g.kind {
        GroupKind::Select => {},
        _ => {
            put(&mut m, "url", Yaml::Text(g.test_url.clone()));
            put(&mut m, "interval", number_value(g.interval));
            put(&mut m, "tolerance", Yaml::Number(String::from_str("50")));
        },
    }
    let y = mapping(m);
    proof {
        assert(pairs_view(m@) =~= group_doc(strs(all_names@), *g, strs(nodes@))->Mapping_0);
    }
    y
}

fn group_name_list(groups: &Vec<GroupSpec>) -> (r: Vec<String>)
    ensures
        strs(r@) == group_names_of(groups@),
{
    let mut r: Vec<String> = Vec::new();
    let mut i: usize = 0;
    while i < groups.len()
        invariant
            i <= groups@.len(),
            r@.len() == i,
            forall|j: int| 0 <= j < i ==> (#[trigger] r@[j])@ == groups@[j].name@,
        decreases groups@.len() - i,
    {
        r.push(groups[i].name.clone());
        i = i + 1;
    }
    assert(strs(r@) =~= group_names_of(groups@));
    r
}

fn proxy_groups(routing: &RoutingSettings, nodes: &Vec<String>) -> (y: Yaml)
    ensures
        y@ == groups_doc(routing.groups@, strs(nodes@)),
{
    let all_names = group_name_list(&routing.groups);
    let mut out: Vec<Yaml> = Vec::new();
    let mut i: usize = 0;
    while i < routing.groups.len()
        invariant
            i <= routing.groups@.len(),
            out@.len() == i,
            strs(all_names@) == group_names_of(routing.groups@),
            forall|j: int|
                0 <= j < i ==> view_of(#[trigger] out@[j]) == group_doc(
                    group_names_of(routing.groups@),
                    routing.groups@[j],
                    strs(nodes@),
                ),
        decreases routing.groups@.len() - i,
    {
        out.push(group_section(&all_names, &routing.groups[i], nodes));
        i = i + 1;
    }
    proof {
        lemma_sequence_view(out);
        assert(items_view(out@) =~= groups_doc(routing.groups@, strs(nodes@))->Sequence_0);
    }
    Yaml::Sequence(out)
}

// ---------------------------------------------------------------- rule providers

pub open spec fn provider_live(p: RuleProvider) -> bool {
    p.enabled && !blank(p.name@) && !blank(p.url@)
}

/// The providers that are written: enabled, with a name and a URL.
pub open spec fn live_providers(ps: Seq<RuleProvider>) -> Seq<RuleProvider>
    decreases ps.len(),
{
    if ps.len() == 0 {
        Seq::empty()
    } else if provider_live(ps.last()) {
        live_providers(ps.drop_last()).push(ps.last())
    } else {
        live_providers(ps.drop_last())
    }
}

pub open spec fn provider_doc(p: RuleProvider) -> YamlV {
    YamlV::Mapping(
        seq![
            entry("type"@, text("http"@)),
            entry("url"@, text(p.url@)),
            entry("behavior"@, text(p.behavior@)),
            entry("format"@, text(p.format@)),
            entry("interval"@, YamlV::Number(decimal(p.interval as nat))),
            entry("path"@, text("./providers/rules/"@ + p.name@ + "."@ + p.format@)),
        ],
    )
}

/// `RULE-SET,name,target`, with `,no-resolve` for an `ipcidr` list.
pub open spec fn provider_rule(p: RuleProvider) -> Seq<char> {
    let base = "RULE-SET,"@ + p.name@ + ","@ + rule_target(p.target);
    if p.behavior@ == "ipcidr"@ {
        base + ",no-resolve"@
    } else {
        base
    }
}

/// `Mapping::insert`: a key already present keeps its place and takes the
/// new value; a new key goes last.
pub open spec fn map_insert(m: Seq<(YamlV, YamlV)>, k: YamlV, v: YamlV) -> Seq<(YamlV, YamlV)> {
    if exists|i: int|
        0 <= i < m.len() && (#[trigger] m[i]).0 == k && forall|j: int|
            0 <= j < i ==> (#[trigger] m[j]).0 != k {
        let i = choose|i: int|
            0 <= i < m.len() && (#[trigger] m[i]).0 == k && forall|j: int|
                0 <= j < i ==> (#[trigger] m[j]).0 != k;
        m.update(i, (k, v))
    } else {
        m.push((k, v))
    }
}

/// The `rule-providers` mapping: one entry per provider name.
pub open spec fn providers_map(ps: Seq<RuleProvider>) -> Seq<(YamlV, YamlV)>
    decreases ps.len(),
{
    if ps.len() == 0 {
        Seq::empty()
    } else {
        map_insert(providers_map(ps.drop_last()), text(ps.last().name@), provider_doc(ps.last()))
    }
}

pub open spec fn provider_rules(ps: Seq<RuleProvider>) -> Seq<Seq<char>> {
    Seq::new(ps.len(), |i: int| provider_rule(ps[i]))
}

fn provider_entry(p: &RuleProvider) -> (y: Yaml)
    ensures
        y@ == provider_doc(*p),
{
    let mut m: Vec<(Yaml, Yaml)> = Vec::new();
    put(&mut m, "type", text_value("http"));
    put(&mut m, "url", Yaml::Text(p.url.clone()));
    put(&mut m, "behavior", Yaml::Text(p.behavior.clone()));
    put(&mut m, "format", Yaml::Text(p.format.clone()));
    put(&mut m, "interval", number_value(p.interval));
    let mut path = String::from_str("./providers/rules/");
    path.append(p.name.as_str());
    path.append(".");
    path.append(p.format.as_str());
    put(&mut m, "path", Yaml::Text(path));
    let y = mapping(m);
    proof {
        assert(pairs_view(m@) =~= provider_doc(*p)->Mapping_0);
    }
    y
}

fn provider_rule_text(p: &RuleProvider) -> (r: String)
    ensures
        r@ == provider_rule(*p),
{
    let mut rule = String::from_str("RULE-SET,");
    rule.append(p.name.as_str());
    rule.append(",");
    let t = p.target.as_rule_target();
    rule.append(t.as_str());
    if str_eq(p.behavior.as_str(), "ipcidr") {
        rule.append(",no-resolve");
    }
    rule
}

/// Inserts a string-keyed entry the way `Mapping::insert` does.
fn insert_entry(m: &mut Vec<(Yaml, Yaml)>, key: &String, value: Yaml)
    ensures
        pairs_view(final(m)@) == map_insert(pairs_view(old(m)@), text(key@), value@),
{
    let ghost pv = pairs_view(m@);
    let ghost vv = value@;
    let mut i: usize = 0;
    while i < m.len()
        invariant
            i <= m@.len(),
            pv == pairs_view(m@),
            m@ == old(m)@,
            vv == value@,
            forall|j: int| 0 <= j < i ==> (#[trigger] pv[j]).0 != text(key@),
        decreases m@.len() - i,
    {
        let same = match &m[i].0 {
            Yaml::Text(s) => str_eq(s.as_str(), key.as_str()),
            _ => false,
        };
        assert(pv[i as int].0 == view_of(m@[i as int].0));
        if same {
            let k = Yaml::Text(key.clone());
            m.set(i, (k, value));
            proof {
                assert(pv[i as int].0 == text(key@));
                let j = choose|j: int|
                    0 <= j < pv.len() && (#[trigger] pv[j]).0 == text(key@) && forall|l: int|
                        0 <= l < j ==> (#[trigger] pv[l]).0 != text(key@);
                if j < i {
                    assert(pv[j].0 != text(key@));
                }
                if j > i {
                    assert(pv[i as int].0 != text(key@));
                }
                assert(pairs_view(m@) =~= pv.update(i as int, (text(key@), vv)));
            }
            return;
        }
        i = i + 1;
    }
    m.push((Yaml::Text(key.clone()), value));
    assert(pairs_view(m@) =~= pv.push((text(key@), vv)));
}

pub open spec fn providers_doc(ps: Seq<RuleProvider>) -> YamlV {
    YamlV::Mapping(providers_map(live_providers(ps)))
}

/// The `rule-providers` section and the RULE-SET lines for the providers that
/// are written, or `None` when there are none.
fn rule_providers(routing: &RoutingSettings) -> (r: Option<(Yaml, Vec<String>)>)
    ensures
        match r {
            Some((y, rules)) => live_providers(routing.rule_providers@).len() > 0 && y@
                == providers_doc(routing.rule_providers@) && strs(rules@) == provider_rules(
                live_providers(routing.rule_providers@),
            ),
            None => live_providers(routing.rule_providers@).len() == 0,
        },
{
    let ps = &routing.rule_providers;
    let mut map: Vec<(Yaml, Yaml)> = Vec::new();
    let mut rules: Vec<String> = Vec::new();
    let mut any = false;
    let mut i: usize = 0;
    while i < ps.len()
        invariant
            i <= ps@.len(),
            pairs_view(map@) == providers_map(live_providers(ps@.take(i as int))),
            strs(rules@) == provider_rules(live_providers(ps@.take(i as int))),
            any == (live_providers(ps@.take(i as int)).len() > 0),
        decreases ps@.len() - i,
    {
        let ghost pre = ps@.take(i as int);
        let ghost t = ps@.take(i + 1);
        assert(t.drop_last() =~= pre);
        assert(t.last() == ps@[i as int]);
        let p = &ps[i];
        if p.enabled && !is_blank(p.name.as_str()) && !is_blank(p.url.as_str()) {
            let ghost lp = live_providers(pre);
            assert(live_providers(t) == lp.push(*p));
            assert(lp.push(*p).drop_last() =~= lp);
            let ghost before = strs(rules@);
            insert_entry(&mut map, &p.name, provider_entry(p));
            rules.push(provider_rule_text(p));
            assert(strs(rules@) =~= before.push(provider_rule(*p)));
            assert(provider_rules(lp.push(*p)) =~= provider_rules(lp).push(provider_rule(*p)));
            any = true;
        }
        i = i + 1;
    }
    assert(ps@.take(ps@.len() as int) =~= ps@);
    if !any {
        return None;
    }
    Some((mapping(map), rules))
}

// ---------------------------------------------------------------- rules

pub open spec fn live_app_rules(rs: Seq<AppRule>) -> Seq<Seq<char>>
    decreases rs.len(),
{
    if rs.len() == 0 {
        Seq::empty()
    } else if app_rule_live(rs.last()) {
        live_app_rules(rs.drop_last()).push(app_rule_text(rs.last()))
    } else {
        live_app_rules(rs.drop_last())
    }
}

pub open spec fn domain_rule_live(r: DomainRule) -> bool {
    r.enabled && !blank(r.value@)
}

pub open spec fn live_domain_rules(rs: Seq<DomainRule>, fake_ip: bool) -> Seq<Seq<char>>
    decreases rs.len(),
{
    if rs.len() == 0 {
        Seq::empty()
    } else if domain_rule_live(rs.last()) {
        live_domain_rules(rs.drop_last(), fake_ip).push(domain_rule_text(rs.last(), fake_ip))
    } else {
        live_domain_rules(rs.drop_last(), fake_ip)
    }
}

/// Private networks and `.local`/`.lan` names go direct.
pub open spec fn bypass_rules() -> Seq<Seq<char>> {
    seq!["GEOIP,private,DIRECT,no-resolve"@, "DOMAIN-SUFFIX,local,DIRECT"@, "DOMAIN-SUFFIX,lan,DIRECT"@]
}

pub open spec fn final_rule(t: crate::config::Target) -> Seq<char> {
    "MATCH,"@ + rule_target(t)
}

/// The rule list, in the order the core evaluates it: raw rules that go
/// first, application rules, the private-network bypass when enabled,
/// destination rules, rule providers, raw rules that go last, and the
/// final MATCH.
pub open spec fn rule_lines(cfg: AppConfig, provider_lines: Seq<Seq<char>>) -> Seq<Seq<char>> {
    strs(cfg.routing.raw_prepend@) + live_app_rules(cfg.routing.app_rules@) + (if cfg.core.bypass_private {
        bypass_rules()
    } else {
        Seq::empty()
    }) + live_domain_rules(cfg.routing.domain_rules@, cfg.core.fake_ip) + provider_lines + strs(
        cfg.routing.raw_append@,
    ) + seq![final_rule(cfg.routing.default_target)]
}

fn push_all(out: &mut Vec<String>, items: &Vec<String>)
    ensures
        strs(final(out)@) == strs(old(out)@) + strs(items@),
{
    let mut i: usize = 0;
    while i < items.len()
        invariant
            i <= items@.len(),
            strs(out@) == strs(old(out)@) + strs(items@).take(i as int),
        decreases items@.len() - i,
    {
        let ghost before = strs(out@);
        out.push(items[i].clone());
        assert(strs(out@) =~= before.push(items@[i as int]@));
        assert(strs(items@).take(i + 1) =~= strs(items@).take(i as int).push(items@[i as int]@));
        i = i + 1;
    }
    assert(strs(items@).take(items@.len() as int) =~= strs(items@));
}

/// Rule order is load-bearing: the core takes the first match, so process rules
/// have to sit above the geo/provider lists or they never fire.
pub fn rules(cfg: &AppConfig, provider_rules: Vec<String>) -> (r: Vec<String>)
    ensures
        strs(r@) == rule_lines(*cfg, strs(provider_rules@)),
{
    let mut out: Vec<String> = Vec::new();
    push_all(&mut out, &cfg.routing.raw_prepend);
    let ghost s1 = strs(out@);
    let apps = &cfg.routing.app_rules;
    let mut i: usize = 0;
    while i < apps.len()
        invariant
            i <= apps@.len(),
            strs(out@) == s1 + live_app_rules(apps@.take(i as int)),
        decreases apps@.len() - i,
    {
        let ghost t = apps@.take(i + 1);
        assert(t.drop_last() =~= apps@.take(i as int));
        assert(t.last() == apps@[i as int]);
        let r = &apps[i];
        if r.enabled && !is_blank(r.value.as_str()) {
            let ghost before = strs(out@);
            out.push(r.to_rule());
            assert(strs(out@) =~= before.push(app_rule_text(*r)));
        }
        i = i + 1;
    }
    assert(apps@.take(apps@.len() as int) =~= apps@);
    let ghost s2 = strs(out@);
    if cfg.core.bypass_private {
        out.push(String::from_str("GEOIP,private,DIRECT,no-resolve"));
        out.push(String::from_str("DOMAIN-SUFFIX,local,DIRECT"));
        out.push(String::from_str("DOMAIN-SUFFIX,lan,DIRECT"));
        assert(strs(out@) =~= s2 + bypass_rules());
    } else {
        assert(strs(out@) =~= s2 + Seq::<Seq<char>>::empty());
    }
    let ghost s3 = strs(out@);
    let doms = &cfg.routing.domain_rules;
    let mut j: usize = 0;
    while j < doms.len()
        invariant
            j <= doms@.len(),
            strs(out@) == s3 + live_domain_rules(doms@.take(j as int), cfg.core.fake_ip),
        decreases doms@.len() - j,
    {
        let ghost t = doms@.take(j + 1);
        assert(t.drop_last() =~= doms@.take(j as int));
        assert(t.last() == doms@[j as int]);
        let r = &doms[j];
        if r.enabled && !is_blank(r.value.as_str()) {
            let ghost before = strs(out@);
            out.push(r.to_rule(cfg.core.fake_ip));
            assert(strs(out@) =~= before.push(domain_rule_text(*r, cfg.core.fake_ip)));
        }
        j = j + 1;
    }
    assert(doms@.take(doms@.len() as int) =~= doms@);
    push_all(&mut out, &provider_rules);
    push_all(&mut out, &cfg.routing.raw_append);
    let mut last = String::from_str("MATCH,");
    let t = cfg.routing.default_target.as_rule_target();
    last.append(t.as_str());
    let ghost s6 = strs(out@);
    out.push(last);
    assert(strs(out@) =~= s6.push(final_rule(cfg.routing.default_target)));
    assert(strs(out@) =~= rule_lines(*cfg, strs(provider_rules@)));
    out
}

// ---------------------------------------------------------------- nodes

/// Node names in subscription order: every proxy's `name` that is a string.
pub open spec fn node_names(ps: Seq<YamlV>) -> Seq<Seq<char>>
    decreases ps.len(),
{
    if ps.len() == 0 {
        Seq::empty()
    } else {
        let rest = node_names(ps.drop_last());
        match get_key(ps.last(), "name"@) {
            Some(v) => match as_text(v) {
                Some(s) => rest.push(s),
                None => rest,
            },
            None => rest,
        }
    }
}

/// Node names in subscription order, used to fill the generated groups.
pub fn proxy_names(proxies: &[Yaml]) -> (r: Vec<String>)
    ensures
        strs(r@) == node_names(items_view(proxies@)),
{
    let mut out: Vec<String> = Vec::new();
    let mut i: usize = 0;
    while i < proxies.len()
        invariant
            i <= proxies@.len(),
            strs(out@) == node_names(items_view(proxies@).take(i as int)),
        decreases proxies@.len() - i,
    {
        let ghost t = items_view(proxies@).take(i + 1);
        assert(t.drop_last() =~= items_view(proxies@).take(i as int));
        assert(t.last() == proxies@[i as int]@);
        let ghost before = strs(out@);
        match proxies[i].get("name") {
            Some(v) => match v.as_str() {
                Some(s) => {
                    out.push(s.clone());
                    assert(strs(out@) =~= before.push(s@));
                },
                None => {},
            },
            None => {},
        }
        i = i + 1;
    }
    assert(items_view(proxies@).take(proxies@.len() as int) =~= items_view(proxies@));
    out
}

// ---------------------------------------------------------------- the whole config

pub open spec fn uses_process(rs: Seq<AppRule>) -> bool {
    exists|i: int| 0 <= i < rs.len() && app_rule_live(#[trigger] rs[i])
}

/// The document the core is started with.
pub open spec fn config_doc(cfg: AppConfig, proxies: Seq<YamlV>) -> YamlV {
    let c = cfg.core;
    let head = seq![
        entry("mixed-port"@, YamlV::Number(decimal(c.mixed_port as nat))),
        entry("allow-lan"@, YamlV::Bool(c.allow_lan)),
        entry("bind-address"@, text("*"@)),
        entry("mode"@, text("rule"@)),
        entry("log-level"@, text(c.log_level@)),
        entry("ipv6"@, YamlV::Bool(c.ipv6)),
        entry("unified-delay"@, YamlV::Bool(true)),
        entry("tcp-concurrent"@, YamlV::Bool(true)),
        entry("external-controller"@, text(controller_addr_of(c.controller_host@, c.controller_port))),
        entry("secret"@, text(c.secret@)),
        entry(
            "find-process-mode"@,
            text(
                if uses_process(cfg.routing.app_rules@) {
                    "always"@
                } else {
                    "strict"@
                },
            ),
        ),
        entry(
            "profile"@,
            YamlV::Mapping(
                seq![
                    entry("store-selected"@, YamlV::Bool(true)),
                    entry("store-fake-ip"@, YamlV::Bool(true)),
                ],
            ),
        ),
    ];
    let tun = if c.tun_enabled {
        seq![entry("tun"@, tun_doc(c))]
    } else {
        Seq::empty()
    };
    let body = seq![
        entry("dns"@, dns_doc(c)),
        entry("proxies"@, YamlV::Sequence(proxies)),
        entry("proxy-groups"@, groups_doc(cfg.routing.groups@, node_names(proxies))),
    ];
    let live = live_providers(cfg.routing.rule_providers@);
    let providers = if live.len() > 0 {
        seq![entry("rule-providers"@, providers_doc(cfg.routing.rule_providers@))]
    } else {
        Seq::empty()
    };
    let rules = seq![entry("rules"@, texts(rule_lines(cfg, provider_rules(live))))];
    YamlV::Mapping(head + tun + body + providers + rules)
}

// ---------------------------------------------------------------- tags

proof fn lemma_tun_named(core: CoreSettings)
    ensures
        tags_named(tun_doc(core)),
{
    let m = tun_doc(core)->Mapping_0;
    lemma_texts_named(seq!["any:53"@, "tcp://any:53"@]);
    lemma_pairs_named(m);
    assert forall|i: int| 0 <= i < m.len() implies #[trigger] entry_named(m[i]) by {}
}

proof fn lemma_dns_named(core: CoreSettings)
    ensures
        tags_named(dns_doc(core)),
{
    let m = dns_doc(core)->Mapping_0;
    lemma_texts_named(fake_ip_filter());
    lemma_texts_named(seq!["1.1.1.1"@, "8.8.8.8"@]);
    lemma_texts_named(seq!["https://1.1.1.1/dns-query"@, "https://8.8.8.8/dns-query"@]);
    lemma_texts_named(seq!["https://1.1.1.1/dns-query"@]);
    lemma_pairs_named(m);
    assert forall|i: int| 0 <= i < m.len() implies #[trigger] entry_named(m[i]) by {}
}

proof fn lemma_group_named(all_names: Seq<Seq<char>>, g: GroupSpec, nodes: Seq<Seq<char>>)
    ensures
        tags_named(group_doc(all_names, g, nodes)),
{
    let m = group_doc(all_names, g, nodes)->Mapping_0;
    lemma_texts_named(group_members(all_names, g, nodes));
    lemma_pairs_named(m);
    assert forall|i: int| 0 <= i < m.len() implies #[trigger] entry_named(m[i]) by {}
}

proof fn lemma_groups_named(groups: Seq<GroupSpec>, nodes: Seq<Seq<char>>)
    ensures
        tags_named(groups_doc(groups, nodes)),
{
    let s = groups_doc(groups, nodes)->Sequence_0;
    lemma_items_named(s);
    assert forall|i: int| 0 <= i < s.len() implies #[trigger] tags_named(s[i]) by {
        lemma_group_named(group_names_of(groups), groups[i], nodes);
    }
}

proof fn lemma_provider_named(p: RuleProvider)
    ensures
        tags_named(provider_doc(p)),
{
    let m = provider_doc(p)->Mapping_0;
    lemma_pairs_named(m);
    assert forall|i: int| 0 <= i < m.len() implies #[trigger] entry_named(m[i]) by {}
}

proof fn lemma_providers_named(ps: Seq<RuleProvider>)
    ensures
        tags_named(YamlV::Mapping(providers_map(ps))),
    decreases ps.len(),
{
    if ps.len() > 0 {
        lemma_providers_named(ps.drop_last());
        lemma_provider_named(ps.last());
        let m = providers_map(ps.drop_last());
        let k = text(ps.last().name@);
        let v = provider_doc(ps.last());
        lemma_pairs_named(m);
        let r = map_insert(m, k, v);
        lemma_pairs_named(r);
        assert(entry_named((k, v)));
        if exists|i: int|
            0 <= i < m.len() && (#[trigger] m[i]).0 == k && forall|j: int|
                0 <= j < i ==> (#[trigger] m[j]).0 != k {
            let i = choose|i: int|
                0 <= i < m.len() && (#[trigger] m[i]).0 == k && forall|j: int|
                    0 <= j < i ==> (#[trigger] m[j]).0 != k;
            assert(r == m.update(i, (k, v)));
            assert forall|j: int| 0 <= j < r.len() implies #[trigger] entry_named(r[j]) by {
                if j != i {
                    assert(r[j] == m[j]);
                    assert(entry_named(m[j]));
                }
            }
        } else {
            assert(r == m.push((k, v)));
            assert forall|j: int| 0 <= j < r.len() implies #[trigger] entry_named(r[j]) by {
                if j < m.len() {
                    assert(r[j] == m[j]);
                    assert(entry_named(m[j]));
                }
            }
        }
    } else {
        lemma_pairs_named(providers_map(ps));
    }
}

/// The generated document has only named tags when the nodes do.
proof fn lemma_config_doc_named(cfg: AppConfig, proxies: Seq<YamlV>)
    requires
        all_named(proxies),
    ensures
        tags_named(config_doc(cfg, proxies)),
{
    let m = config_doc(cfg, proxies)->Mapping_0;
    let profile = seq![
        entry("store-selected"@, YamlV::Bool(true)),
        entry("store-fake-ip"@, YamlV::Bool(true)),
    ];
    lemma_pairs_named(profile);
    assert forall|i: int| 0 <= i < profile.len() implies #[trigger] entry_named(profile[i]) by {}
    lemma_tun_named(cfg.core);
    lemma_dns_named(cfg.core);
    lemma_items_named(proxies);
    lemma_groups_named(cfg.routing.groups@, node_names(proxies));
    lemma_providers_named(live_providers(cfg.routing.rule_providers@));
    lemma_texts_named(rule_lines(cfg, provider_rules(live_providers(cfg.routing.rule_providers@))));
    lemma_pairs_named(m);
    assert forall|i: int| 0 <= i < m.len() implies #[trigger] entry_named(m[i]) by {}
}

/// Build the full config the core is started with.
pub fn generate(cfg: &AppConfig, proxies: &[Yaml]) -> (r: Result<String, String>)
    requires
        all_named(items_view(proxies@)),
    ensures
        match r {
            Ok(s) => yaml_render(config_doc(*cfg, items_view(proxies@))) == Ok::<
                Seq<char>,
                Seq<char>,
            >(s@),
            Err(e) => yaml_render(config_doc(*cfg, items_view(proxies@))) is Err && e@
                == "serializing generated config"@,
        },
{
    let c = &cfg.core;
    let mut root: Vec<(Yaml, Yaml)> = Vec::new();
    put(&mut root, "mixed-port", number_value(c.mixed_port as u64));
    put(&mut root, "allow-lan", Yaml::Bool(c.allow_lan));
    put(&mut root, "bind-address", text_value("*"));
    put(&mut root, "mode", text_value("rule"));
    put(&mut root, "log-level", Yaml::Text(c.log_level.clone()));
    put(&mut root, "ipv6", Yaml::Bool(c.ipv6));
    put(&mut root, "unified-delay", Yaml::Bool(true));
    put(&mut root, "tcp-concurrent", Yaml::Bool(true));
    put(&mut root, "external-controller", Yaml::Text(c.controller_addr()));
    put(&mut root, "secret", Yaml::Text(c.secret.clone()));
    // Matching by process needs the core to look up the owner of every
    // connection; without this the PROCESS-* rules silently never match.
    let process = cfg.routing.uses_process_rules();
    put(&mut root, "find-process-mode", text_value(if process { "always" } else { "strict" }));
    let mut profile: Vec<(Yaml, Yaml)> = Vec::new();
    put(&mut profile, "store-selected", Yaml::Bool(true));
    put(&mut profile, "store-fake-ip", Yaml::Bool(true));
    proof {
        assert(pairs_view(profile@) =~= seq![
            entry("store-selected"@, YamlV::Bool(true)),
            entry("store-fake-ip"@, YamlV::Bool(true)),
        ]);
    }
    put(&mut root, "profile", mapping(profile));
    let ghost head = pairs_view(root@);
    if c.tun_enabled {
        put(&mut root, "tun", tun_section(c));
    }
    let ghost with_tun = pairs_view(root@);
    put(&mut root, "dns", dns_section(c));
    let mut copies: Vec<Yaml> = Vec::new();
    let mut i: usize = 0;
    while i < proxies.len()
        invariant
            i <= proxies@.len(),
            copies@.len() == i,
            forall|j: int| 0 <= j < i ==> view_of(#[trigger] copies@[j]) == view_of(proxies@[j]),
        decreases proxies@.len() - i,
    {
        copies.push(proxies[i].deep_clone());
        i = i + 1;
    }
    proof {
        lemma_sequence_view(copies);
        assert(items_view(copies@) =~= items_view(proxies@));
    }
    put(&mut root, "proxies", Yaml::Sequence(copies));
    let names = proxy_names(proxies);
    put(&mut root, "proxy-groups", proxy_groups(&cfg.routing, &names));
    let ghost with_body = pairs_view(root@);
    let provider_lines = match rule_providers(&cfg.routing) {
        Some((providers, lines)) => {
            put(&mut root, "rule-providers", providers);
            lines
        },
        None => {
            proof {
                assert(provider_rules(live_providers(cfg.routing.rule_providers@))
                    =~= Seq::<Seq<char>>::empty());
            }
            Vec::new()
        },
    };
    let ghost with_providers = pairs_view(root@);
    let all_rules = rules(cfg, provider_lines);
    put(&mut root, "rules", texts_value(all_rules));
    let doc = mapping(root);
    proof {
        let want = config_doc(*cfg, items_view(proxies@));
        assert(pairs_view(root@) =~= want->Mapping_0);
        lemma_config_doc_named(*cfg, items_view(proxies@));
    }
    match render_yaml(&doc) {
        Ok(s) => Ok(s),
        Err(_) => Err(String::from_str("serializing generated config")),
    }
}

// ---------------------------------------------------------------- laws

/// Rule order: the core takes the first match, so the sections are written
/// in this order and nothing else: the raw "before everything" rules,
/// application rules, the private-network bypass (when enabled), destination
/// rules, rule providers, the raw "just before the default action" rules,
/// and `MATCH,<default target>` last.
pub proof fn law_rule_order(cfg: AppConfig, provider_lines: Seq<Seq<char>>)
    ensures
        ({
            let lines = rule_lines(cfg, provider_lines);
            let pre = strs(cfg.routing.raw_prepend@);
            let apps = live_app_rules(cfg.routing.app_rules@);
            let bypass = if cfg.core.bypass_private {
                bypass_rules()
            } else {
                Seq::<Seq<char>>::empty()
            };
            let dests = live_domain_rules(cfg.routing.domain_rules@, cfg.core.fake_ip);
            let post = strs(cfg.routing.raw_append@);
            let a = pre.len() as int;
            let b = a + apps.len();
            let c = b + bypass.len();
            let d = c + dests.len();
            let e = d + provider_lines.len();
            let f = e + post.len();
            &&& lines.len() == f + 1
            &&& forall|k: int| 0 <= k < a ==> lines[k] == pre[k]
            &&& forall|k: int| a <= k < b ==> lines[k] == apps[k - a]
            &&& forall|k: int| b <= k < c ==> lines[k] == bypass[k - b]
            &&& forall|k: int| c <= k < d ==> lines[k] == dests[k - c]
            &&& forall|k: int| d <= k < e ==> lines[k] == provider_lines[k - d]
            &&& forall|k: int| e <= k < f ==> lines[k] == post[k - e]
            &&& lines[f] == final_rule(cfg.routing.default_target)
        }),
{
}

/// Application rules always come before destination rules: whichever
/// application rule and destination rule are written, the application rule
/// is the earlier line.
pub proof fn law_process_rules_first(cfg: AppConfig, provider_lines: Seq<Seq<char>>, i: int, j: int)
    requires
        0 <= i < live_app_rules(cfg.routing.app_rules@).len(),
        0 <= j < live_domain_rules(cfg.routing.domain_rules@, cfg.core.fake_ip).len(),
    ensures
        exists|x: int, y: int|
            0 <= x < y < rule_lines(cfg, provider_lines).len() && rule_lines(cfg, provider_lines)[x]
                == live_app_rules(cfg.routing.app_rules@)[i] && rule_lines(cfg, provider_lines)[y]
                == live_domain_rules(cfg.routing.domain_rules@, cfg.core.fake_ip)[j],
{
    law_rule_order(cfg, provider_lines);
    let pre = strs(cfg.routing.raw_prepend@);
    let apps = live_app_rules(cfg.routing.app_rules@);
    let bypass = if cfg.core.bypass_private {
        bypass_rules()
    } else {
        Seq::<Seq<char>>::empty()
    };
    let dests = live_domain_rules(cfg.routing.domain_rules@, cfg.core.fake_ip);
    let lines = rule_lines(cfg, provider_lines);
    let x = pre.len() + i;
    let c = pre.len() + apps.len() + bypass.len();
    let y = c + j;
    assert(lines[x] == apps[x - pre.len()]);
    assert(lines[y] == dests[y - c]);
    assert(0 <= x < y < lines.len() && lines[x] == apps[i] && lines[y] == dests[j]);
}

/// Process lookup is switched on exactly when some application rule is
/// written into the rules.
pub proof fn law_process_lookup_follows_app_rules(rs: Seq<AppRule>)
    ensures
        uses_process(rs) <==> live_app_rules(rs).len() > 0,
    decreases rs.len(),
{
    if rs.len() > 0 {
        law_process_lookup_follows_app_rules(rs.drop_last());
        if uses_process(rs.drop_last()) {
            let i = choose|i: int| 0 <= i < rs.drop_last().len() && app_rule_live(
                #[trigger] rs.drop_last()[i],
            );
            assert(rs[i] == rs.drop_last()[i]);
        }
        if uses_process(rs) && !app_rule_live(rs.last()) {
            let i = choose|i: int| 0 <= i < rs.len() && app_rule_live(#[trigger] rs[i]);
            assert(rs.drop_last()[i] == rs[i]);
        }
        if app_rule_live(rs.last()) {
            assert(app_rule_live(rs[rs.len() - 1]));
        }
    }
}


proof fn lemma_live_app_rule_written(rs: Seq<AppRule>, i: int)
    requires
        0 <= i < rs.len(),
        app_rule_live(rs[i]),
    ensures
        live_app_rules(rs).contains(app_rule_text(rs[i])),
    decreases rs.len(),
{
    let rest = rs.drop_last();
    if i == rs.len() - 1 {
        let l = live_app_rules(rs);
        assert(rs.last() == rs[i]);
        assert(l[l.len() - 1] == app_rule_text(rs[i]));
    } else {
        assert(rest[i] == rs[i]);
        lemma_live_app_rule_written(rest, i);
        let lr = live_app_rules(rest);
        let j = choose|j: int| 0 <= j < lr.len() && lr[j] == app_rule_text(rs[i]);
        if app_rule_live(rs.last()) {
            assert(live_app_rules(rs)[j] == lr[j]);
        }
    }
}

/// The `dns` entry of the generated document is the DNS section.
proof fn lemma_config_dns(cfg: AppConfig, proxies: Seq<YamlV>)
    ensures
        get_key(config_doc(cfg, proxies), "dns"@) == Some(dns_doc(cfg.core)),
{
    reveal_strlit("mixed-port");
    reveal_strlit("allow-lan");
    reveal_strlit("bind-address");
    reveal_strlit("mode");
    reveal_strlit("log-level");
    reveal_strlit("ipv6");
    reveal_strlit("unified-delay");
    reveal_strlit("tcp-concurrent");
    reveal_strlit("external-controller");
    reveal_strlit("secret");
    reveal_strlit("find-process-mode");
    reveal_strlit("profile");
    reveal_strlit("tun");
    reveal_strlit("dns");
    let m = config_doc(cfg, proxies)->Mapping_0;
    let t: int = if cfg.core.tun_enabled {
        1
    } else {
        0
    };
    assert(m[12 + t] == entry("dns"@, dns_doc(cfg.core)));
    assert("dns"@[0] != "tun"@[0]);
    assert forall|j: int| 0 <= j < 12 + t implies (#[trigger] m[j]).0 != YamlV::Text("dns"@) by {
        if j == 0 {
            assert(m[0].0 != YamlV::Text("dns"@));
        } else if j == 1 {
            assert(m[1].0 != YamlV::Text("dns"@));
        } else if j == 2 {
            assert(m[2].0 != YamlV::Text("dns"@));
        } else if j == 3 {
            assert(m[3].0 != YamlV::Text("dns"@));
        } else if j == 4 {
            assert(m[4].0 != YamlV::Text("dns"@));
        } else if j == 5 {
            assert(m[5].0 != YamlV::Text("dns"@));
        } else if j == 6 {
            assert(m[6].0 != YamlV::Text("dns"@));
        } else if j == 7 {
            assert(m[7].0 != YamlV::Text("dns"@));
        } else if j == 8 {
            assert(m[8].0 != YamlV::Text("dns"@));
        } else if j == 9 {
            assert(m[9].0 != YamlV::Text("dns"@));
        } else if j == 10 {
            assert(m[10].0 != YamlV::Text("dns"@));
        } else if j == 11 {
            assert(m[11].0 != YamlV::Text("dns"@));
        }
    }
    lemma_entry_for_first(m, "dns"@, 12 + t);
}

/// Every enabled application rule with a value is written into the rules as
/// `PROCESS-NAME,<value>,<target>` when it matches by process name and as
/// `PROCESS-PATH,<value>,<target>` when it matches by path, where the target
/// is `DIRECT`, `REJECT` or the name of the group.
pub proof fn law_app_rule_lines(cfg: AppConfig, provider_lines: Seq<Seq<char>>, i: int)
    requires
        0 <= i < cfg.routing.app_rules@.len(),
        cfg.routing.app_rules@[i].enabled,
        !blank(cfg.routing.app_rules@[i].value@),
    ensures
        ({
            let r = cfg.routing.app_rules@[i];
            let kind = match r.match_by {
                AppMatch::Name => "PROCESS-NAME"@,
                AppMatch::Path => "PROCESS-PATH"@,
            };
            let target = match r.target {
                Target::Direct => "DIRECT"@,
                Target::Reject => "REJECT"@,
                Target::Group(name) => name@,
            };
            rule_lines(cfg, provider_lines).contains(kind + ","@ + r.value@ + ","@ + target)
        }),
{
    let rs = cfg.routing.app_rules@;
    lemma_live_app_rule_written(rs, i);
    law_rule_order(cfg, provider_lines);
    let apps = live_app_rules(rs);
    let j = choose|j: int| 0 <= j < apps.len() && apps[j] == app_rule_text(rs[i]);
    let a = cfg.routing.raw_prepend@.len() as int;
    let lines = rule_lines(cfg, provider_lines);
    assert(lines[a + j] == apps[j]);
}

proof fn lemma_live_domain_rule_written(rs: Seq<DomainRule>, fake_ip: bool, i: int)
    requires
        0 <= i < rs.len(),
        domain_rule_live(rs[i]),
    ensures
        live_domain_rules(rs, fake_ip).contains(domain_rule_text(rs[i], fake_ip)),
    decreases rs.len(),
{
    let rest = rs.drop_last();
    if i == rs.len() - 1 {
        let l = live_domain_rules(rs, fake_ip);
        assert(rs.last() == rs[i]);
        assert(l[l.len() - 1] == domain_rule_text(rs[i], fake_ip));
    } else {
        assert(rest[i] == rs[i]);
        lemma_live_domain_rule_written(rest, fake_ip, i);
        let lr = live_domain_rules(rest, fake_ip);
        let j = choose|j: int| 0 <= j < lr.len() && lr[j] == domain_rule_text(rs[i], fake_ip);
        if domain_rule_live(rs.last()) {
            assert(live_domain_rules(rs, fake_ip)[j] == lr[j]);
        }
    }
}

/// Every enabled destination rule with a value is written as
/// `<KIND>,<value>,<target>`, KIND being the core's name for the matcher
/// (DOMAIN, DOMAIN-SUFFIX, DOMAIN-KEYWORD, DOMAIN-REGEX, IP-CIDR, GEOIP,
/// GEOSITE, DST-PORT); an address matcher (IP-CIDR, GEOIP) gets
/// `,no-resolve` exactly when fake-ip DNS is off.
pub proof fn law_domain_rule_lines(cfg: AppConfig, provider_lines: Seq<Seq<char>>, i: int)
    requires
        0 <= i < cfg.routing.domain_rules@.len(),
        cfg.routing.domain_rules@[i].enabled,
        !blank(cfg.routing.domain_rules@[i].value@),
    ensures
        ({
            let r = cfg.routing.domain_rules@[i];
            let kind = match r.kind {
                MatchKind::Domain => "DOMAIN"@,
                MatchKind::DomainSuffix => "DOMAIN-SUFFIX"@,
                MatchKind::DomainKeyword => "DOMAIN-KEYWORD"@,
                MatchKind::DomainRegex => "DOMAIN-REGEX"@,
                MatchKind::IpCidr => "IP-CIDR"@,
                MatchKind::Geoip => "GEOIP"@,
                MatchKind::Geosite => "GEOSITE"@,
                MatchKind::DstPort => "DST-PORT"@,
            };
            let target = match r.target {
                Target::Direct => "DIRECT"@,
                Target::Reject => "REJECT"@,
                Target::Group(name) => name@,
            };
            let base = kind + ","@ + r.value@ + ","@ + target;
            let address = r.kind == MatchKind::IpCidr || r.kind == MatchKind::Geoip;
            rule_lines(cfg, provider_lines).contains(
                if address && !cfg.core.fake_ip {
                    base + ",no-resolve"@
                } else {
                    base
                },
            )
        }),
{
    let rs = cfg.routing.domain_rules@;
    lemma_live_domain_rule_written(rs, cfg.core.fake_ip, i);
    law_rule_order(cfg, provider_lines);
    let dests = live_domain_rules(rs, cfg.core.fake_ip);
    let j = choose|j: int| 0 <= j < dests.len() && dests[j] == domain_rule_text(rs[i], cfg.core.fake_ip);
    let bypass = if cfg.core.bypass_private {
        bypass_rules()
    } else {
        Seq::<Seq<char>>::empty()
    };
    let c = cfg.routing.raw_prepend@.len() + live_app_rules(cfg.routing.app_rules@).len()
        + bypass.len();
    let lines = rule_lines(cfg, provider_lines);
    assert(lines[c + j] == dests[j]);
}

/// With the private-network bypass on, private addresses (`GEOIP,private`,
/// without resolving) and `.local`/`.lan` names go `DIRECT`; with it off no
/// such line is written by it. The last rule is always `MATCH,<target>` for
/// the default target: `DIRECT`, `REJECT` or the group's name.
pub proof fn law_bypass_and_final(cfg: AppConfig, provider_lines: Seq<Seq<char>>)
    ensures
        cfg.core.bypass_private ==> rule_lines(cfg, provider_lines).contains(
            "GEOIP,private,DIRECT,no-resolve"@,
        ),
        cfg.core.bypass_private ==> rule_lines(cfg, provider_lines).contains("DOMAIN-SUFFIX,local,DIRECT"@),
        cfg.core.bypass_private ==> rule_lines(cfg, provider_lines).contains("DOMAIN-SUFFIX,lan,DIRECT"@),
        rule_lines(cfg, provider_lines).last() == "MATCH,"@ + match cfg.routing.default_target {
            Target::Direct => "DIRECT"@,
            Target::Reject => "REJECT"@,
            Target::Group(name) => name@,
        },
{
    law_rule_order(cfg, provider_lines);
    let lines = rule_lines(cfg, provider_lines);
    let b = (cfg.routing.raw_prepend@.len() + live_app_rules(cfg.routing.app_rules@).len()) as int;
    if cfg.core.bypass_private {
        assert(lines[b] == bypass_rules()[0]);
        assert(lines[b + 1] == bypass_rules()[1]);
        assert(lines[b + 2] == bypass_rules()[2]);
    }
    assert(lines.last() == lines[lines.len() - 1]);
}

/// A generated group's `type` is the core's name for its kind: `select`,
/// `url-test`, `fallback` or `load-balance`.
pub proof fn law_group_type(all_names: Seq<Seq<char>>, g: GroupSpec, nodes: Seq<Seq<char>>)
    ensures
        get_key(group_doc(all_names, g, nodes), "type"@) == Some(
            text(
                match g.kind {
                    GroupKind::Select => "select"@,
                    GroupKind::UrlTest => "url-test"@,
                    GroupKind::Fallback => "fallback"@,
                    GroupKind::LoadBalance => "load-balance"@,
                },
            ),
        ),
{
    reveal_strlit("name");
    reveal_strlit("type");
    let m = group_doc(all_names, g, nodes)->Mapping_0;
    assert(m[0] == entry("name"@, text(g.name@)));
    assert(m[1] == entry("type"@, text(group_kind_yaml(g.kind))));
    assert("name"@[0] != "type"@[0]);
    lemma_entry_for_first(m, "type"@, 1);
}

/// A rule provider is referenced as `RULE-SET,<name>,<target>`, with
/// `,no-resolve` exactly when its behavior is `ipcidr`.
pub proof fn law_provider_rule(p: RuleProvider)
    ensures
        provider_rule(p) == "RULE-SET,"@ + p.name@ + ","@ + match p.target {
            Target::Direct => "DIRECT"@,
            Target::Reject => "REJECT"@,
            Target::Group(name) => name@,
        } + if p.behavior@ == "ipcidr"@ {
            ",no-resolve"@
        } else {
            Seq::<char>::empty()
        },
{
    let base = "RULE-SET,"@ + p.name@ + ","@ + rule_target(p.target);
    assert(base + Seq::<char>::empty() =~= base);
}

/// The top of the generated config: the mixed port, LAN access, the log
/// level and IPv6 as set; the controller on `<host>:<port>` with the secret
/// as set; and process lookup `always` when some enabled application rule
/// has a value, `strict` otherwise.
pub proof fn law_config_head(cfg: AppConfig, proxies: Seq<YamlV>)
    ensures
        ({
            let doc = config_doc(cfg, proxies);
            let c = cfg.core;
            let rs = cfg.routing.app_rules@;
            &&& get_key(doc, "mixed-port"@) == Some(YamlV::Number(decimal(c.mixed_port as nat)))
            &&& get_key(doc, "allow-lan"@) == Some(YamlV::Bool(c.allow_lan))
            &&& get_key(doc, "log-level"@) == Some(text(c.log_level@))
            &&& get_key(doc, "ipv6"@) == Some(YamlV::Bool(c.ipv6))
            &&& get_key(doc, "external-controller"@) == Some(
                text(c.controller_host@ + ":"@ + decimal(c.controller_port as nat)),
            )
            &&& get_key(doc, "secret"@) == Some(text(c.secret@))
            &&& get_key(doc, "find-process-mode"@) == Some(
                text(
                    if exists|i: int|
                        0 <= i < rs.len() && (#[trigger] rs[i]).enabled && !blank(rs[i].value@) {
                        "always"@
                    } else {
                        "strict"@
                    },
                ),
            )
        }),
{
    reveal_strlit("mixed-port");
    reveal_strlit("allow-lan");
    reveal_strlit("bind-address");
    reveal_strlit("mode");
    reveal_strlit("log-level");
    reveal_strlit("ipv6");
    reveal_strlit("unified-delay");
    reveal_strlit("tcp-concurrent");
    reveal_strlit("external-controller");
    reveal_strlit("secret");
    reveal_strlit("find-process-mode");
    let m = config_doc(cfg, proxies)->Mapping_0;
    let k0 = YamlV::Text("mixed-port"@);
    let k1 = YamlV::Text("allow-lan"@);
    let k4 = YamlV::Text("log-level"@);
    let k5 = YamlV::Text("ipv6"@);
    let k8 = YamlV::Text("external-controller"@);
    let k9 = YamlV::Text("secret"@);
    let k10 = YamlV::Text("find-process-mode"@);
    assert(m[0].0 == k0);
    assert(m[1].0 == k1);
    assert(m[2].0 == YamlV::Text("bind-address"@));
    assert(m[3].0 == YamlV::Text("mode"@));
    assert(m[4].0 == k4);
    assert(m[5].0 == k5);
    assert(m[6].0 == YamlV::Text("unified-delay"@));
    assert(m[7].0 == YamlV::Text("tcp-concurrent"@));
    assert(m[8].0 == k8);
    assert(m[9].0 == k9);
    assert(m[10].0 == k10);
    assert("log-level"@[0] != "allow-lan"@[0]);
    assert("ipv6"@[0] != "mode"@[0]);
    lemma_entry_for_first(m, "mixed-port"@, 0);
    lemma_entry_for_first(m, "allow-lan"@, 1);
    lemma_entry_for_first(m, "log-level"@, 4);
    lemma_entry_for_first(m, "ipv6"@, 5);
    assert forall|j: int| 0 <= j < 10 implies (#[trigger] m[j]).0 != k10 && (j < 9 ==> m[j].0 != k9)
        && (j < 8 ==> m[j].0 != k8) by {
        assert(m[j].0->Text_0.len() != 17);
        if j < 9 {
            assert(m[j].0->Text_0.len() != 6);
        }
        if j < 8 {
            assert(m[j].0->Text_0.len() != 19);
        }
    }
    lemma_entry_for_first(m, "external-controller"@, 8);
    lemma_entry_for_first(m, "secret"@, 9);
    lemma_entry_for_first(m, "find-process-mode"@, 10);
    law_process_lookup_follows_app_rules(cfg.routing.app_rules@);
}

#[verifier::spinoff_prover]
proof fn lemma_tun_doc_fields(core: CoreSettings)
    ensures
        get_key(tun_doc(core), "enable"@) == Some(YamlV::Bool(true)),
        get_key(tun_doc(core), "stack"@) == Some(text(core.tun_stack@)),
        get_key(tun_doc(core), "device"@) == Some(text("mihomo-tun"@)),
        get_key(tun_doc(core), "auto-route"@) == Some(YamlV::Bool(true)),
{
    reveal_strlit("enable");
    reveal_strlit("stack");
    reveal_strlit("device");
    reveal_strlit("auto-route");
    let tm = tun_doc(core)->Mapping_0;
    assert(tm[0] == entry("enable"@, YamlV::Bool(true)));
    assert(tm[1] == entry("stack"@, text(core.tun_stack@)));
    assert(tm[2] == entry("device"@, text("mihomo-tun"@)));
    assert(tm[3] == entry("auto-route"@, YamlV::Bool(true)));
    assert("enable"@.len() != "stack"@.len());
    assert("enable"@[0] != "device"@[0]);
    assert("stack"@.len() != "device"@.len());
    assert("enable"@.len() != "auto-route"@.len());
    assert("stack"@.len() != "auto-route"@.len());
    assert("device"@.len() != "auto-route"@.len());
    lemma_entry_for_first(tm, "enable"@, 0);
    lemma_entry_for_first(tm, "stack"@, 1);
    lemma_entry_for_first(tm, "device"@, 2);
    lemma_entry_for_first(tm, "auto-route"@, 3);
}

#[verifier::spinoff_prover]
proof fn lemma_config_tun_present(cfg: AppConfig, proxies: Seq<YamlV>)
    requires
        cfg.core.tun_enabled,
    ensures
        get_key(config_doc(cfg, proxies), "tun"@) == Some(tun_doc(cfg.core)),
{
    reveal_strlit("mixed-port");
    reveal_strlit("allow-lan");
    reveal_strlit("bind-address");
    reveal_strlit("mode");
    reveal_strlit("log-level");
    reveal_strlit("ipv6");
    reveal_strlit("unified-delay");
    reveal_strlit("tcp-concurrent");
    reveal_strlit("external-controller");
    reveal_strlit("secret");
    reveal_strlit("find-process-mode");
    reveal_strlit("profile");
    reveal_strlit("tun");
    reveal_strlit("dns");
    reveal_strlit("proxies");
    reveal_strlit("proxy-groups");
    reveal_strlit("rule-providers");
    reveal_strlit("rules");
    let m = config_doc(cfg, proxies)->Mapping_0;
    let kt = YamlV::Text("tun"@);
    assert("dns"@[0] != "tun"@[0]);
    assert(m[12] == entry("tun"@, tun_doc(cfg.core)));
    assert forall|j: int| 0 <= j < 12 implies (#[trigger] m[j]).0 != kt by {
        assert(m[j].0->Text_0.len() != 3);
    }
    lemma_entry_for_first(m, "tun"@, 12);
}

#[verifier::spinoff_prover]
proof fn lemma_config_tun_absent(cfg: AppConfig, proxies: Seq<YamlV>)
    requires
        !cfg.core.tun_enabled,
    ensures
        get_key(config_doc(cfg, proxies), "tun"@) is None,
{
    reveal_strlit("mixed-port");
    reveal_strlit("allow-lan");
    reveal_strlit("bind-address");
    reveal_strlit("mode");
    reveal_strlit("log-level");
    reveal_strlit("ipv6");
    reveal_strlit("unified-delay");
    reveal_strlit("tcp-concurrent");
    reveal_strlit("external-controller");
    reveal_strlit("secret");
    reveal_strlit("find-process-mode");
    reveal_strlit("profile");
    reveal_strlit("tun");
    reveal_strlit("dns");
    reveal_strlit("proxies");
    reveal_strlit("proxy-groups");
    reveal_strlit("rule-providers");
    reveal_strlit("rules");
    let m = config_doc(cfg, proxies)->Mapping_0;
    let kt = YamlV::Text("tun"@);
    assert("dns"@[0] != "tun"@[0]);
    assert forall|j: int| 0 <= j < m.len() implies (#[trigger] m[j]).0 != kt by {
        if j < 12 {
            assert(m[j].0->Text_0.len() != 3);
        } else if j == 12 {
            assert(m[12].0 != kt);
        } else if j == 13 {
            assert(m[13].0 != kt);
        } else if j == 14 {
            assert(m[14].0 != kt);
        } else if j == 15 {
            assert(m[15].0 != kt);
        } else if j == 16 {
            assert(m[16].0 != kt);
        }
    }
}

/// The `tun` section is written exactly when TUN is on; it is enabled, uses
/// the configured stack, names the device `mihomo-tun` and lets the core
/// set the routes.
pub proof fn law_tun_section(cfg: AppConfig, proxies: Seq<YamlV>)
    ensures
        !cfg.core.tun_enabled ==> get_key(config_doc(cfg, proxies), "tun"@) is None,
        cfg.core.tun_enabled ==> get_key(config_doc(cfg, proxies), "tun"@) is Some,
        cfg.core.tun_enabled ==> ({
            let t = get_key(config_doc(cfg, proxies), "tun"@)->0;
            &&& get_key(t, "enable"@) == Some(YamlV::Bool(true))
            &&& get_key(t, "stack"@) == Some(text(cfg.core.tun_stack@))
            &&& get_key(t, "device"@) == Some(text("mihomo-tun"@))
            &&& get_key(t, "auto-route"@) == Some(YamlV::Bool(true))
        }),
{
    if cfg.core.tun_enabled {
        lemma_config_tun_present(cfg, proxies);
        lemma_tun_doc_fields(cfg.core);
    } else {
        lemma_config_tun_absent(cfg, proxies);
    }
}

/// Which resolver mode the DNS section names, and its fake-ip range.
#[verifier::spinoff_prover]
proof fn lemma_dns_doc_mode(core: CoreSettings)
    ensures
        core.fake_ip ==> get_key(dns_doc(core), "enhanced-mode"@) == Some(text("fake-ip"@)),
        core.fake_ip ==> get_key(dns_doc(core), "fake-ip-range"@) == Some(text("198.18.0.1/16"@)),
        !core.fake_ip ==> get_key(dns_doc(core), "enhanced-mode"@) == Some(text("redir-host"@)),
        !core.fake_ip ==> get_key(dns_doc(core), "fake-ip-range"@) is None,
{
    reveal_strlit("enable");
    reveal_strlit("ipv6");
    reveal_strlit("listen");
    reveal_strlit("prefer-h3");
    reveal_strlit("respect-rules");
    reveal_strlit("enhanced-mode");
    reveal_strlit("fake-ip-range");
    reveal_strlit("fake-ip-filter");
    reveal_strlit("default-nameserver");
    reveal_strlit("nameserver");
    reveal_strlit("proxy-server-nameserver");
    let m = dns_doc(core)->Mapping_0;
    let em = YamlV::Text("enhanced-mode"@);
    let fr = YamlV::Text("fake-ip-range"@);
    assert(m[0] == entry("enable"@, YamlV::Bool(true)));
    assert(m[1] == entry("ipv6"@, YamlV::Bool(core.ipv6)));
    assert("enable"@.len() != "enhanced-mode"@.len());
    assert("ipv6"@.len() != "enhanced-mode"@.len());
    assert(m[0].0 != em && m[0].0 != fr);
    assert(m[1].0 != em && m[1].0 != fr);
    assert(m[2] == entry("listen"@, text("127.0.0.1:1053"@)));
    assert(m[3] == entry("prefer-h3"@, YamlV::Bool(false)));
    assert(m[4] == entry("respect-rules"@, YamlV::Bool(true)));
    assert("listen"@.len() != "enhanced-mode"@.len());
    assert("prefer-h3"@.len() != "enhanced-mode"@.len());
    assert(m[2].0 != em && m[2].0 != fr);
    assert(m[3].0 != em && m[3].0 != fr);
    assert("respect-rules"@[0] != "enhanced-mode"@[0]);
    assert("respect-rules"@[0] != "fake-ip-range"@[0]);
    assert(m[4].0 != em && m[4].0 != fr);
    assert(m[5] == entry("enhanced-mode"@, text(if core.fake_ip { "fake-ip"@ } else { "redir-host"@ })));
    lemma_entry_for_first(m, "enhanced-mode"@, 5);
    if core.fake_ip {
        assert("enhanced-mode"@[0] != "fake-ip-range"@[0]);
        assert(m[5].0 != fr);
        assert(m[6] == entry("fake-ip-range"@, text("198.18.0.1/16"@)));
        lemma_entry_for_first(m, "fake-ip-range"@, 6);
    } else {
        assert(m.len() == 9);
        assert(m[6].0 == YamlV::Text("default-nameserver"@));
        assert(m[7].0 == YamlV::Text("nameserver"@));
        assert(m[8].0 == YamlV::Text("proxy-server-nameserver"@));
        assert("default-nameserver"@.len() != "fake-ip-range"@.len());
        assert("nameserver"@.len() != "fake-ip-range"@.len());
        assert("proxy-server-nameserver"@.len() != "fake-ip-range"@.len());
        assert("enhanced-mode"@[0] != "fake-ip-range"@[0]);
        assert(m[5].0 != fr);
        assert(m[6].0 != fr);
        assert(m[7].0 != fr);
        assert(m[8].0 != fr);
        assert forall|j: int| 0 <= j < m.len() implies (#[trigger] m[j]).0 != fr by {}
    }
}

/// The `dns` section of a generated config: with fake-ip DNS switched on its
/// `enhanced-mode` is `fake-ip` and it hands out addresses from
/// `198.18.0.1/16`; switched off, `enhanced-mode` is `redir-host` and there is
/// no fake-ip range.
pub proof fn law_dns_mode(cfg: AppConfig, proxies: Seq<YamlV>)
    ensures
        get_key(config_doc(cfg, proxies), "dns"@) is Some,
        ({
            let dns = get_key(config_doc(cfg, proxies), "dns"@)->0;
            &&& cfg.core.fake_ip ==> get_key(dns, "enhanced-mode"@) == Some(text("fake-ip"@))
            &&& cfg.core.fake_ip ==> get_key(dns, "fake-ip-range"@) == Some(text("198.18.0.1/16"@))
            &&& !cfg.core.fake_ip ==> get_key(dns, "enhanced-mode"@) == Some(text("redir-host"@))
            &&& !cfg.core.fake_ip ==> get_key(dns, "fake-ip-range"@) is None
        }),
{
    lemma_config_dns(cfg, proxies);
    lemma_dns_doc_mode(cfg.core);
}

/// Allowing LAN access opens the mixed port to the network and nothing else:
/// two settings that differ only in `allow-lan` give documents that differ
/// only in the `allow-lan` entry, so the controller, DNS listener, TUN and
/// rules stay as they were.
pub proof fn law_allow_lan_changes_one_entry(cfg: AppConfig, allow: bool, proxies: Seq<YamlV>)
    ensures
        ({
            let other = AppConfig { core: CoreSettings { allow_lan: allow, ..cfg.core }, ..cfg };
            let m = config_doc(cfg, proxies)->Mapping_0;
            &&& m[1] == entry("allow-lan"@, YamlV::Bool(cfg.core.allow_lan))
            &&& config_doc(other, proxies)->Mapping_0 == m.update(
                1,
                entry("allow-lan"@, YamlV::Bool(allow)),
            )
        }),
{
    let other = AppConfig { core: CoreSettings { allow_lan: allow, ..cfg.core }, ..cfg };
    let m = config_doc(cfg, proxies)->Mapping_0;
    assert(config_doc(other, proxies)->Mapping_0 =~= m.update(
        1,
        entry("allow-lan"@, YamlV::Bool(allow)),
    ));
}

/// Two subscriptions whose nodes carry the same names give documents that
/// differ only in the `proxies` entry: groups, rules, DNS and TUN never come
/// from the subscription.
pub proof fn law_nodes_change_only_proxies(cfg: AppConfig, a: Seq<YamlV>, b: Seq<YamlV>)
    requires
        node_names(a) == node_names(b),
    ensures
        ({
            let i: int = if cfg.core.tun_enabled {
                14
            } else {
                13
            };
            let m = config_doc(cfg, a)->Mapping_0;
            &&& m[i] == entry("proxies"@, YamlV::Sequence(a))
            &&& config_doc(cfg, b)->Mapping_0 == m.update(i, entry("proxies"@, YamlV::Sequence(b)))
        }),
{
    let i: int = if cfg.core.tun_enabled {
        14
    } else {
        13
    };
    let m = config_doc(cfg, a)->Mapping_0;
    assert(config_doc(cfg, b)->Mapping_0 =~= m.update(i, entry("proxies"@, YamlV::Sequence(b))));
}

/// Only the nodes come from the provider, and the listeners stay local: the
/// generated document's `proxies` are the subscription's nodes as given, the
/// DNS listener is on `127.0.0.1:1053`, and with TUN on the core never
/// writes firewall rules of its own (`auto-redirect` is off).
pub proof fn law_generated_document(cfg: AppConfig, proxies: Seq<YamlV>)
    ensures
        get_key(config_doc(cfg, proxies), "proxies"@) == Some(YamlV::Sequence(proxies)),
        get_key(get_key(config_doc(cfg, proxies), "dns"@)->0, "listen"@) == Some(
            text("127.0.0.1:1053"@),
        ),
        cfg.core.tun_enabled ==> get_key(get_key(config_doc(cfg, proxies), "tun"@)->0, "auto-redirect"@)
            == Some(YamlV::Bool(false)),
{
    reveal_strlit("mixed-port");
    reveal_strlit("allow-lan");
    reveal_strlit("bind-address");
    reveal_strlit("mode");
    reveal_strlit("log-level");
    reveal_strlit("ipv6");
    reveal_strlit("unified-delay");
    reveal_strlit("tcp-concurrent");
    reveal_strlit("external-controller");
    reveal_strlit("secret");
    reveal_strlit("find-process-mode");
    reveal_strlit("profile");
    reveal_strlit("tun");
    reveal_strlit("dns");
    reveal_strlit("proxies");
    reveal_strlit("enable");
    reveal_strlit("listen");
    reveal_strlit("stack");
    reveal_strlit("device");
    reveal_strlit("auto-route");
    reveal_strlit("auto-redirect");
    assert("profile"@[3] != "proxies"@[3]);
    assert("dns"@[0] != "tun"@[0]);
    assert("enable"@[0] != "listen"@[0]);
    assert("tcp-concurrent"@.len() != "tun"@.len());
    let doc = config_doc(cfg, proxies);
    let m = doc->Mapping_0;
    let t: int = if cfg.core.tun_enabled {
        1
    } else {
        0
    };
    assert(m[12 + t] == entry("dns"@, dns_doc(cfg.core)));
    assert(m[13 + t] == entry("proxies"@, YamlV::Sequence(proxies)));
    assert forall|j: int| 0 <= j < 12 + t implies (#[trigger] m[j]).0 != YamlV::Text("dns"@) by {
        if j == 0 {
            assert(m[0].0 != YamlV::Text("dns"@));
        } else if j == 1 {
            assert(m[1].0 != YamlV::Text("dns"@));
        } else if j == 2 {
            assert(m[2].0 != YamlV::Text("dns"@));
        } else if j == 3 {
            assert(m[3].0 != YamlV::Text("dns"@));
        } else if j == 4 {
            assert(m[4].0 != YamlV::Text("dns"@));
        } else if j == 5 {
            assert(m[5].0 != YamlV::Text("dns"@));
        } else if j == 6 {
            assert(m[6].0 != YamlV::Text("dns"@));
        } else if j == 7 {
            assert(m[7].0 != YamlV::Text("dns"@));
        } else if j == 8 {
            assert(m[8].0 != YamlV::Text("dns"@));
        } else if j == 9 {
            assert(m[9].0 != YamlV::Text("dns"@));
        } else if j == 10 {
            assert(m[10].0 != YamlV::Text("dns"@));
        } else if j == 11 {
            assert(m[11].0 != YamlV::Text("dns"@));
        }
    }
    lemma_entry_for_first(m, "dns"@, 12 + t);
    assert forall|j: int| 0 <= j < 13 + t implies (#[trigger] m[j]).0 != YamlV::Text("proxies"@) by {
        if j == 0 {
            assert(m[0].0 != YamlV::Text("proxies"@));
        } else if j == 1 {
            assert(m[1].0 != YamlV::Text("proxies"@));
        } else if j == 2 {
            assert(m[2].0 != YamlV::Text("proxies"@));
        } else if j == 3 {
            assert(m[3].0 != YamlV::Text("proxies"@));
        } else if j == 4 {
            assert(m[4].0 != YamlV::Text("proxies"@));
        } else if j == 5 {
            assert(m[5].0 != YamlV::Text("proxies"@));
        } else if j == 6 {
            assert(m[6].0 != YamlV::Text("proxies"@));
        } else if j == 7 {
            assert(m[7].0 != YamlV::Text("proxies"@));
        } else if j == 8 {
            assert(m[8].0 != YamlV::Text("proxies"@));
        } else if j == 9 {
            assert(m[9].0 != YamlV::Text("proxies"@));
        } else if j == 10 {
            assert(m[10].0 != YamlV::Text("proxies"@));
        } else if j == 11 {
            assert(m[11].0 != YamlV::Text("proxies"@));
        }
    }
    lemma_entry_for_first(m, "proxies"@, 13 + t);
    let dm = dns_doc(cfg.core)->Mapping_0;
    assert(dm[2] == entry("listen"@, text("127.0.0.1:1053"@)));
    assert(dm[0].0 != YamlV::Text("listen"@));
    assert(dm[1].0 != YamlV::Text("listen"@));
    lemma_entry_for_first(dm, "listen"@, 2);
    if cfg.core.tun_enabled {
        assert(m[12] == entry("tun"@, tun_doc(cfg.core)));
        assert forall|j: int| 0 <= j < 12 implies (#[trigger] m[j]).0 != YamlV::Text("tun"@) by {
            if j == 0 {
                assert(m[0].0 != YamlV::Text("tun"@));
            } else if j == 1 {
                assert(m[1].0 != YamlV::Text("tun"@));
            } else if j == 2 {
                assert(m[2].0 != YamlV::Text("tun"@));
            } else if j == 3 {
                assert(m[3].0 != YamlV::Text("tun"@));
            } else if j == 4 {
                assert(m[4].0 != YamlV::Text("tun"@));
            } else if j == 5 {
                assert(m[5].0 != YamlV::Text("tun"@));
            } else if j == 6 {
                assert(m[6].0 != YamlV::Text("tun"@));
            } else if j == 7 {
                assert(m[7].0 != YamlV::Text("tun"@));
            } else if j == 8 {
                assert(m[8].0 != YamlV::Text("tun"@));
            } else if j == 9 {
                assert(m[9].0 != YamlV::Text("tun"@));
            } else if j == 10 {
                assert(m[10].0 != YamlV::Text("tun"@));
            } else if j == 11 {
                assert(m[11].0 != YamlV::Text("tun"@));
            }
        }
        lemma_entry_for_first(m, "tun"@, 12);
        let tm = tun_doc(cfg.core)->Mapping_0;
        assert(tm[0].0 != YamlV::Text("auto-redirect"@));
        assert(tm[1] == entry("stack"@, text(cfg.core.tun_stack@)));
        assert("stack"@.len() != "auto-redirect"@.len());
        assert(tm[1].0 != YamlV::Text("auto-redirect"@));
        assert(tm[2] == entry("device"@, text("mihomo-tun"@)));
        assert("device"@.len() != "auto-redirect"@.len());
        assert(tm[2].0 != YamlV::Text("auto-redirect"@));
        assert(tm[3].0 != YamlV::Text("auto-redirect"@));
        assert(tm[4] == entry("auto-redirect"@, YamlV::Bool(false)));
        lemma_entry_for_first(tm, "auto-redirect"@, 4);
    }
}

} // verus!
