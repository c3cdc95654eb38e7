//! Application settings: the core, the device identity sent to panels, the
//! subscriptions and the routing the user controls. Loading and saving the
//! JSON files is done by the caller; `json.rs` holds the layering rules.

use vstd::prelude::*;
use vstd::string::StringExecFns;

use crate::headers::Headers;
use crate::text::{blank, decimal, is_blank, push_decimal, trim, trimmed};

verus! {

/// The User-Agent sent when none is configured.
pub open spec fn default_user_agent() -> Seq<char> {
    "MihomoManifold/0.1.0 clash-meta"@
}

pub fn default_user_agent_string() -> (s: String)
    ensures
        s@ == default_user_agent(),
{
    String::from_str("MihomoManifold/0.1.0 clash-meta")
}

// ---------------------------------------------------------------- uuids

/// Whether `c` is one of `0-9a-f`.
pub open spec fn is_lower_hex(c: char) -> bool {
    ('0' as u32 <= c as u32 <= '9' as u32) || ('a' as u32 <= c as u32 <= 'f' as u32)
}

/// The hyphenated form `8-4-4-4-12` of a UUID, in lowercase hex.
pub open spec fn is_hyphenated_uuid(s: Seq<char>) -> bool {
    &&& s.len() == 36
    &&& forall|i: int|
        0 <= i < 36 ==> (if i == 8 || i == 13 || i == 18 || i == 23 {
            s[i] == '-'
        } else {
            is_lower_hex(#[trigger] s[i])
        })
}

/// A fresh random UUID in simple form: `Uuid::new_v4().simple().to_string()`.
/// Only its shape is claimed: 32 lowercase hex digits.
#[verifier::external_body]
pub fn random_simple_uuid() -> (s: String)
    ensures
        s@.len() == 32,
        forall|i: int| 0 <= i < 32 ==> is_lower_hex(#[trigger] s@[i]),
{
    uuid::Uuid::new_v4().simple().to_string()
}

/// A fresh random UUID in hyphenated form: `Uuid::new_v4().to_string()`.
/// Only its shape is claimed.
#[verifier::external_body]
pub fn random_hyphenated_uuid() -> (s: String)
    ensures
        is_hyphenated_uuid(s@),
{
    uuid::Uuid::new_v4().to_string()
}

// ---------------------------------------------------------------- core

pub struct CoreSettings {
    /// Explicit path to the mihomo binary. Empty means: use MIHOMO_MANIFOLD_CORE,
    /// then fall back to `mihomo` on PATH.
    pub binary: String,
    pub controller_host: String,
    pub controller_port: u16,
    pub secret: String,
    pub mixed_port: u16,
    pub allow_lan: bool,
    pub ipv6: bool,
    pub log_level: String,
    pub tun_enabled: bool,
    pub tun_stack: String,
    pub fake_ip: bool,
    /// Keep LAN and loopback traffic off the tunnel.
    pub bypass_private: bool,
    /// Start the core as soon as the GUI opens.
    pub autostart_core: bool,
}

impl Clone for CoreSettings {
    fn clone(&self) -> (r: Self)
        ensures
            r == *self,
    {
        CoreSettings {
            binary: self.binary.clone(),
            controller_host: self.controller_host.clone(),
            controller_port: self.controller_port,
            secret: self.secret.clone(),
            mixed_port: self.mixed_port,
            allow_lan: self.allow_lan,
            ipv6: self.ipv6,
            log_level: self.log_level.clone(),
            tun_enabled: self.tun_enabled,
            tun_stack: self.tun_stack.clone(),
            fake_ip: self.fake_ip,
            bypass_private: self.bypass_private,
            autostart_core: self.autostart_core,
        }
    }
}

/// The core settings of a fresh install. The controller secret is new
/// random hex each time, so only its shape is fixed.
pub open spec fn default_core(c: CoreSettings) -> bool {
    &&& c.binary@ == Seq::<char>::empty()
    &&& c.controller_host@ == "127.0.0.1"@
    &&& c.controller_port == 9097
    &&& c.secret@.len() == 32
    &&& forall|i: int| 0 <= i < 32 ==> is_lower_hex(#[trigger] c.secret@[i])
    &&& c.mixed_port == 7890
    &&& !c.allow_lan
    &&& !c.ipv6
    &&& c.log_level@ == "info"@
    &&& c.tun_enabled
    &&& c.tun_stack@ == "gvisor"@
    &&& c.fake_ip
    &&& c.bypass_private
    &&& !c.autostart_core
}

impl Default for CoreSettings {
    fn default() -> (r: Self)
        ensures
            default_core(r),
    {
        CoreSettings {
            binary: String::new(),
            controller_host: String::from_str("127.0.0.1"),
            controller_port: 9097,
            secret: random_simple_uuid(),
            mixed_port: 7890,
            allow_lan: false,
            ipv6: false,
            log_level: String::from_str("info"),
            tun_enabled: true,
            tun_stack: String::from_str("gvisor"),
            fake_ip: true,
            bypass_private: true,
            autostart_core: false,
        }
    }
}

/// `host:port`.
pub open spec fn controller_addr_of(host: Seq<char>, port: u16) -> Seq<char> {
    host + ":"@ + decimal(port as nat)
}

/// Where the NixOS module installs the capability wrapper for the core.
pub open spec fn nixos_wrapper() -> Seq<char> {
    "/run/wrappers/bin/mihomo"@
}

pub fn nixos_wrapper_string() -> (s: String)
    ensures
        s@ == nixos_wrapper(),
{
    String::from_str("/run/wrappers/bin/mihomo")
}

/// Which binary runs the core: the explicit setting, then the
/// `MIHOMO_MANIFOLD_CORE` variable, then the NixOS wrapper when TUN is on and
/// it exists, then `mihomo` on PATH.
pub open spec fn resolved_binary(
    binary: Seq<char>,
    env_core: Option<Seq<char>>,
    tun_enabled: bool,
    wrapper_exists: bool,
) -> Seq<char> {
    if !blank(binary) {
        trimmed(binary)
    } else if env_core is Some && env_core->0.len() > 0 {
        env_core->0
    } else if tun_enabled && wrapper_exists {
        nixos_wrapper()
    } else {
        "mihomo"@
    }
}

impl CoreSettings {
    pub fn controller_addr(&self) -> (r: String)
        ensures
            r@ == controller_addr_of(self.controller_host@, self.controller_port),
    {
        let mut out = self.controller_host.clone();
        out.append(":");
        push_decimal(&mut out, self.controller_port as u64);
        out
    }

    pub fn controller_url(&self) -> (r: String)
        ensures
            r@ == "http://"@ + controller_addr_of(self.controller_host@, self.controller_port),
    {
        let mut out = String::from_str("http://");
        let addr = self.controller_addr();
        out.append(addr.as_str());
        out
    }

    /// Resolve the core binary. `env_core` is the value of
    /// `MIHOMO_MANIFOLD_CORE`, `wrapper_exists` whether the NixOS wrapper is
    /// present on disk; the caller reads both.
    pub fn resolve_binary(&self, env_core: Option<String>, wrapper_exists: bool) -> (r: String)
        ensures
            r@ == resolved_binary(
                self.binary@,
                match env_core {
                    Some(e) => Some(e@),
                    None => None,
                },
                self.tun_enabled,
                wrapper_exists,
            ),
    {
        if !is_blank(self.binary.as_str()) {
            return trim(self.binary.as_str());
        }
        match env_core {
            Some(env) => {
                if env.as_str().unicode_len() > 0 {
                    return env;
                }
            },
            None => {},
        }
        if self.tun_enabled && wrapper_exists {
            return nixos_wrapper_string();
        }
        String::from_str("mihomo")
    }
}

// ---------------------------------------------------------------- hwid
#[derive(Clone, Copy, PartialEq, Eq, Structural, Debug)]
pub enum HwidMode {
    /// UUIDv5 over /etc/machine-id.
    Auto,
    /// Value typed by the user, e.g. to reuse a slot from another machine.
    Manual,
}

pub struct HwidSettings {
    pub mode: HwidMode,
    pub manual: String,
    pub device_os: String,
    pub ver_os: String,
    pub device_model: String,
    pub user_agent: String,
}

impl Clone for HwidSettings {
    fn clone(&self) -> (r: Self)
        ensures
            r == *self,
    {
        HwidSettings {
            mode: self.mode,
            manual: self.manual.clone(),
            device_os: self.device_os.clone(),
            ver_os: self.ver_os.clone(),
            device_model: self.device_model.clone(),
            user_agent: self.user_agent.clone(),
        }
    }
}

/// The identity settings of a fresh install.
pub open spec fn default_hwid(h: HwidSettings) -> bool {
    &&& h.mode == HwidMode::Auto
    &&& h.manual@ == Seq::<char>::empty()
    &&& h.device_os@ == "Linux"@
    &&& h.ver_os@ == Seq::<char>::empty()
    &&& h.device_model@ == Seq::<char>::empty()
    &&& h.user_agent@ == default_user_agent()
}

impl Default for HwidSettings {
    fn default() -> (r: Self)
        ensures
            default_hwid(r),
    {
        HwidSettings {
            mode: HwidMode::Auto,
            manual: String::new(),
            device_os: String::from_str("Linux"),
            ver_os: String::new(),
            device_model: String::new(),
            user_agent: default_user_agent_string(),
        }
    }
}

/// The value sent as `x-hwid`: a manual value that is not blank, trimmed;
/// otherwise the identifier derived from the machine, or nothing.
pub open spec fn hwid_value(mode: HwidMode, manual: Seq<char>, derived: Option<Seq<char>>) -> Seq<
    char,
> {
    if mode == HwidMode::Manual && !blank(manual) {
        trimmed(manual)
    } else {
        match derived {
            Some(d) => d,
            None => Seq::empty(),
        }
    }
}

/// `configured` unless it is blank, then `fallback`.
pub open spec fn unless_blank(configured: Seq<char>, fallback: Seq<char>) -> Seq<char> {
    if blank(configured) {
        fallback
    } else {
        configured
    }
}

pub open spec fn opt_view(o: Option<String>) -> Option<Seq<char>> {
    match o {
        Some(s) => Some(s@),
        None => None,
    }
}

/// The header names a Remnawave panel reads, in the order they are sent.
pub open spec fn hwid_header_names() -> Seq<Seq<char>> {
    seq!["user-agent"@, "x-hwid"@, "x-device-os"@, "x-ver-os"@, "x-device-model"@]
}

impl HwidSettings {
    /// The value sent as `x-hwid`. `derived` is the machine-derived
    /// identifier (see `hwid::derive`), which the caller computes.
    pub fn value(&self, derived: &Option<String>) -> (r: String)
        ensures
            r@ == hwid_value(self.mode, self.manual@, opt_view(*derived)),
    {
        if self.mode == HwidMode::Manual && !is_blank(self.manual.as_str()) {
            return trim(self.manual.as_str());
        }
        match derived {
            Some(d) => d.clone(),
            None => String::new(),
        }
    }

    /// `ver_os`, or the detected OS version when it is blank.
    pub fn effective_ver_os(&self, detected: &String) -> (r: String)
        ensures
            r@ == unless_blank(self.ver_os@, detected@),
    {
        if is_blank(self.ver_os.as_str()) {
            detected.clone()
        } else {
            self.ver_os.clone()
        }
    }

    /// `device_model`, or the detected machine name when it is blank.
    pub fn effective_device_model(&self, detected: &String) -> (r: String)
        ensures
            r@ == unless_blank(self.device_model@, detected@),
    {
        if is_blank(self.device_model.as_str()) {
            detected.clone()
        } else {
            self.device_model.clone()
        }
    }

    pub fn effective_user_agent(&self) -> (r: String)
        ensures
            r@ == unless_blank(self.user_agent@, default_user_agent()),
    {
        if is_blank(self.user_agent.as_str()) {
            default_user_agent_string()
        } else {
            self.user_agent.clone()
        }
    }

    /// Headers a Remnawave panel expects, plus the UA that selects the format.
    pub fn headers(&self, machine: &MachineFacts) -> (r: Vec<(String, String)>)
        ensures
            r@.len() == 5,
            forall|i: int| 0 <= i < 5 ==> #[trigger] r@[i].0@ == hwid_header_names()[i],
            r@[0].1@ == unless_blank(self.user_agent@, default_user_agent()),
            r@[1].1@ == hwid_value(self.mode, self.manual@, opt_view(machine.derived_hwid)),
            r@[2].1@ == self.device_os@,
            r@[3].1@ == unless_blank(self.ver_os@, machine.os_version@),
            r@[4].1@ == unless_blank(self.device_model@, machine.device_model@),
    {
        let mut r: Vec<(String, String)> = Vec::new();
        r.push((String::from_str("user-agent"), self.effective_user_agent()));
        r.push((String::from_str("x-hwid"), self.value(&machine.derived_hwid)));
        r.push((String::from_str("x-device-os"), self.device_os.clone()));
        r.push((String::from_str("x-ver-os"), self.effective_ver_os(&machine.os_version)));
        r.push(
            (String::from_str("x-device-model"), self.effective_device_model(&machine.device_model)),
        );
        proof {
            assert forall|i: int| 0 <= i < 5 implies #[trigger] r@[i].0@
                == hwid_header_names()[i] by {}
        }
        r
    }
}

/// What the identity headers need to know about this machine, read once by
/// the caller (see `hwid.rs`).
pub struct MachineFacts {
    /// The identifier derived from the machine id, if one was found.
    pub derived_hwid: Option<String>,
    /// Best-effort OS version, e.g. `NixOS 24.11`.
    pub os_version: String,
    /// Best-effort host name.
    pub device_model: String,
}

// ---------------------------------------------------------------- subscriptions

/// Parsed `subscription-userinfo` response header.
#[derive(Clone, Copy, Debug, PartialEq, Eq, Structural)]
pub struct UserInfo {
    pub upload: u64,
    pub download: u64,
    pub total: u64,
    /// Unix seconds; 0 means no expiry reported.
    pub expire: i64,
}

impl Default for UserInfo {
    fn default() -> (r: Self)
        ensures
            r == (UserInfo { upload: 0, download: 0, total: 0, expire: 0 }),
    {
        UserInfo { upload: 0, download: 0, total: 0, expire: 0 }
    }
}

pub open spec fn sat_add(a: u64, b: u64) -> u64 {
    if a + b > u64::MAX {
        u64::MAX
    } else {
        (a + b) as u64
    }
}

pub open spec fn sat_sub(a: u64, b: u64) -> u64 {
    if a < b {
        0
    } else {
        (a - b) as u64
    }
}

impl UserInfo {
    /// Upload plus download, saturating at `u64::MAX`.
    pub fn used(&self) -> (r: u64)
        ensures
            r == sat_add(self.upload, self.download),
    {
        self.upload.saturating_add(self.download)
    }

    /// What is left of the quota, never below zero.
    pub fn remaining(&self) -> (r: u64)
        ensures
            r == sat_sub(self.total, sat_add(self.upload, self.download)),
    {
        self.total.saturating_sub(self.used())
    }
}

#[derive(Debug)]
pub struct Subscription {
    pub id: String,
    pub name: String,
    pub url: String,
    pub enabled: bool,
    pub send_hwid: bool,
    /// Extra request headers; `{hwid}` is substituted before sending.
    pub headers: Headers,
    pub auto_update_minutes: u64,
    pub last_updated: Option<i64>,
    pub last_error: Option<String>,
    pub user_info: Option<UserInfo>,
    pub node_count: usize,
}

impl Clone for Subscription {
    fn clone(&self) -> (r: Self)
        ensures
            r.id == self.id,
            r.name == self.name,
            r.url == self.url,
            r.enabled == self.enabled,
            r.send_hwid == self.send_hwid,
            r.headers@ == self.headers@,
            r.auto_update_minutes == self.auto_update_minutes,
            r.last_updated == self.last_updated,
            r.last_error == self.last_error,
            r.user_info == self.user_info,
            r.node_count == self.node_count,
    {
        Subscription {
            id: self.id.clone(),
            name: self.name.clone(),
            url: self.url.clone(),
            enabled: self.enabled,
            send_hwid: self.send_hwid,
            headers: self.headers.clone(),
            auto_update_minutes: self.auto_update_minutes,
            last_updated: self.last_updated,
            last_error: match &self.last_error {
                Some(e) => Some(e.clone()),
                None => None,
            },
            user_info: self.user_info,
            node_count: self.node_count,
        }
    }
}

impl Default for Subscription {
    fn default() -> (r: Self)
        ensures
            is_hyphenated_uuid(r.id@),
            r.name@ == "New subscription"@,
            r.url@ == Seq::<char>::empty(),
            r.enabled,
            r.send_hwid,
            r.headers@.len() == 0,
            r.auto_update_minutes == 360,
            r.last_updated is None,
            r.last_error is None,
            r.user_info is None,
            r.node_count == 0,
    {
        Subscription {
            id: random_hyphenated_uuid(),
            name: String::from_str("New subscription"),
            url: String::new(),
            enabled: true,
            send_hwid: true,
            headers: Headers::new(),
            auto_update_minutes: 360,
            last_updated: None,
            last_error: None,
            user_info: None,
            node_count: 0,
        }
    }
}

impl Subscription {
    /// `<profiles_dir>/<id>.yaml`, the cached raw profile.
    pub fn profile_path(&self, profiles_dir: &str) -> (r: String)
        ensures
            r@ == crate::paths::joined(profiles_dir@, self.id@ + ".yaml"@),
    {
        let mut file = self.id.clone();
        file.append(".yaml");
        crate::paths::join(profiles_dir, file.as_str())
    }
}

// ---------------------------------------------------------------- routing

#[derive(Debug)]
pub enum Target {
    Direct,
    Reject,
    /// Name of a generated proxy group.
    Group(String),
}

/// What a rule names as its target.
pub open spec fn rule_target(t: Target) -> Seq<char> {
    match t {
        Target::Direct => "DIRECT"@,
        Target::Reject => "REJECT"@,
        Target::Group(name) => name@,
    }
}

/// How the UI names a target.
pub open spec fn target_label(t: Target) -> Seq<char> {
    match t {
        Target::Direct => "Direct"@,
        Target::Reject => "Reject"@,
        Target::Group(name) => name@,
    }
}

impl Clone for Target {
    fn clone(&self) -> (r: Self)
        ensures
            r == *self,
    {
        match self {
            Target::Direct => Target::Direct,
            Target::Reject => Target::Reject,
            Target::Group(n) => Target::Group(n.clone()),
        }
    }
}

impl Target {
    pub fn as_rule_target(&self) -> (r: String)
        ensures
            r@ == rule_target(*self),
    {
        match self {
            Target::Direct => String::from_str("DIRECT"),
            Target::Reject => String::from_str("REJECT"),
            Target::Group(name) => name.clone(),
        }
    }

    pub fn label(&self) -> (r: String)
        ensures
            r@ == target_label(*self),
    {
        match self {
            Target::Direct => String::from_str("Direct"),
            Target::Reject => String::from_str("Reject"),
            Target::Group(name) => name.clone(),
        }
    }

    /// Whether two targets are the same: the comparison `Target`'s `==`
    /// makes.
    pub fn same_as(&self, other: &Target) -> (b: bool)
        ensures
            b == (match (*self, *other) {
                (Target::Direct, Target::Direct) => true,
                (Target::Reject, Target::Reject) => true,
                (Target::Group(a), Target::Group(b)) => a@ == b@,
                _ => false,
            }),
    {
        match (self, other) {
            (Target::Direct, Target::Direct) => true,
            (Target::Reject, Target::Reject) => true,
            (Target::Group(a), Target::Group(b)) => crate::text::str_eq(a.as_str(), b.as_str()),
            _ => false,
        }
    }
}

/// How an application is matched. `PROCESS-NAME` only works with TUN enabled.
#[derive(Clone, Copy, PartialEq, Eq, Structural, Debug)]
pub enum AppMatch {
    Name,
    Path,
}

pub struct AppRule {
    pub enabled: bool,
    pub match_by: AppMatch,
    /// Process name (`telegram-desktop`) or absolute path.
    pub value: String,
    pub target: Target,
    /// Free-form label shown in the UI, usually the .desktop app name.
    pub label: String,
}

impl Clone for AppRule {
    fn clone(&self) -> (r: Self)
        ensures
            r == *self,
    {
        AppRule {
            enabled: self.enabled,
            match_by: self.match_by,
            value: self.value.clone(),
            target: self.target.clone(),
            label: self.label.clone(),
        }
    }
}

impl Default for AppRule {
    fn default() -> (r: Self)
        ensures
            r.enabled,
            r.match_by == AppMatch::Name,
            r.value@ == Seq::<char>::empty(),
            r.target == Target::Direct,
            r.label@ == Seq::<char>::empty(),
    {
        AppRule {
            enabled: true,
            match_by: AppMatch::Name,
            value: String::new(),
            target: Target::Direct,
            label: String::new(),
        }
    }
}

pub open spec fn app_match_kind(m: AppMatch) -> Seq<char> {
    match m {
        AppMatch::Name => "PROCESS-NAME"@,
        AppMatch::Path => "PROCESS-PATH"@,
    }
}

/// `KIND,value,target` for an application rule.
pub open spec fn app_rule_text(r: AppRule) -> Seq<char> {
    app_match_kind(r.match_by) + ","@ + r.value@ + ","@ + rule_target(r.target)
}

impl AppRule {
    pub fn to_rule(&self) -> (r: String)
        ensures
            r@ == app_rule_text(*self),
    {
        let mut out = match self.match_by {
            AppMatch::Name => String::from_str("PROCESS-NAME"),
            AppMatch::Path => String::from_str("PROCESS-PATH"),
        };
        out.append(",");
        out.append(self.value.as_str());
        out.append(",");
        let t = self.target.as_rule_target();
        out.append(t.as_str());
        out
    }
}

#[derive(Clone, Copy, PartialEq, Eq, Structural, Debug)]
pub enum MatchKind {
    Domain,
    DomainSuffix,
    DomainKeyword,
    DomainRegex,
    IpCidr,
    Geoip,
    Geosite,
    DstPort,
}

pub open spec fn rule_kind(k: MatchKind) -> Seq<char> {
    match k {
        MatchKind::Domain => "DOMAIN"@,
        MatchKind::DomainSuffix => "DOMAIN-SUFFIX"@,
        MatchKind::DomainKeyword => "DOMAIN-KEYWORD"@,
        MatchKind::DomainRegex => "DOMAIN-REGEX"@,
        MatchKind::IpCidr => "IP-CIDR"@,
        MatchKind::Geoip => "GEOIP"@,
        MatchKind::Geosite => "GEOSITE"@,
        MatchKind::DstPort => "DST-PORT"@,
    }
}

pub open spec fn ip_based(k: MatchKind) -> bool {
    k == MatchKind::IpCidr || k == MatchKind::Geoip
}

/// Every match kind, in menu order.
pub open spec fn all_match_kinds() -> Seq<MatchKind> {
    seq![
        MatchKind::Domain,
        MatchKind::DomainSuffix,
        MatchKind::DomainKeyword,
        MatchKind::DomainRegex,
        MatchKind::IpCidr,
        MatchKind::Geoip,
        MatchKind::Geosite,
        MatchKind::DstPort,
    ]
}

impl MatchKind {
    pub fn as_rule_kind(&self) -> (r: &'static str)
        ensures
            r@ == rule_kind(*self),
    {
        match self {
            MatchKind::Domain => "DOMAIN",
            MatchKind::DomainSuffix => "DOMAIN-SUFFIX",
            MatchKind::DomainKeyword => "DOMAIN-KEYWORD",
            MatchKind::DomainRegex => "DOMAIN-REGEX",
            MatchKind::IpCidr => "IP-CIDR",
            MatchKind::Geoip => "GEOIP",
            MatchKind::Geosite => "GEOSITE",
            MatchKind::DstPort => "DST-PORT",
        }
    }

    /// Matchers that look at the destination address rather than its name.
    pub fn is_ip_based(&self) -> (b: bool)
        ensures
            b == ip_based(*self),
    {
        match self {
            MatchKind::IpCidr | MatchKind::Geoip => true,
            _ => false,
        }
    }

    /// Every match kind, in menu order (`MatchKind::ALL`).
    pub fn all() -> (r: [MatchKind; 8])
        ensures
            r@ == all_match_kinds(),
    {
        let r = [
            MatchKind::Domain,
            MatchKind::DomainSuffix,
            MatchKind::DomainKeyword,
            MatchKind::DomainRegex,
            MatchKind::IpCidr,
            MatchKind::Geoip,
            MatchKind::Geosite,
            MatchKind::DstPort,
        ];
        assert(r@ =~= all_match_kinds());
        r
    }
}

pub struct DomainRule {
    pub enabled: bool,
    pub kind: MatchKind,
    pub value: String,
    pub target: Target,
}

impl Clone for DomainRule {
    fn clone(&self) -> (r: Self)
        ensures
            r == *self,
    {
        DomainRule {
            enabled: self.enabled,
            kind: self.kind,
            value: self.value.clone(),
            target: self.target.clone(),
        }
    }
}

impl Default for DomainRule {
    fn default() -> (r: Self)
        ensures
            r.enabled,
            r.kind == MatchKind::DomainSuffix,
            r.value@ == Seq::<char>::empty(),
            r.target == Target::Direct,
    {
        DomainRule {
            enabled: true,
            kind: MatchKind::DomainSuffix,
            value: String::new(),
            target: Target::Direct,
        }
    }
}

/// `KIND,value,target`, with `,no-resolve` for an address matcher unless
/// fake-ip DNS is on: under fake-ip the rule must be allowed to resolve the
/// destination or it never matches a domain.
pub open spec fn domain_rule_text(r: DomainRule, fake_ip: bool) -> Seq<char> {
    let base = rule_kind(r.kind) + ","@ + r.value@ + ","@ + rule_target(r.target);
    if ip_based(r.kind) && !fake_ip {
        base + ",no-resolve"@
    } else {
        base
    }
}

impl DomainRule {
    /// `fake_ip` decides whether an address matcher may resolve the destination.
    pub fn to_rule(&self, fake_ip: bool) -> (r: String)
        ensures
            r@ == domain_rule_text(*self, fake_ip),
    {
        let mut out = String::from_str(self.kind.as_rule_kind());
        out.append(",");
        out.append(self.value.as_str());
        out.append(",");
        let t = self.target.as_rule_target();
        out.append(t.as_str());
        if self.kind.is_ip_based() && !fake_ip {
            out.append(",no-resolve");
        }
        out
    }
}

/// A remote rule list (antifilter, geosite mirrors, …) pulled by the core itself.
pub struct RuleProvider {
    pub enabled: bool,
    pub name: String,
    pub url: String,
    /// `domain`, `ipcidr` or `classical`.
    pub behavior: String,
    /// `yaml`, `text` or `mrs`.
    pub format: String,
    pub interval: u64,
    pub target: Target,
}

impl Clone for RuleProvider {
    fn clone(&self) -> (r: Self)
        ensures
            r == *self,
    {
        RuleProvider {
            enabled: self.enabled,
            name: self.name.clone(),
            url: self.url.clone(),
            behavior: self.behavior.clone(),
            format: self.format.clone(),
            interval: self.interval,
            target: self.target.clone(),
        }
    }
}

impl Default for RuleProvider {
    fn default() -> (r: Self)
        ensures
            r.enabled,
            r.name@ == Seq::<char>::empty(),
            r.url@ == Seq::<char>::empty(),
            r.behavior@ == "domain"@,
            r.format@ == "yaml"@,
            r.interval == 86400,
            r.target == Target::Direct,
    {
        RuleProvider {
            enabled: true,
            name: String::new(),
            url: String::new(),
            behavior: String::from_str("domain"),
            format: String::from_str("yaml"),
            interval: 86400,
            target: Target::Direct,
        }
    }
}

#[derive(Clone, Copy, PartialEq, Eq, Structural, Debug)]
pub enum GroupKind {
    Select,
    UrlTest,
    Fallback,
    LoadBalance,
}

pub open spec fn group_kind_yaml(k: GroupKind) -> Seq<char> {
    match k {
        GroupKind::Select => "select"@,
        GroupKind::UrlTest => "url-test"@,
        GroupKind::Fallback => "fallback"@,
        GroupKind::LoadBalance => "load-balance"@,
    }
}

impl GroupKind {
    pub fn as_yaml(&self) -> (r: &'static str)
        ensures
            r@ == group_kind_yaml(*self),
    {
        match self {
            GroupKind::Select => "select",
            GroupKind::UrlTest => "url-test",
            GroupKind::Fallback => "fallback",
            GroupKind::LoadBalance => "load-balance",
        }
    }
}

/// A proxy group we generate. Nodes come from the subscription, everything
/// around them is ours.
pub struct GroupSpec {
    pub name: String,
    pub kind: GroupKind,
    /// Regex over node names; empty means every node.
    pub filter: String,
    /// Put the other groups, DIRECT and REJECT ahead of the nodes as
    /// selectable entries.
    pub include_specials: bool,
    pub test_url: String,
    pub interval: u64,
}

impl Clone for GroupSpec {
    fn clone(&self) -> (r: Self)
        ensures
            r == *self,
    {
        GroupSpec {
            name: self.name.clone(),
            kind: self.kind,
            filter: self.filter.clone(),
            include_specials: self.include_specials,
            test_url: self.test_url.clone(),
            interval: self.interval,
        }
    }
}

impl Default for GroupSpec {
    fn default() -> (r: Self)
        ensures
            r.name@ == "PROXY"@,
            r.kind == GroupKind::Select,
            r.filter@ == Seq::<char>::empty(),
            r.include_specials,
            r.test_url@ == "https://cp.cloudflare.com/generate_204"@,
            r.interval == 300,
    {
        GroupSpec {
            name: String::from_str("PROXY"),
            kind: GroupKind::Select,
            filter: String::new(),
            include_specials: true,
            test_url: String::from_str("https://cp.cloudflare.com/generate_204"),
            interval: 300,
        }
    }
}

pub struct RoutingSettings {
    /// What the final MATCH rule does.
    pub default_target: Target,
    pub groups: Vec<GroupSpec>,
    pub app_rules: Vec<AppRule>,
    pub domain_rules: Vec<DomainRule>,
    pub rule_providers: Vec<RuleProvider>,
    /// Verbatim rules inserted before everything we generate.
    pub raw_prepend: Vec<String>,
    /// Verbatim rules inserted just before the final MATCH.
    pub raw_append: Vec<String>,
}

pub fn clone_strings(v: &Vec<String>) -> (r: Vec<String>)
    ensures
        r@ == v@,
{
    let mut r: Vec<String> = Vec::new();
    let mut i: usize = 0;
    while i < v.len()
        invariant
            i <= v@.len(),
            r@ == v@.take(i as int),
        decreases v@.len() - i,
    {
        r.push(v[i].clone());
        assert(v@.take(i + 1) =~= v@.take(i as int).push(v@[i as int]));
        i = i + 1;
    }
    assert(v@.take(v@.len() as int) =~= v@);
    r
}

impl Clone for RoutingSettings {
    fn clone(&self) -> (r: Self)
        ensures
            r.default_target == self.default_target,
            r.groups@ == self.groups@,
            r.app_rules@ == self.app_rules@,
            r.domain_rules@ == self.domain_rules@,
            r.rule_providers@ == self.rule_providers@,
            r.raw_prepend@ == self.raw_prepend@,
            r.raw_append@ == self.raw_append@,
    {
        let mut groups: Vec<GroupSpec> = Vec::new();
        for i in 0..self.groups.len()
            invariant
                groups@ == self.groups@.take(i as int),
        {
            groups.push(self.groups[i].clone());
            assert(self.groups@.take(i + 1) =~= self.groups@.take(i as int).push(self.groups@[i as int]));
        }
        let mut app_rules: Vec<AppRule> = Vec::new();
        for i in 0..self.app_rules.len()
            invariant
                app_rules@ == self.app_rules@.take(i as int),
        {
            app_rules.push(self.app_rules[i].clone());
            assert(self.app_rules@.take(i + 1) =~= self.app_rules@.take(i as int).push(
                self.app_rules@[i as int],
            ));
        }
        let mut domain_rules: Vec<DomainRule> = Vec::new();
        for i in 0..self.domain_rules.len()
            invariant
                domain_rules@ == self.domain_rules@.take(i as int),
        {
            domain_rules.push(self.domain_rules[i].clone());
            assert(self.domain_rules@.take(i + 1) =~= self.domain_rules@.take(i as int).push(
                self.domain_rules@[i as int],
            ));
        }
        let mut rule_providers: Vec<RuleProvider> = Vec::new();
        for i in 0..self.rule_providers.len()
            invariant
                rule_providers@ == self.rule_providers@.take(i as int),
        {
            rule_providers.push(self.rule_providers[i].clone());
            assert(self.rule_providers@.take(i + 1) =~= self.rule_providers@.take(i as int).push(
                self.rule_providers@[i as int],
            ));
        }
        assert(groups@ =~= self.groups@.take(self.groups@.len() as int));
        assert(self.groups@.take(self.groups@.len() as int) =~= self.groups@);
        assert(self.app_rules@.take(self.app_rules@.len() as int) =~= self.app_rules@);
        assert(self.domain_rules@.take(self.domain_rules@.len() as int) =~= self.domain_rules@);
        assert(self.rule_providers@.take(self.rule_providers@.len() as int)
            =~= self.rule_providers@);
        RoutingSettings {
            default_target: self.default_target.clone(),
            groups,
            app_rules,
            domain_rules,
            rule_providers,
            raw_prepend: clone_strings(&self.raw_prepend),
            raw_append: clone_strings(&self.raw_append),
        }
    }
}

/// The routing of a fresh install: everything through PROXY, a manual
/// PROXY group with the specials and an automatic AUTO group, and no rules.
pub open spec fn default_routing(r: RoutingSettings) -> bool {
    &&& r.default_target matches Target::Group(n) && n@ == "PROXY"@
    &&& r.groups@.len() == 2
    &&& r.groups@[0].name@ == "PROXY"@
    &&& r.groups@[0].kind == GroupKind::Select
    &&& r.groups@[0].filter@ == Seq::<char>::empty()
    &&& r.groups@[0].include_specials
    &&& r.groups@[0].test_url@ == "https://cp.cloudflare.com/generate_204"@
    &&& r.groups@[0].interval == 300
    &&& r.groups@[1].name@ == "AUTO"@
    &&& r.groups@[1].kind == GroupKind::UrlTest
    &&& r.groups@[1].filter@ == Seq::<char>::empty()
    &&& !r.groups@[1].include_specials
    &&& r.groups@[1].test_url@ == "https://cp.cloudflare.com/generate_204"@
    &&& r.groups@[1].interval == 300
    &&& r.app_rules@.len() == 0
    &&& r.domain_rules@.len() == 0
    &&& r.rule_providers@.len() == 0
    &&& r.raw_prepend@.len() == 0
    &&& r.raw_append@.len() == 0
}

impl Default for RoutingSettings {
    fn default() -> (r: Self)
        ensures
            default_routing(r),
    {
        let mut groups: Vec<GroupSpec> = Vec::new();
        groups.push(GroupSpec::default());
        let auto = GroupSpec {
            name: String::from_str("AUTO"),
            kind: GroupKind::UrlTest,
            include_specials: false,
            ..GroupSpec::default()
        };
        groups.push(auto);
        RoutingSettings {
            default_target: Target::Group(String::from_str("PROXY")),
            groups,
            app_rules: Vec::new(),
            domain_rules: Vec::new(),
            rule_providers: Vec::new(),
            raw_prepend: Vec::new(),
            raw_append: Vec::new(),
        }
    }
}

/// Whether an application rule takes part in the generated rules.
pub open spec fn app_rule_live(r: AppRule) -> bool {
    r.enabled && !blank(r.value@)
}

impl RoutingSettings {
    pub fn group_names(&self) -> (r: Vec<String>)
        ensures
            r@.len() == self.groups@.len(),
            forall|i: int| 0 <= i < r@.len() ==> #[trigger] r@[i] == self.groups@[i].name,
    {
        let mut r: Vec<String> = Vec::new();
        for i in 0..self.groups.len()
            invariant
                r@.len() == i,
                forall|k: int| 0 <= k < i ==> #[trigger] r@[k] == self.groups@[k].name,
        {
            r.push(self.groups[i].name.clone());
        }
        r
    }

    /// Every target the UI can offer, in menu order: DIRECT, REJECT, then
    /// each generated group.
    pub fn available_targets(&self) -> (r: Vec<Target>)
        ensures
            r@.len() == self.groups@.len() + 2,
            r@[0] == Target::Direct,
            r@[1] == Target::Reject,
            forall|i: int|
                0 <= i < self.groups@.len() ==> #[trigger] r@[i + 2] == Target::Group(
                    self.groups@[i].name,
                ),
    {
        let mut r: Vec<Target> = Vec::new();
        r.push(Target::Direct);
        r.push(Target::Reject);
        for i in 0..self.groups.len()
            invariant
                r@.len() == i + 2,
                r@[0] == Target::Direct,
                r@[1] == Target::Reject,
                forall|k: int|
                    0 <= k < i ==> #[trigger] r@[k + 2] == Target::Group(self.groups@[k].name),
        {
            r.push(Target::Group(self.groups[i].name.clone()));
        }
        r
    }

    /// Whether any enabled application rule names a process.
    pub fn uses_process_rules(&self) -> (b: bool)
        ensures
            b == (exists|i: int|
                0 <= i < self.app_rules@.len() && app_rule_live(#[trigger] self.app_rules@[i])),
    {
        for i in 0..self.app_rules.len()
            invariant
                forall|k: int| 0 <= k < i ==> !app_rule_live(#[trigger] self.app_rules@[k]),
        {
            let r = &self.app_rules[i];
            if r.enabled && !is_blank(r.value.as_str()) {
                assert(app_rule_live(self.app_rules@[i as int]));
                return true;
            }
        }
        false
    }
}

// ---------------------------------------------------------------- the whole config

pub struct AppConfig {
    pub core: CoreSettings,
    pub hwid: HwidSettings,
    pub subscriptions: Vec<Subscription>,
    pub active_subscription: Option<String>,
    pub routing: RoutingSettings,
}

/// Two subscriptions hold the same settings and state.
pub open spec fn same_subscription(a: Subscription, b: Subscription) -> bool {
    &&& a.id == b.id
    &&& a.name == b.name
    &&& a.url == b.url
    &&& a.enabled == b.enabled
    &&& a.send_hwid == b.send_hwid
    &&& a.headers@ == b.headers@
    &&& a.auto_update_minutes == b.auto_update_minutes
    &&& a.last_updated == b.last_updated
    &&& a.last_error == b.last_error
    &&& a.user_info == b.user_info
    &&& a.node_count == b.node_count
}

impl Clone for AppConfig {
    fn clone(&self) -> (r: Self)
        ensures
            r.core == self.core,
            r.hwid == self.hwid,
            r.routing.default_target == self.routing.default_target,
            r.routing.groups@ == self.routing.groups@,
            r.routing.app_rules@ == self.routing.app_rules@,
            r.routing.domain_rules@ == self.routing.domain_rules@,
            r.routing.rule_providers@ == self.routing.rule_providers@,
            r.routing.raw_prepend@ == self.routing.raw_prepend@,
            r.routing.raw_append@ == self.routing.raw_append@,
            r.subscriptions@.len() == self.subscriptions@.len(),
            forall|i: int|
                0 <= i < r.subscriptions@.len() ==> same_subscription(
                    #[trigger] r.subscriptions@[i],
                    self.subscriptions@[i],
                ),
            r.active_subscription == self.active_subscription,
    {
        let mut subscriptions: Vec<Subscription> = Vec::new();
        let mut i: usize = 0;
        while i < self.subscriptions.len()
            invariant
                i <= self.subscriptions@.len(),
                subscriptions@.len() == i,
                forall|j: int|
                    0 <= j < i ==> same_subscription(
                        #[trigger] subscriptions@[j],
                        self.subscriptions@[j],
                    ),
            decreases self.subscriptions@.len() - i,
        {
            subscriptions.push(self.subscriptions[i].clone());
            i = i + 1;
        }
        AppConfig {
            core: self.core.clone(),
            hwid: self.hwid.clone(),
            subscriptions,
            active_subscription: match &self.active_subscription {
                Some(a) => Some(a.clone()),
                None => None,
            },
            routing: self.routing.clone(),
        }
    }
}

impl Default for AppConfig {
    /// Each part at its own default, and no subscriptions.
    fn default() -> (r: Self)
        ensures
            default_core(r.core),
            default_hwid(r.hwid),
            default_routing(r.routing),
            r.subscriptions@.len() == 0,
            r.active_subscription is None,
    {
        AppConfig {
            core: CoreSettings::default(),
            hwid: HwidSettings::default(),
            subscriptions: Vec::new(),
            active_subscription: None,
            routing: RoutingSettings::default(),
        }
    }
}

/// Index of the first subscription with the given id.
pub open spec fn find_subscription(subs: Seq<Subscription>, id: Seq<char>) -> Option<int> {
    if exists|i: int| 0 <= i < subs.len() && (#[trigger] subs[i]).id@ == id {
        let i = choose|i: int|
            0 <= i < subs.len() && (#[trigger] subs[i]).id@ == id && forall|j: int|
                0 <= j < i ==> (#[trigger] subs[j]).id@ != id;
        Some(i)
    } else {
        None
    }
}

/// Index of the first enabled subscription.
pub open spec fn first_enabled(subs: Seq<Subscription>) -> Option<int> {
    if exists|i: int| 0 <= i < subs.len() && (#[trigger] subs[i]).enabled {
        let i = choose|i: int|
            0 <= i < subs.len() && (#[trigger] subs[i]).enabled && forall|j: int|
                0 <= j < i ==> !(#[trigger] subs[j]).enabled;
        Some(i)
    } else {
        None
    }
}

/// Index of the subscription whose nodes feed the core: the one named
/// active, or else the first enabled one.
pub open spec fn active_index(subs: Seq<Subscription>, active: Option<Seq<char>>) -> Option<int> {
    match active {
        Some(id) => match find_subscription(subs, id) {
            Some(i) => Some(i),
            None => first_enabled(subs),
        },
        None => first_enabled(subs),
    }
}

pub proof fn lemma_first_match_unique(subs: Seq<Subscription>, id: Seq<char>, i: int)
    requires
        0 <= i < subs.len(),
        subs[i].id@ == id,
        forall|j: int| 0 <= j < i ==> (#[trigger] subs[j]).id@ != id,
    ensures
        find_subscription(subs, id) == Some(i),
{
    let k = choose|k: int|
        0 <= k < subs.len() && (#[trigger] subs[k]).id@ == id && forall|j: int|
            0 <= j < k ==> (#[trigger] subs[j]).id@ != id;
    assert(subs[i].id@ == id);
    if k < i {
        assert(subs[k].id@ != id);
    }
    if i < k {
        assert(subs[i].id@ != id);
    }
}

/// The subscription `find_subscription` names carries the id and comes first.
pub proof fn lemma_found_subscription(subs: Seq<Subscription>, id: Seq<char>)
    requires
        find_subscription(subs, id) is Some,
    ensures
        0 <= find_subscription(subs, id)->0 < subs.len(),
        subs[find_subscription(subs, id)->0].id@ == id,
        forall|j: int| 0 <= j < find_subscription(subs, id)->0 ==> (#[trigger] subs[j]).id@ != id,
{
    let i = choose|i: int| 0 <= i < subs.len() && (#[trigger] subs[i]).id@ == id;
    lemma_first_subscription(subs, id, i);
}

proof fn lemma_first_subscription(subs: Seq<Subscription>, id: Seq<char>, i: int)
    requires
        0 <= i < subs.len(),
        subs[i].id@ == id,
    ensures
        exists|f: int|
            0 <= f <= i && (#[trigger] subs[f]).id@ == id && forall|j: int|
                0 <= j < f ==> (#[trigger] subs[j]).id@ != id,
    decreases i,
{
    if exists|j: int| 0 <= j < i && (#[trigger] subs[j]).id@ == id {
        let j = choose|j: int| 0 <= j < i && (#[trigger] subs[j]).id@ == id;
        lemma_first_subscription(subs, id, j);
    } else {
        assert(forall|j: int| 0 <= j < i ==> (#[trigger] subs[j]).id@ != id);
    }
}

proof fn lemma_first_enabled_found(subs: Seq<Subscription>, i: int)
    requires
        0 <= i < subs.len(),
        subs[i].enabled,
    ensures
        exists|f: int|
            0 <= f <= i && (#[trigger] subs[f]).enabled && forall|j: int|
                0 <= j < f ==> !(#[trigger] subs[j]).enabled,
    decreases i,
{
    if exists|j: int| 0 <= j < i && (#[trigger] subs[j]).enabled {
        let j = choose|j: int| 0 <= j < i && (#[trigger] subs[j]).enabled;
        lemma_first_enabled_found(subs, j);
    } else {
        assert(forall|j: int| 0 <= j < i ==> !(#[trigger] subs[j]).enabled);
    }
}

/// The subscription whose nodes feed the core: the first one carrying the
/// active id, when one does; otherwise the first enabled one; none when
/// there is neither.
pub proof fn law_active_subscription(subs: Seq<Subscription>, active: Option<Seq<char>>)
    ensures
        active is Some && (exists|j: int| 0 <= j < subs.len() && (#[trigger] subs[j]).id@ == active->0)
            ==> ({
            let i = active_index(subs, active)->0;
            &&& active_index(subs, active) is Some
            &&& 0 <= i < subs.len()
            &&& subs[i].id@ == active->0
            &&& forall|j: int| 0 <= j < i ==> (#[trigger] subs[j]).id@ != active->0
        }),
        !(active is Some && (exists|j: int| 0 <= j < subs.len() && (#[trigger] subs[j]).id@ == active->0))
            ==> ({
            let i = active_index(subs, active)->0;
            &&& (exists|j: int| 0 <= j < subs.len() && (#[trigger] subs[j]).enabled) ==> {
                &&& active_index(subs, active) is Some
                &&& 0 <= i < subs.len()
                &&& subs[i].enabled
                &&& forall|j: int| 0 <= j < i ==> !(#[trigger] subs[j]).enabled
            }
            &&& !(exists|j: int| 0 <= j < subs.len() && (#[trigger] subs[j]).enabled) ==> active_index(
                subs,
                active,
            ) is None
        }),
{
    if active is Some && (exists|j: int| 0 <= j < subs.len() && (#[trigger] subs[j]).id@ == active->0) {
        let j = choose|j: int| 0 <= j < subs.len() && (#[trigger] subs[j]).id@ == active->0;
        assert(find_subscription(subs, active->0) is Some);
        lemma_found_subscription(subs, active->0);
    } else {
        if active is Some {
            assert(find_subscription(subs, active->0) is None);
        }
        if exists|j: int| 0 <= j < subs.len() && (#[trigger] subs[j]).enabled {
            let j = choose|j: int| 0 <= j < subs.len() && (#[trigger] subs[j]).enabled;
            lemma_first_enabled_found(subs, j);
        }
    }
}

pub proof fn lemma_first_enabled_unique(subs: Seq<Subscription>, i: int)
    requires
        0 <= i < subs.len(),
        subs[i].enabled,
        forall|j: int| 0 <= j < i ==> !(#[trigger] subs[j]).enabled,
    ensures
        first_enabled(subs) == Some(i),
{
    let k = choose|k: int|
        0 <= k < subs.len() && (#[trigger] subs[k]).enabled && forall|j: int|
            0 <= j < k ==> !(#[trigger] subs[j]).enabled;
    assert(subs[i].enabled);
    if k < i {
        assert(!subs[k].enabled);
    }
    if i < k {
        assert(!subs[i].enabled);
    }
}

impl AppConfig {
    /// Position of the first subscription with this id.
    pub fn subscription_index(&self, id: &str) -> (r: Option<usize>)
        ensures
            match r {
                Some(i) => i < self.subscriptions@.len() && find_subscription(
                    self.subscriptions@,
                    id@,
                ) == Some(i as int),
                None => find_subscription(self.subscriptions@, id@) is None,
            },
    {
        for i in 0..self.subscriptions.len()
            invariant
                forall|j: int|
                    0 <= j < i ==> (#[trigger] self.subscriptions@[j]).id@ != id@,
        {
            if crate::text::str_eq(self.subscriptions[i].id.as_str(), id) {
                proof {
                    lemma_first_match_unique(self.subscriptions@, id@, i as int);
                }
                return Some(i);
            }
        }
        None
    }

    pub fn subscription(&self, id: &str) -> (r: Option<&Subscription>)
        ensures
            match r {
                Some(s) => find_subscription(self.subscriptions@, id@) matches Some(i) && *s
                    == self.subscriptions@[i],
                None => find_subscription(self.subscriptions@, id@) is None,
            },
    {
        match self.subscription_index(id) {
            Some(i) => Some(&self.subscriptions[i]),
            None => None,
        }
    }

    pub fn subscription_mut(&mut self, id: &str) -> (r: Option<&mut Subscription>)
        ensures
            match r {
                Some(s) => find_subscription(old(self).subscriptions@, id@) matches Some(i)
                    && *s == old(self).subscriptions@[i] && final(self).subscriptions@
                    == old(self).subscriptions@.update(i, *final(s)) && final(self).core
                    == old(self).core && final(self).hwid == old(self).hwid
                    && final(self).active_subscription == old(self).active_subscription
                    && final(self).routing == old(self).routing,
                None => find_subscription(old(self).subscriptions@, id@) is None && *final(self)
                    == *old(self),
            },
    {
        match self.subscription_index(id) {
            Some(i) => Some(&mut self.subscriptions[i]),
            None => None,
        }
    }

    fn first_enabled_index(&self) -> (r: Option<usize>)
        ensures
            match r {
                Some(i) => i < self.subscriptions@.len() && first_enabled(self.subscriptions@)
                    == Some(i as int),
                None => first_enabled(self.subscriptions@) is None,
            },
    {
        for i in 0..self.subscriptions.len()
            invariant
                forall|j: int| 0 <= j < i ==> !(#[trigger] self.subscriptions@[j]).enabled,
        {
            if self.subscriptions[i].enabled {
                proof {
                    lemma_first_enabled_unique(self.subscriptions@, i as int);
                }
                return Some(i);
            }
        }
        None
    }

    /// Position of the subscription whose nodes are fed to the core.
    pub fn active_index(&self) -> (r: Option<usize>)
        ensures
            match r {
                Some(i) => i < self.subscriptions@.len() && active_index(self.subscriptions@, opt_view(self.active_subscription))
                    == Some(i as int),
                None => active_index(self.subscriptions@, opt_view(self.active_subscription))
                    is None,
            },
    {
        match &self.active_subscription {
            Some(id) => match self.subscription_index(id.as_str()) {
                Some(i) => Some(i),
                None => self.first_enabled_index(),
            },
            None => self.first_enabled_index(),
        }
    }

    /// The subscription whose nodes are currently fed to the core.
    pub fn active(&self) -> (r: Option<&Subscription>)
        ensures
            match r {
                Some(s) => active_index(self.subscriptions@, opt_view(self.active_subscription))
                    matches Some(i) && *s == self.subscriptions@[i],
                None => active_index(self.subscriptions@, opt_view(self.active_subscription))
                    is None,
            },
    {
        match self.active_index() {
            Some(i) => Some(&self.subscriptions[i]),
            None => None,
        }
    }
}

} // verus!
