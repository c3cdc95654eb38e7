//! The decisions behind the actions the pages trigger: what the core's
//! status becomes after a probe, which nodes feed the core, how a download
//! is recorded, and how subscriptions are added, edited and removed. The
//! caller does the probing, reading, downloading and redrawing.

use vstd::prelude::*;
use vstd::string::StringExecFns;

use crate::config::{
    active_index, all_match_kinds, find_subscription, opt_view, AppConfig, AppMatch, AppRule, DomainRule,
    MatchKind, RuleProvider, Subscription, Target,
};
use crate::corectl::CoreStatus;
use crate::headers::{parse_headers, parsed_value};
use crate::subscription::{extracted, fetch_error_text, FetchError, Fetched};
use crate::template::generate;
use crate::text::{blank, decimal, is_blank, lines_of, push_decimal, str_eq, trim, trimmed};
use crate::yaml::{items_view, Yaml};

verus! {

/// Whether the core is up, as our child or adopted.
pub open spec fn running(status: CoreStatus) -> bool {
    status is Running || status is Adopted
}

pub fn is_running(status: &CoreStatus) -> (b: bool)
    ensures
        b == running(*status),
{
    match status {
        CoreStatus::Running | CoreStatus::Adopted => true,
        _ => false,
    }
}

/// Two statuses are the same: the same variant, and the same message.
pub open spec fn same_status(a: CoreStatus, b: CoreStatus) -> bool {
    match (a, b) {
        (CoreStatus::Stopped, CoreStatus::Stopped) => true,
        (CoreStatus::Running, CoreStatus::Running) => true,
        (CoreStatus::Adopted, CoreStatus::Adopted) => true,
        (CoreStatus::Failed(x), CoreStatus::Failed(y)) => x@ == y@,
        _ => false,
    }
}

/// What a probe of the controller makes of the status: answering and our
/// child means running, answering otherwise means adopted; silence keeps a
/// failure and is otherwise stopped.
pub open spec fn probed_status(version_known: bool, child_alive: bool, previous: CoreStatus) -> (
    int,
    Seq<char>,
) {
    if version_known {
        if child_alive {
            (1, Seq::empty())
        } else {
            (2, Seq::empty())
        }
    } else {
        match previous {
            CoreStatus::Failed(e) => (3, e@),
            _ => (0, Seq::empty()),
        }
    }
}

/// The variant number and message of a status.
pub open spec fn status_parts(s: CoreStatus) -> (int, Seq<char>) {
    match s {
        CoreStatus::Stopped => (0, Seq::empty()),
        CoreStatus::Running => (1, Seq::empty()),
        CoreStatus::Adopted => (2, Seq::empty()),
        CoreStatus::Failed(e) => (3, e@),
    }
}

/// The status after a probe, and whether it changed, in which case the pages
/// are told to redraw.
pub fn next_status(version_known: bool, child_alive: bool, previous: &CoreStatus) -> (r: (
    CoreStatus,
    bool,
))
    ensures
        status_parts(r.0) == probed_status(version_known, child_alive, *previous),
        r.1 == !same_status(r.0, *previous),
{
    let next = if version_known {
        if child_alive {
            CoreStatus::Running
        } else {
            CoreStatus::Adopted
        }
    } else {
        match previous {
            CoreStatus::Failed(err) => CoreStatus::Failed(err.clone()),
            _ => CoreStatus::Stopped,
        }
    };
    let changed = match (&next, previous) {
        (CoreStatus::Stopped, CoreStatus::Stopped) => false,
        (CoreStatus::Running, CoreStatus::Running) => false,
        (CoreStatus::Adopted, CoreStatus::Adopted) => false,
        (CoreStatus::Failed(x), CoreStatus::Failed(y)) => !str_eq(x.as_str(), y.as_str()),
        _ => true,
    };
    (next, changed)
}

/// What a probe of the controller concludes: a core that answers is
/// running when it is our child and adopted when it is not; silence keeps a
/// failure with its message and otherwise means stopped. The pages redraw
/// exactly when the status changed.
pub proof fn law_probe_status(r: (CoreStatus, bool), version_known: bool, child_alive: bool, previous: CoreStatus)
    requires
        status_parts(r.0) == probed_status(version_known, child_alive, previous),
        r.1 == !same_status(r.0, previous),
    ensures
        version_known && child_alive ==> r.0 is Running,
        version_known && !child_alive ==> r.0 is Adopted,
        !version_known && previous is Failed ==> (r.0 matches CoreStatus::Failed(e) && e@
            == previous->Failed_0@),
        !version_known && !(previous is Failed) ==> r.0 is Stopped,
        r.1 <==> match (r.0, previous) {
            (CoreStatus::Stopped, CoreStatus::Stopped) => false,
            (CoreStatus::Running, CoreStatus::Running) => false,
            (CoreStatus::Adopted, CoreStatus::Adopted) => false,
            (CoreStatus::Failed(x), CoreStatus::Failed(y)) => x@ != y@,
            _ => true,
        },
{
}

/// Starting with TUN on warns exactly when the binary check found a real
/// problem (no binary, not permitted, no capability); a ready binary, an
/// unknown answer (no `getcap`) or TUN off give no warning.
pub proof fn law_tun_notice(tun_enabled: bool, readiness: crate::corectl::TunReadiness)
    ensures
        tun_notice_text(tun_enabled, readiness) is Some <==> (tun_enabled && (readiness is Missing
            || readiness is NotPermitted || readiness is NoCapabilities)),
{
}

/// What a finished download tells the user: how many nodes came; nothing for
/// a device limit, which has a dialog of its own; otherwise `Update failed: `
/// and the error.
pub proof fn law_fetch_notice(result: Result<Fetched, FetchError>)
    ensures
        result matches Ok(f) ==> fetch_notice(result) == Some(
            decimal(f.proxies@.len() as nat) + " nodes downloaded"@,
        ),
        result matches Err(FetchError::DeviceLimit(_)) ==> fetch_notice(result) is None,
        result matches Err(e) ==> (!(e is DeviceLimit) ==> fetch_notice(result) == Some(
            "Update failed: "@ + fetch_error_text(e),
        )),
{
}

/// A finished download: on success the error is cleared, the time and node
/// count are recorded, and the profile's title becomes the name only when
/// the name is blank or still the placeholder `New subscription`; on failure
/// the error is recorded and the last good download's time, nodes, traffic
/// and name stay.
pub proof fn law_recorded(before: Subscription, after: Subscription, result: Result<Fetched, FetchError>, now: i64)
    requires
        recorded(before, after, result, now),
    ensures
        result is Ok ==> after.last_error is None && after.last_updated == Some(now)
            && after.node_count == result->Ok_0.proxies@.len(),
        result matches Ok(f) ==> (f.title matches Some(t) ==> (after.name@ == if blank(
            before.name@,
        ) || before.name@ == "New subscription"@ {
            t@
        } else {
            before.name@
        })),
        result matches Ok(f) ==> (f.title is None ==> after.name@ == before.name@),
        result is Err ==> after.last_error is Some && after.last_updated == before.last_updated
            && after.node_count == before.node_count && after.name@ == before.name@,
{
}

/// The message shown when no profile of the active subscription can be read.
pub open spec fn no_profile_text(name: Seq<char>) -> Seq<char> {
    "No downloaded profile for \""@ + name + "\" yet — update it first."@
}

/// The nodes that feed the core: those of the active subscription's cached
/// profile, given as `profile` (its text, when it could be read).
pub open spec fn active_nodes(cfg: AppConfig, profile: Option<Seq<char>>) -> Result<
    Seq<crate::yaml::YamlV>,
    Seq<char>,
> {
    match active_index(cfg.subscriptions@, opt_view(cfg.active_subscription)) {
        None => Err("Add a subscription first."@),
        Some(i) => match profile {
            Some(text) => match extracted(text) {
                Ok((nodes, _)) => if nodes.len() > 0 {
                    Ok(nodes)
                } else {
                    Err(no_profile_text(cfg.subscriptions@[i].name@))
                },
                Err(_) => Err(no_profile_text(cfg.subscriptions@[i].name@)),
            },
            None => Err(no_profile_text(cfg.subscriptions@[i].name@)),
        },
    }
}

/// Nodes for the active subscription, read from its cached profile.
pub fn active_proxies(cfg: &AppConfig, profile: Option<String>) -> (r: Result<Vec<Yaml>, String>)
    ensures
        match r {
            Ok(list) => active_nodes(*cfg, opt_view(profile)) == Ok::<
                Seq<crate::yaml::YamlV>,
                Seq<char>,
            >(items_view(list@)) && crate::yaml::all_named(items_view(list@)),
            Err(e) => active_nodes(*cfg, opt_view(profile)) == Err::<
                Seq<crate::yaml::YamlV>,
                Seq<char>,
            >(e@),
        },
{
    let sub = match cfg.active() {
        None => return Err(String::from_str("Add a subscription first.")),
        Some(s) => s,
    };
    let cached = match &profile {
        Some(text) => crate::subscription::load_cached(text.as_str()),
        None => None,
    };
    match cached {
        Some(list) => {
            if list.len() > 0 {
                return Ok(list);
            }
        },
        None => {},
    }
    let mut msg = String::from_str("No downloaded profile for \"");
    msg.append(sub.name.as_str());
    msg.append("\" yet — update it first.");
    proof {
        reveal_strlit("No downloaded profile for \"");
        reveal_strlit("\" yet — update it first.");
    }
    Err(msg)
}

/// The generated config for the active subscription's nodes.
pub fn render_config(cfg: &AppConfig, profile: Option<String>) -> (r: Result<String, String>)
    ensures
        match active_nodes(*cfg, opt_view(profile)) {
            Err(e) => r matches Err(m) && m@ == e,
            Ok(nodes) => match crate::yaml::yaml_render(crate::template::config_doc(*cfg, nodes)) {
                Ok(text) => r matches Ok(s) && s@ == text,
                Err(_) => r matches Err(m) && m@ == "serializing generated config"@,
            },
        },
{
    let proxies = match active_proxies(cfg, profile) {
        Ok(p) => p,
        Err(e) => return Err(e),
    };
    generate(cfg, proxies.as_slice())
}

/// What `--print-config` prints: the config the core would be started with,
/// or why there is none.
pub open spec fn printed_config(cfg: AppConfig, profile: Option<Seq<char>>) -> Result<Seq<char>, Seq<char>> {
    match active_index(cfg.subscriptions@, opt_view(cfg.active_subscription)) {
        None => Err("no subscription configured"@),
        Some(i) => {
            let missing = "no downloaded profile for \""@ + cfg.subscriptions@[i].name@ + "\""@;
            match profile {
                Some(text) => match extracted(text) {
                    Ok((nodes, _)) => match crate::yaml::yaml_render(
                        crate::template::config_doc(cfg, nodes),
                    ) {
                        Ok(t) => Ok(t),
                        Err(_) => Err("serializing generated config"@),
                    },
                    Err(_) => Err(missing),
                },
                None => Err(missing),
            }
        },
    }
}

/// `--print-config`: the generated config for the active subscription, from
/// its cached profile (`profile`, when it could be read).
pub fn print_config_text(cfg: &AppConfig, profile: Option<String>) -> (r: Result<String, String>)
    ensures
        match printed_config(*cfg, opt_view(profile)) {
            Ok(t) => r matches Ok(s) && s@ == t,
            Err(e) => r matches Err(m) && m@ == e,
        },
{
    let sub = match cfg.active() {
        None => return Err(String::from_str("no subscription configured")),
        Some(s) => s,
    };
    let cached = match &profile {
        Some(text) => crate::subscription::load_cached(text.as_str()),
        None => None,
    };
    match cached {
        Some(list) => generate(cfg, list.as_slice()),
        None => {
            let mut msg = String::from_str("no downloaded profile for \"");
            msg.append(sub.name.as_str());
            msg.append("\"");
            Err(msg)
        },
    }
}

// ---------------------------------------------------------------- applying

/// What applying the settings does first.
pub enum ApplyPlan {
    /// Nothing to run: tell the user why.
    Report(String),
    /// The core is up: write this config and have the core reload it.
    Reload(String),
    /// The core is down: start it on this config.
    Start(String),
}

/// Applying starts the core, or hot-reloads it when it is already up; a
/// config that cannot be rendered is only reported.
pub fn plan_apply(rendered: Result<String, String>, running: bool) -> (r: ApplyPlan)
    ensures
        match rendered {
            Err(e) => r matches ApplyPlan::Report(m) && m@ == e@,
            Ok(y) => if running {
                r matches ApplyPlan::Reload(c) && c@ == y@
            } else {
                r matches ApplyPlan::Start(c) && c@ == y@
            },
        },
{
    match rendered {
        Err(e) => ApplyPlan::Report(e),
        Ok(yaml) => if running {
            ApplyPlan::Reload(yaml)
        } else {
            ApplyPlan::Start(yaml)
        },
    }
}

/// The warning shown before starting with TUN on when the binary cannot
/// create the device; a missing `getcap` is no reason to warn.
pub open spec fn tun_notice_text(tun_enabled: bool, readiness: crate::corectl::TunReadiness) -> Option<Seq<char>> {
    if tun_enabled && !(readiness is Ready || readiness is Unknown) {
        Some("TUN is on but the core has no CAP_NET_ADMIN — enable programs.mihomo-manifold.tun in NixOS."@)
    } else {
        None
    }
}

pub fn tun_notice(tun_enabled: bool, readiness: &crate::corectl::TunReadiness) -> (r: Option<String>)
    ensures
        opt_view(r) == tun_notice_text(tun_enabled, *readiness),
{
    let ready = match readiness {
        crate::corectl::TunReadiness::Ready | crate::corectl::TunReadiness::Unknown => true,
        _ => false,
    };
    if tun_enabled && !ready {
        Some(String::from_str("TUN is on but the core has no CAP_NET_ADMIN — enable programs.mihomo-manifold.tun in NixOS."))
    } else {
        None
    }
}

/// The message after a hot reload.
pub open spec fn reload_text(result: Result<(), String>) -> Seq<char> {
    match result {
        Ok(_) => "Configuration reloaded"@,
        Err(e) => "Reload failed: "@ + e@,
    }
}

pub fn reload_message(result: &Result<(), String>) -> (r: String)
    ensures
        r@ == reload_text(*result),
{
    match result {
        Ok(()) => String::from_str("Configuration reloaded"),
        Err(e) => {
            let mut s = String::from_str("Reload failed: ");
            s.append(e.as_str());
            s
        },
    }
}

/// How many times a freshly started core is asked for its version before it
/// counts as not answering.
pub const START_PROBES: u32 = 40;

/// How long to wait after an unanswered probe, in milliseconds.
pub const PROBE_PAUSE_MS: u64 = 250;

/// What happened while waiting for a started core to answer.
pub enum ProbeEvent {
    /// The controller reported this version.
    Answered(String),
    /// The controller did not answer this probe.
    NoAnswer,
    /// The pause after an unanswered probe is over.
    Slept,
}

/// What to do next while waiting for a started core.
pub enum ProbeAction {
    /// Ask the controller for its version.
    Probe,
    /// Wait this many milliseconds.
    Sleep(u64),
    /// Stop waiting, with the version or why there is none.
    Finish(Result<String, String>),
}

/// The wait for a started core, one step at a time, counting the unanswered
/// probes: an answer ends it; an unanswered probe is followed by a pause; after
/// the pause the controller is asked again, until `START_PROBES` probes went
/// unanswered. The waiting starts with `Probe` and no failures.
pub fn probe_next(failures: u32, event: ProbeEvent) -> (r: (u32, ProbeAction))
    ensures
        match event {
            ProbeEvent::Answered(v) => {
                &&& r.0 == failures
                &&& r.1 matches ProbeAction::Finish(Ok(x)) && x@ == v@
            },
            ProbeEvent::NoAnswer => {
                &&& r.0 == if failures < START_PROBES {
                    failures + 1
                } else {
                    failures as int
                }
                &&& r.1 == ProbeAction::Sleep(PROBE_PAUSE_MS)
            },
            ProbeEvent::Slept => {
                &&& r.0 == failures
                &&& failures >= START_PROBES ==> (r.1 matches ProbeAction::Finish(Err(m)) && m@
                    == "the core did not answer on the controller port"@)
                &&& failures < START_PROBES ==> r.1 is Probe
            },
        },
{
    match event {
        ProbeEvent::Answered(v) => (failures, ProbeAction::Finish(Ok(v))),
        ProbeEvent::NoAnswer => {
            let next = if failures < START_PROBES {
                failures + 1
            } else {
                failures
            };
            (next, ProbeAction::Sleep(PROBE_PAUSE_MS))
        },
        ProbeEvent::Slept => if failures >= START_PROBES {
            (failures, ProbeAction::Finish(Err(String::from_str("the core did not answer on the controller port"))))
        } else {
            (failures, ProbeAction::Probe)
        },
    }
}

/// What the pages learn once the started core was probed: the new status,
/// the core's version, the message to show, and whether the child has to be
/// stopped because it never answered.
pub struct StartOutcome {
    pub status: CoreStatus,
    pub version: Option<String>,
    pub message: String,
    pub stop_core: bool,
}

/// A core that answered runs, at the version it reported; one that did not
/// is stopped and marked failed, and the user is sent to the log.
pub fn after_start(probe: Result<String, String>) -> (r: StartOutcome)
    ensures
        match probe {
            Ok(v) => r.status is Running && opt_view(r.version) == Some(v@) && r.message@
                == "Core started"@ && !r.stop_core,
            Err(e) => r.status matches CoreStatus::Failed(m) && m@ == e@ && r.version is None
                && r.message@ == e@ + ". Check the Logs page."@ && r.stop_core,
        },
{
    match probe {
        Ok(version) => StartOutcome {
            status: CoreStatus::Running,
            version: Some(version),
            message: String::from_str("Core started"),
            stop_core: false,
        },
        Err(err) => {
            let mut message = err.clone();
            message.append(". Check the Logs page.");
            StartOutcome { status: CoreStatus::Failed(err), version: None, message, stop_core: true }
        },
    }
}

// ---------------------------------------------------------------- downloads

/// Whether a downloaded profile's title replaces the subscription's name: only
/// a blank name or the placeholder is replaced.
pub open spec fn takes_title(name: Seq<char>) -> bool {
    blank(name) || name == "New subscription"@
}

/// What a finished download changes in the subscription it was for.
pub open spec fn recorded(before: Subscription, after: Subscription, result: Result<Fetched, FetchError>, now: i64) -> bool {
    &&& after.id == before.id
    &&& after.url == before.url
    &&& after.enabled == before.enabled
    &&& after.send_hwid == before.send_hwid
    &&& after.headers@ == before.headers@
    &&& after.auto_update_minutes == before.auto_update_minutes
    &&& match result {
        Ok(f) => {
            &&& after.last_error is None
            &&& after.last_updated == Some(now)
            &&& after.node_count == f.proxies@.len()
            &&& after.user_info == f.user_info
            &&& after.name@ == match f.title {
                Some(t) => if takes_title(before.name@) {
                    t@
                } else {
                    before.name@
                },
                None => before.name@,
            }
        },
        Err(e) => {
            &&& after.last_error matches Some(m) && m@ == fetch_error_text(e)
            &&& after.last_updated == before.last_updated
            &&& after.node_count == before.node_count
            &&& after.user_info == before.user_info
            &&& after.name@ == before.name@
        },
    }
}

/// Remembers what a download of subscription `id` reported, at `now` (unix
/// seconds). Returns false, changing nothing, when the subscription is gone;
/// otherwise the first subscription becomes active when none was.
pub fn record_fetch(cfg: &mut AppConfig, id: &str, result: &Result<Fetched, FetchError>, now: i64) -> (found: bool)
    ensures
        found == (find_subscription(old(cfg).subscriptions@, id@) is Some),
        !found ==> *final(cfg) == *old(cfg),
        found ==> ({
            let i = find_subscription(old(cfg).subscriptions@, id@)->0;
            &&& final(cfg).subscriptions@.len() == old(cfg).subscriptions@.len()
            &&& forall|j: int|
                0 <= j < old(cfg).subscriptions@.len() && j != i ==> #[trigger] final(cfg).subscriptions@[j]
                    == old(cfg).subscriptions@[j]
            &&& recorded(old(cfg).subscriptions@[i], final(cfg).subscriptions@[i], *result, now)
            &&& opt_view(final(cfg).active_subscription) == match old(cfg).active_subscription {
                Some(a) => Some(a@),
                None => Some(id@),
            }
            &&& final(cfg).core == old(cfg).core
            &&& final(cfg).hwid == old(cfg).hwid
            &&& final(cfg).routing == old(cfg).routing
        }),
{
    let i = match cfg.subscription_index(id) {
        None => return false,
        Some(i) => i,
    };
    proof {
        crate::config::lemma_found_subscription(cfg.subscriptions@, id@);
    }
    let mut entry = cfg.subscriptions[i].clone();
    match result {
        Ok(fetched) => {
            entry.last_error = None;
            entry.last_updated = Some(now);
            entry.node_count = fetched.proxies.len();
            entry.user_info = fetched.user_info;
            match &fetched.title {
                Some(title) => {
                    if is_blank(entry.name.as_str()) || str_eq(entry.name.as_str(), "New subscription") {
                        entry.name = title.clone();
                    }
                },
                None => {},
            }
        },
        Err(err) => {
            entry.last_error = Some(err.message());
        },
    }
    let new_id = entry.id.clone();
    cfg.subscriptions.set(i, entry);
    if cfg.active_subscription.is_none() {
        cfg.active_subscription = Some(new_id);
    }
    true
}

/// What the user is told when a download ends: how many nodes came, or why
/// it failed; nothing for a device limit, which gets a dialog of its own.
pub open spec fn fetch_notice(result: Result<Fetched, FetchError>) -> Option<Seq<char>> {
    match result {
        Ok(f) => Some(decimal(f.proxies@.len() as nat) + " nodes downloaded"@),
        Err(FetchError::DeviceLimit(_)) => None,
        Err(e) => Some("Update failed: "@ + fetch_error_text(e)),
    }
}

pub fn fetch_toast(result: &Result<Fetched, FetchError>) -> (r: Option<String>)
    ensures
        opt_view(r) == fetch_notice(*result),
{
    match result {
        Ok(f) => {
            let mut s = String::new();
            push_decimal(&mut s, f.proxies.len() as u64);
            s.append(" nodes downloaded");
            Some(s)
        },
        Err(FetchError::DeviceLimit(_)) => None,
        Err(e) => {
            let mut s = String::from_str("Update failed: ");
            let m = e.message();
            s.append(m.as_str());
            Some(s)
        },
    }
}

/// The body of the dialog shown when the panel refuses the device.
pub open spec fn device_limit_text(message: Seq<char>, hwid: Seq<char>) -> Seq<char> {
    message + "\n\nThis machine identifies itself as:\n"@ + hwid
        + "\n\nFree a slot in the panel, or set a different HWID in Settings."@
}

pub fn device_limit_body(message: &str, hwid: &str) -> (r: String)
    ensures
        r@ == device_limit_text(message@, hwid@),
{
    let mut s = String::from_str(message);
    s.append("\n\nThis machine identifies itself as:\n");
    s.append(hwid);
    s.append("\n\nFree a slot in the panel, or set a different HWID in Settings.");
    s
}


// ---------------------------------------------------------------- editing

/// The name a saved subscription gets: what was typed, trimmed, or
/// `Subscription` when that is empty.
pub open spec fn entry_name(typed: Seq<char>) -> Seq<char> {
    if trimmed(typed).len() == 0 {
        "Subscription"@
    } else {
        trimmed(typed)
    }
}

/// The subscription the editor saves: `existing` with what the form holds.
/// A blank URL is refused.
pub fn edited_subscription(
    existing: &Subscription,
    name_text: &str,
    url_text: &str,
    send_hwid: bool,
    auto_update_minutes: u64,
    headers_text: &str,
) -> (r: Result<Subscription, String>)
    ensures
        trimmed(url_text@).len() == 0 <==> r is Err,
        r matches Err(e) ==> e@ == "A subscription URL is required."@,
        r matches Ok(s) ==> {
            &&& s.id == existing.id
            &&& s.name@ == entry_name(name_text@)
            &&& s.url@ == trimmed(url_text@)
            &&& s.enabled == existing.enabled
            &&& s.send_hwid == send_hwid
            &&& s.auto_update_minutes == auto_update_minutes
            &&& forall|k: Seq<char>|
                #![trigger crate::headers::lookup(s.headers@, k)]
                crate::headers::lookup(s.headers@, k) == parsed_value(lines_of(headers_text@), k)
            &&& s.last_updated == existing.last_updated
            &&& s.last_error == existing.last_error
            &&& s.user_info == existing.user_info
            &&& s.node_count == existing.node_count
        },
{
    let url = trim(url_text);
    if url.as_str().unicode_len() == 0 {
        return Err(String::from_str("A subscription URL is required."));
    }
    let mut entry = existing.clone();
    let typed = trim(name_text);
    entry.name = if typed.as_str().unicode_len() == 0 {
        String::from_str("Subscription")
    } else {
        typed
    };
    entry.url = url;
    entry.send_hwid = send_hwid;
    entry.auto_update_minutes = auto_update_minutes;
    entry.headers = parse_headers(headers_text);
    Ok(entry)
}

/// Saves an edited subscription: in place of the one with its id, or added
/// at the end; it becomes active when none was.
pub fn upsert_subscription(cfg: &mut AppConfig, entry: Subscription)
    ensures
        match find_subscription(old(cfg).subscriptions@, entry.id@) {
            Some(i) => final(cfg).subscriptions@ == old(cfg).subscriptions@.update(i, entry),
            None => final(cfg).subscriptions@ == old(cfg).subscriptions@.push(entry),
        },
        opt_view(final(cfg).active_subscription) == match old(cfg).active_subscription {
            Some(a) => Some(a@),
            None => Some(entry.id@),
        },
        final(cfg).core == old(cfg).core,
        final(cfg).hwid == old(cfg).hwid,
        final(cfg).routing == old(cfg).routing,
{
    let id = entry.id.clone();
    match cfg.subscription_index(id.as_str()) {
        Some(i) => {
            proof {
                crate::config::lemma_found_subscription(cfg.subscriptions@, id@);
            }
            cfg.subscriptions.set(i, entry);
        },
        None => cfg.subscriptions.push(entry),
    }
    if cfg.active_subscription.is_none() {
        cfg.active_subscription = Some(id);
    }
}

/// Whether a subscription has another id than `id`.
pub open spec fn other_than(id: Seq<char>) -> spec_fn(Subscription) -> bool {
    |s: Subscription| s.id@ != id
}

/// The subscriptions left after removing every one with id `id`, in order.
pub open spec fn without_id(subs: Seq<Subscription>, id: Seq<char>) -> Seq<Subscription> {
    subs.filter(other_than(id))
}

/// Removes the subscription `id`; when it was the active one, the first
/// remaining subscription becomes active (or none).
pub fn remove_subscription(cfg: &mut AppConfig, id: &str)
    ensures
        final(cfg).subscriptions@ == without_id(old(cfg).subscriptions@, id@),
        opt_view(final(cfg).active_subscription) == match old(cfg).active_subscription {
            Some(a) => if a@ == id@ {
                if without_id(old(cfg).subscriptions@, id@).len() > 0 {
                    Some(without_id(old(cfg).subscriptions@, id@)[0].id@)
                } else {
                    None
                }
            } else {
                Some(a@)
            },
            None => None,
        },
        final(cfg).core == old(cfg).core,
        final(cfg).hwid == old(cfg).hwid,
        final(cfg).routing == old(cfg).routing,
{
    let ghost old_subs = cfg.subscriptions@;
    let mut kept: Vec<Subscription> = Vec::new();
    let mut rest: Vec<Subscription> = Vec::new();
    std::mem::swap(&mut rest, &mut cfg.subscriptions);
    let mut i: usize = 0;
    let n = rest.len();
    proof {
        reveal(Seq::filter);
        assert(old_subs.take(0).filter(other_than(id@)) =~= Seq::<Subscription>::empty());
    }
    while rest.len() > 0
        invariant
            i + rest@.len() == n == old_subs.len(),
            rest@ == old_subs.skip(i as int),
            kept@ == old_subs.take(i as int).filter(other_than(id@)),
        decreases rest@.len(),
    {
        let s = rest.remove(0);
        proof {
            reveal(Seq::filter);
            assert(old_subs.take(i + 1).drop_last() =~= old_subs.take(i as int));
            assert(old_subs.take(i + 1).last() == s);
            assert(rest@ =~= old_subs.skip(i + 1));
        }
        if !str_eq(s.id.as_str(), id) {
            kept.push(s);
        }
        i = i + 1;
    }
    proof {
        assert(old_subs.take(n as int) =~= old_subs);
    }
    cfg.subscriptions = kept;
    let was_active = match &cfg.active_subscription {
        Some(a) => str_eq(a.as_str(), id),
        None => false,
    };
    if was_active {
        cfg.active_subscription = if cfg.subscriptions.len() > 0 {
            Some(cfg.subscriptions[0].id.clone())
        } else {
            None
        };
    }
}


// ---------------------------------------------------------------- routing forms

/// The label of the application picked in the form's list, where 0 is "none
/// picked" and `k` is the `k`-th application; nothing past the end.
pub open spec fn picked_label(apps: Seq<(String, String)>, picked: u32) -> Seq<char> {
    if 0 < picked <= apps.len() {
        apps[picked - 1].0@
    } else {
        Seq::empty()
    }
}

/// The application rule the form adds: enabled, the typed process name
/// trimmed, matched by path or by name, with the picked application's label.
/// A blank process name is refused with the message the form shows.
pub fn app_rule_from_form(
    value: &str,
    by_path: bool,
    picked: u32,
    apps: &Vec<(String, String)>,
    target: Target,
) -> (r: Result<AppRule, String>)
    ensures
        r is Err <==> blank(value@),
        r matches Err(m) ==> m@ == "Enter a process name, for example telegram-desktop."@,
        r matches Ok(rule) ==> {
            &&& rule.enabled
            &&& rule.value@ == trimmed(value@)
            &&& rule.match_by == if by_path {
                AppMatch::Path
            } else {
                AppMatch::Name
            }
            &&& rule.target == target
            &&& rule.label@ == picked_label(apps@, picked)
        },
{
    if is_blank(value) {
        return Err(String::from_str("Enter a process name, for example telegram-desktop."));
    }
    let v = trim(value);
    let i = picked as usize;
    let label = if 0 < i && i <= apps.len() {
        apps[i - 1].0.clone()
    } else {
        String::new()
    };
    Ok(AppRule {
        enabled: true,
        match_by: if by_path {
            AppMatch::Path
        } else {
            AppMatch::Name
        },
        value: v,
        target,
        label,
    })
}

/// The kind at `index` in the form's list, the last one past its end.
pub open spec fn picked_kind(index: u32) -> MatchKind {
    all_match_kinds()[if index < 8 {
        index as int
    } else {
        7
    }]
}

/// The destination rule the form adds: enabled, of the picked kind, with
/// the typed value trimmed. A blank value is refused.
pub fn domain_rule_from_form(value: &str, kind_index: u32, target: Target) -> (r: Result<
    DomainRule,
    String,
>)
    ensures
        r is Err <==> blank(value@),
        r matches Err(m) ==> m@ == "Enter a value to match."@,
        r matches Ok(rule) ==> rule.enabled && rule.kind == picked_kind(kind_index) && rule.value@
            == trimmed(value@) && rule.target == target,
{
    if is_blank(value) {
        return Err(String::from_str("Enter a value to match."));
    }
    let v = trim(value);
    let kinds = MatchKind::all();
    let k: usize = if kind_index < 8 {
        kind_index as usize
    } else {
        7
    };
    Ok(DomainRule { enabled: true, kind: kinds[k], value: v, target })
}

/// The entry at `index` of a three-item list, the last one past its end.
pub open spec fn picked_of_three(items: Seq<Seq<char>>, index: u32) -> Seq<char> {
    items[if index < 3 {
        index as int
    } else {
        2
    }]
}

pub open spec fn behaviors() -> Seq<Seq<char>> {
    seq!["domain"@, "ipcidr"@, "classical"@]
}

pub open spec fn formats() -> Seq<Seq<char>> {
    seq!["yaml"@, "text"@, "mrs"@]
}

fn pick_of_three(items: [&str; 3], index: u32) -> (r: String)
    ensures
        r@ == picked_of_three(Seq::new(3, |i: int| items@[i]@), index),
{
    let k: usize = if index < 3 {
        index as usize
    } else {
        2
    };
    String::from_str(items[k])
}

/// The rule provider the form adds: enabled, name and URL trimmed, the
/// picked behavior and format, the interval and target given. A blank name
/// or URL is refused.
pub fn provider_from_form(
    name: &str,
    url: &str,
    behavior_index: u32,
    format_index: u32,
    interval: u64,
    target: Target,
) -> (r: Result<RuleProvider, String>)
    ensures
        r is Err <==> (blank(name@) || blank(url@)),
        r matches Err(m) ==> m@ == "A provider needs both a name and a URL."@,
        r matches Ok(p) ==> {
            &&& p.enabled
            &&& p.name@ == trimmed(name@)
            &&& p.url@ == trimmed(url@)
            &&& p.behavior@ == picked_of_three(behaviors(), behavior_index)
            &&& p.format@ == picked_of_three(formats(), format_index)
            &&& p.interval == interval
            &&& p.target == target
        },
{
    if is_blank(name) || is_blank(url) {
        return Err(String::from_str("A provider needs both a name and a URL."));
    }
    let n = trim(name);
    let u = trim(url);
    let behavior = pick_of_three(["domain", "ipcidr", "classical"], behavior_index);
    let format = pick_of_three(["yaml", "text", "mrs"], format_index);
    proof {
        assert(Seq::new(3, |i: int| ["domain", "ipcidr", "classical"]@[i]@) =~= behaviors());
        assert(Seq::new(3, |i: int| ["yaml", "text", "mrs"]@[i]@) =~= formats());
    }
    Ok(RuleProvider { enabled: true, name: n, url: u, behavior, format, interval, target })
}

/// A provider's profile contributes its nodes and nothing else: two profiles
/// with the same nodes give the same config, whatever else they hold.
pub proof fn law_only_nodes_reach_the_config(cfg: AppConfig, a: Seq<char>, b: Seq<char>)
    requires
        extracted(a) is Ok,
        extracted(b) is Ok,
        extracted(a)->Ok_0.0 == extracted(b)->Ok_0.0,
    ensures
        printed_config(cfg, Some(a)) == printed_config(cfg, Some(b)),
        active_nodes(cfg, Some(a)) == active_nodes(cfg, Some(b)),
{
}

/// Removing a subscription leaves none with its id behind.
pub proof fn law_removed_is_gone(subs: Seq<Subscription>, id: Seq<char>, i: int)
    requires
        0 <= i < without_id(subs, id).len(),
    ensures
        without_id(subs, id)[i].id@ != id,
{
    subs.lemma_filter_pred(other_than(id), i);
}

} // verus!
