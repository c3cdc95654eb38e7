//! Subscription fetching. Only Clash/Mihomo YAML is accepted, and only its
//! `proxies` section is kept — see `template.rs` for why. The request itself
//! is sent by the caller; this module decides what goes into it and what the
//! answer means.

use vstd::prelude::*;
use vstd::string::StringExecFns;

use crate::config::{
    default_user_agent, hwid_header_names, hwid_value, opt_view, unless_blank, HwidMode, HwidSettings,
    MachineFacts, Subscription, UserInfo,
};
use crate::json::{jget, json_parse, jstr, parse_json};
use crate::text::{
    contains, contains_str, find_char, first_chars, index_of_char, lowercase, parse_i64,
    parse_i64_spec, parse_u64, parse_u64_spec, push_decimal, decimal, replace_all, replaced,
    split_char, split_on, to_lowercase, trim, trimmed, chars_of, blank,
};
use crate::yaml::{
    all_named, as_items, as_text, get_key, items_view, lemma_named_parts, parse_yaml, yaml_parse, Yaml,
    YamlV,
};

verus! {

#[derive(Debug)]
pub enum FetchError {
    DeviceLimit(String),
    Http { status: u16, message: String },
    Network(String),
    NotClash(String),
    Io(String),
}

/// The message each error is shown with.
pub open spec fn fetch_error_text(e: FetchError) -> Seq<char> {
    match e {
        FetchError::DeviceLimit(m) => "device limit reached: "@ + m@,
        FetchError::Http { status, message } => "server returned HTTP "@ + decimal(status as nat)
            + ": "@ + message@,
        FetchError::Network(m) => "network error: "@ + m@,
        FetchError::NotClash(m) => "this is not a Clash/Mihomo YAML profile ("@ + m@ + ")"@,
        FetchError::Io(m) => "could not store the profile: "@ + m@,
    }
}

impl FetchError {
    /// The error as the user reads it.
    pub fn message(&self) -> (r: String)
        ensures
            r@ == fetch_error_text(*self),
    {
        match self {
            FetchError::DeviceLimit(m) => {
                let mut s = String::from_str("device limit reached: ");
                s.append(m.as_str());
                s
            },
            FetchError::Http { status, message } => {
                let mut s = String::from_str("server returned HTTP ");
                push_decimal(&mut s, *status as u64);
                s.append(": ");
                s.append(message.as_str());
                s
            },
            FetchError::Network(m) => {
                let mut s = String::from_str("network error: ");
                s.append(m.as_str());
                s
            },
            FetchError::NotClash(m) => {
                let mut s = String::from_str("this is not a Clash/Mihomo YAML profile (");
                s.append(m.as_str());
                s.append(")");
                s
            },
            FetchError::Io(m) => {
                let mut s = String::from_str("could not store the profile: ");
                s.append(m.as_str());
                s
            },
        }
    }
}

#[derive(Debug)]
pub struct Fetched {
    pub proxies: Vec<Yaml>,
    pub user_info: Option<UserInfo>,
    pub title: Option<String>,
}

// ---------------------------------------------------------------- subscription-userinfo

/// What one `key=value` piece of the header changes.
pub open spec fn apply_info_part(info: UserInfo, part: Seq<char>) -> UserInfo {
    match find_char(part, '=') {
        None => info,
        Some(i) => {
            let key = trimmed(part.subrange(0, i));
            let value = trimmed(part.subrange(i + 1, part.len() as int));
            let n = match parse_u64_spec(value) {
                Some(x) => x,
                None => 0,
            };
            if key == "upload"@ {
                UserInfo { upload: n, ..info }
            } else if key == "download"@ {
                UserInfo { download: n, ..info }
            } else if key == "total"@ {
                UserInfo { total: n, ..info }
            } else if key == "expire"@ {
                UserInfo {
                    expire: match parse_i64_spec(value) {
                        Some(x) => x,
                        None => 0,
                    },
                    ..info
                }
            } else {
                info
            }
        },
    }
}

/// The pieces applied in order, starting from all zeros.
pub open spec fn user_info_of_parts(parts: Seq<Seq<char>>) -> UserInfo
    decreases parts.len(),
{
    if parts.len() == 0 {
        UserInfo { upload: 0, download: 0, total: 0, expire: 0 }
    } else {
        apply_info_part(user_info_of_parts(parts.drop_last()), parts.last())
    }
}

/// `upload=1; download=2; total=3; expire=4`: pieces split at `;`, each at
/// its first `=`, both sides trimmed; unknown keys are ignored and a value
/// that does not parse counts as 0.
pub open spec fn user_info_of(header: Seq<char>) -> UserInfo {
    user_info_of_parts(split_on(header, ';'))
}

/// Reads a `subscription-userinfo` header.
pub fn parse_user_info(header: &str) -> (r: UserInfo)
    ensures
        r == user_info_of(header@),
{
    let parts = split_char(header, ';');
    let ghost all = split_on(header@, ';');
    let mut info = UserInfo::default();
    let mut k: usize = 0;
    while k < parts.len()
        invariant
            k <= parts@.len() == all.len(),
            forall|j: int| 0 <= j < parts@.len() ==> #[trigger] parts@[j]@ == all[j],
            info == user_info_of_parts(all.take(k as int)),
        decreases parts@.len() - k,
    {
        proof {
            assert(all.take(k + 1).drop_last() =~= all.take(k as int));
            assert(all.take(k + 1).last() == parts@[k as int]@);
        }
        let part = &parts[k];
        let pv = chars_of(part.as_str());
        match index_of_char(&pv, '=') {
            None => {},
            Some(i) => {
                let key = trim(part.as_str().substring_char(0, i));
                let value = trim(part.as_str().substring_char(i + 1, pv.len()));
                let n = match parse_u64(value.as_str()) {
                    Some(x) => x,
                    None => 0,
                };
                if crate::text::str_eq(key.as_str(), "upload") {
                    info.upload = n;
                } else if crate::text::str_eq(key.as_str(), "download") {
                    info.download = n;
                } else if crate::text::str_eq(key.as_str(), "total") {
                    info.total = n;
                } else if crate::text::str_eq(key.as_str(), "expire") {
                    info.expire = match parse_i64(value.as_str()) {
                        Some(x) => x,
                        None => 0,
                    };
                }
            },
        }
        k = k + 1;
    }
    assert(all.take(parts@.len() as int) =~= all);
    info
}

// ---------------------------------------------------------------- error bodies

/// What a panel's error body says: a JSON `message` (or, without one, an
/// `error`) that is a string; otherwise the body's first 300 characters.
pub open spec fn error_message(body: Seq<char>) -> Seq<char> {
    let from_json = match json_parse(body) {
        Some(v) => match jget(v, "message"@) {
            Some(m) => jstr(m),
            None => match jget(v, "error"@) {
                Some(e) => jstr(e),
                None => None,
            },
        },
        None => None,
    };
    match from_json {
        Some(m) => m,
        None => body.take(if body.len() < 300 { body.len() as int } else { 300 }),
    }
}

/// Whether a message reads like a device-limit refusal.
pub open spec fn looks_like_limit(message: Seq<char>) -> bool {
    let lowered = lowercase(message);
    contains(lowered, "device"@) || contains(lowered, "hwid"@) || contains(lowered, "limit"@)
        || contains(lowered, "устройств"@)
}

/// A 4xx whose message reads like a device limit is its own error; everything
/// else is reported with its status and message.
pub open spec fn classified(status: u16, body: Seq<char>) -> (bool, Seq<char>) {
    let message = error_message(body);
    (400 <= status < 500 && looks_like_limit(message), message)
}

fn message_of_body(body: &str) -> (r: String)
    ensures
        r@ == error_message(body@),
{
    let from_json: Option<String> = match parse_json(body) {
        Some(v) => match v.get("message") {
            Some(m) => match m.as_str() {
                Some(s) => Some(s.clone()),
                None => None,
            },
            None => match v.get("error") {
                Some(e) => match e.as_str() {
                    Some(s) => Some(s.clone()),
                    None => None,
                },
                None => None,
            },
        },
        None => None,
    };
    match from_json {
        Some(m) => m,
        None => first_chars(body, 300),
    }
}

/// Remnawave answers a rejected device with a 4xx and a JSON body; everything
/// else is reported verbatim so the user can see what the panel said.
pub fn classify_error(status: u16, body: &str) -> (r: FetchError)
    ensures
        ({
            let (limit, message) = classified(status, body@);
            if limit {
                r matches FetchError::DeviceLimit(m) && m@ == message
            } else {
                r matches FetchError::Http { status: s, message: m } && s == status && m@
                    == message
            }
        }),
{
    let message = message_of_body(body);
    let lowered = to_lowercase(message.as_str());
    let looks = contains_str(lowered.as_str(), "device") || contains_str(lowered.as_str(), "hwid")
        || contains_str(lowered.as_str(), "limit") || contains_str(lowered.as_str(), "устройств");
    if 400 <= status && status < 500 && looks {
        FetchError::DeviceLimit(message)
    } else {
        FetchError::Http { status, message }
    }
}

// ---------------------------------------------------------------- profiles

/// What a profile text yields: its `proxies` list and its `profile-name`, or
/// why it is not a Clash/Mihomo profile.
pub open spec fn extracted(raw: Seq<char>) -> Result<(Seq<YamlV>, Option<Seq<char>>), Seq<char>> {
    match yaml_parse(raw) {
        Err(e) => Err("YAML parse failed: "@ + e),
        Ok(doc) => match get_key(doc, "proxies"@) {
            None => Err("no `proxies:` section"@),
            Some(p) => match as_items(p) {
                None => Err("`proxies:` is not a list"@),
                Some(list) => if list.len() == 0 {
                    Err("`proxies:` is empty"@)
                } else {
                    Ok(
                        (
                            list,
                            match get_key(doc, "profile-name"@) {
                                Some(t) => as_text(t),
                                None => None,
                            },
                        ),
                    )
                },
            },
        },
    }
}

fn not_clash(message: &str) -> (e: FetchError)
    ensures
        e matches FetchError::NotClash(m) && m@ == message@,
{
    FetchError::NotClash(String::from_str(message))
}

/// The nodes of a profile and the name some panels put in it.
pub fn extract_proxies(raw: &str) -> (r: Result<(Vec<Yaml>, Option<String>), FetchError>)
    ensures
        match r {
            Ok((list, title)) => extracted(raw@) == Ok::<
                (Seq<YamlV>, Option<Seq<char>>),
                Seq<char>,
            >((items_view(list@), opt_view(title))) && all_named(items_view(list@)),
            Err(e) => e matches FetchError::NotClash(m) && extracted(raw@) == Err::<
                (Seq<YamlV>, Option<Seq<char>>),
                Seq<char>,
            >(m@),
        },
{
    let doc = match parse_yaml(raw) {
        Ok(d) => d,
        Err(e) => {
            let mut m = String::from_str("YAML parse failed: ");
            m.append(e.as_str());
            return Err(FetchError::NotClash(m));
        },
    };
    let proxies = match doc.get("proxies") {
        Some(p) => p,
        None => return Err(not_clash("no `proxies:` section")),
    };
    let list = match proxies.as_sequence() {
        Some(l) => l,
        None => return Err(not_clash("`proxies:` is not a list")),
    };
    proof {
        lemma_named_parts(doc@);
        lemma_named_parts(proxies@);
    }
    if list.len() == 0 {
        return Err(not_clash("`proxies:` is empty"));
    }
    // Some panels put a human-readable name in the profile.
    let title = match doc.get("profile-name") {
        Some(t) => match t.as_str() {
            Some(s) => Some(s.clone()),
            None => None,
        },
        None => None,
    };
    let mut copies: Vec<Yaml> = Vec::new();
    let mut i: usize = 0;
    while i < list.len()
        invariant
            i <= list@.len(),
            copies@.len() == i,
            forall|j: int| 0 <= j < i ==> (#[trigger] copies@[j])@ == list@[j]@,
        decreases list@.len() - i,
    {
        copies.push(list[i].deep_clone());
        i = i + 1;
    }
    assert(items_view(copies@) =~= items_view(list@));
    assert(all_named(items_view(list@)));
    Ok((copies, title))
}

/// The nodes of a previously downloaded profile, so the core can be started
/// offline; the caller reads the file.
pub fn load_cached(raw: &str) -> (r: Option<Vec<Yaml>>)
    ensures
        match r {
            Some(list) => extracted(raw@) matches Ok((nodes, _)) && nodes == items_view(list@)
                && all_named(nodes),
            None => extracted(raw@) is Err,
        },
{
    match extract_proxies(raw) {
        Ok((list, _)) => Some(list),
        Err(_) => None,
    }
}

// ---------------------------------------------------------------- the request

/// A header-name character with ASCII case folded away: HTTP header names
/// are compared without regard to case.
pub open spec fn fold_code(c: char) -> u32 {
    if 65 <= (c as u32) <= 90 {
        ((c as u32) + 32) as u32
    } else {
        c as u32
    }
}

/// Whether `a` and `b` name the same HTTP header.
pub open spec fn same_header_name(a: Seq<char>, b: Seq<char>) -> bool {
    &&& a.len() == b.len()
    &&& forall|i: int| 0 <= i < a.len() ==> fold_code(#[trigger] a[i]) == fold_code(b[i])
}

/// Whether some entry of `hs` names the header `name`.
pub open spec fn names_header(hs: Seq<(Seq<char>, Seq<char>)>, name: Seq<char>) -> bool {
    exists|j: int| 0 <= j < hs.len() && same_header_name(#[trigger] hs[j].0, name)
}

/// The entries of `ids` whose header the user's headers `user` do not name,
/// in order.
pub open spec fn not_overridden(
    ids: Seq<(Seq<char>, Seq<char>)>,
    user: Seq<(Seq<char>, Seq<char>)>,
) -> Seq<(Seq<char>, Seq<char>)>
    decreases ids.len(),
{
    if ids.len() == 0 {
        Seq::empty()
    } else if names_header(user, ids.last().0) {
        not_overridden(ids.drop_last(), user)
    } else {
        not_overridden(ids.drop_last(), user).push(ids.last())
    }
}

/// The identity headers: all of them when HWID sending is on, otherwise just
/// the User-Agent.
pub open spec fn identity_headers(sub: Subscription, hwid: HwidSettings, machine: MachineFacts) -> Seq<
    (Seq<char>, Seq<char>),
> {
    let id = hwid_value(hwid.mode, hwid.manual@, opt_view(machine.derived_hwid));
    if sub.send_hwid {
        seq![
            ("user-agent"@, unless_blank(hwid.user_agent@, default_user_agent())),
            ("x-hwid"@, id),
            ("x-device-os"@, hwid.device_os@),
            ("x-ver-os"@, unless_blank(hwid.ver_os@, machine.os_version@)),
            ("x-device-model"@, unless_blank(hwid.device_model@, machine.device_model@)),
        ]
    } else {
        seq![("user-agent"@, unless_blank(hwid.user_agent@, default_user_agent()))]
    }
}

/// The names and values as a sequence of texts.
pub open spec fn pair_views(v: Seq<(String, String)>) -> Seq<(Seq<char>, Seq<char>)> {
    Seq::new(v.len(), |i: int| (v[i].0@, v[i].1@))
}

/// The headers sent with a subscription request, in order: the identity
/// headers, leaving out each one that the subscription's own headers name
/// too (the user's value wins; names compare without regard to case), then
/// the subscription's own headers with `{hwid}` replaced by the identifier.
pub open spec fn request_header_plan(sub: Subscription, hwid: HwidSettings, machine: MachineFacts) -> Seq<
    (Seq<char>, Seq<char>),
> {
    let id = hwid_value(hwid.mode, hwid.manual@, opt_view(machine.derived_hwid));
    not_overridden(identity_headers(sub, hwid, machine), sub.headers@) + Seq::new(
        sub.headers@.len(),
        |i: int| (sub.headers@[i].0, replaced(sub.headers@[i].1, "{hwid}"@, id)),
    )
}

/// What leaving out the overridden identity headers keeps: none that the
/// user's headers name, each taken from `ids`, and every one they do not name.
pub proof fn lemma_not_overridden(ids: Seq<(Seq<char>, Seq<char>)>, user: Seq<(Seq<char>, Seq<char>)>)
    ensures
        forall|k: int|
            0 <= k < not_overridden(ids, user).len() ==> !names_header(
                user,
                (#[trigger] not_overridden(ids, user)[k]).0,
            ) && ids.contains(not_overridden(ids, user)[k]),
        forall|k: int|
            0 <= k < ids.len() && !names_header(user, (#[trigger] ids[k]).0) ==> not_overridden(
                ids,
                user,
            ).contains(ids[k]),
    decreases ids.len(),
{
    if ids.len() > 0 {
        let rest = ids.drop_last();
        lemma_not_overridden(rest, user);
        let r = not_overridden(ids, user);
        let rr = not_overridden(rest, user);
        assert forall|k: int| 0 <= k < r.len() implies !names_header(user, (#[trigger] r[k]).0)
            && ids.contains(r[k]) by {
            if k < rr.len() {
                assert(r[k] == rr[k]);
                let j = choose|j: int| 0 <= j < rest.len() && rest[j] == rr[k];
                assert(ids[j] == rest[j]);
            } else {
                assert(r[k] == ids.last());
                assert(ids[ids.len() - 1] == ids.last());
            }
        }
        assert forall|k: int| 0 <= k < ids.len() && !names_header(user, (#[trigger] ids[k]).0)
            implies r.contains(ids[k]) by {
            if k < ids.len() - 1 {
                assert(rest[k] == ids[k]);
                assert(rr.contains(rest[k]));
                let j = choose|j: int| 0 <= j < rr.len() && rr[j] == rest[k];
                assert(r[j] == rr[j]);
            } else {
                assert(ids[k] == ids.last());
                assert(r[rr.len() as int] == ids.last());
            }
        }
    }
}

/// User headers win: no identity header is sent under a name that one of
/// the subscription's own headers uses (compared without regard to case),
/// every identity header whose name none of them uses is sent, and the
/// subscription's headers all follow, in order.
pub proof fn law_user_headers_win(sub: Subscription, hwid: HwidSettings, machine: MachineFacts)
    ensures
        ({
            let plan = request_header_plan(sub, hwid, machine);
            let ids = identity_headers(sub, hwid, machine);
            let kept = not_overridden(ids, sub.headers@);
            let id = hwid_value(hwid.mode, hwid.manual@, opt_view(machine.derived_hwid));
            &&& plan.len() == kept.len() + sub.headers@.len()
            &&& forall|k: int|
                0 <= k < kept.len() ==> !names_header(sub.headers@, (#[trigger] plan[k]).0)
                    && ids.contains(plan[k])
            &&& forall|k: int|
                0 <= k < ids.len() && !names_header(sub.headers@, (#[trigger] ids[k]).0)
                    ==> plan.contains(ids[k])
            &&& forall|j: int|
                0 <= j < sub.headers@.len() ==> #[trigger] plan[kept.len() + j] == (
                    sub.headers@[j].0,
                    replaced(sub.headers@[j].1, "{hwid}"@, id),
                )
        }),
{
    let plan = request_header_plan(sub, hwid, machine);
    let ids = identity_headers(sub, hwid, machine);
    let kept = not_overridden(ids, sub.headers@);
    lemma_not_overridden(ids, sub.headers@);
    assert forall|k: int| 0 <= k < kept.len() implies !names_header(sub.headers@, (#[trigger] plan[k]).0)
        && ids.contains(plan[k]) by {
        assert(plan[k] == kept[k]);
    }
    assert forall|k: int|
        0 <= k < ids.len() && !names_header(sub.headers@, (#[trigger] ids[k]).0) implies plan.contains(
        ids[k],
    ) by {
        let j = choose|j: int| 0 <= j < kept.len() && kept[j] == ids[k];
        assert(plan[j] == kept[j]);
    }
}

/// The identifier a request carries: in manual mode a manual value that is
/// not blank is sent trimmed, whatever identifier the machine yields;
/// otherwise the machine's identifier is sent, or an empty value when there
/// is none.
pub proof fn law_hwid_value(
    mode: HwidMode,
    manual: Seq<char>,
    derived: Option<Seq<char>>,
    other: Option<Seq<char>>,
)
    ensures
        mode == HwidMode::Manual && !blank(manual) ==> hwid_value(mode, manual, derived) == trimmed(
            manual,
        ) && hwid_value(mode, manual, derived) == hwid_value(mode, manual, other),
        !(mode == HwidMode::Manual && !blank(manual)) ==> hwid_value(mode, manual, derived)
            == match derived {
            Some(d) => d,
            None => Seq::<char>::empty(),
        },
{
}

/// With HWID sending on, and no header of the subscription's own named
/// `x-hwid`, the request carries `x-hwid` with the manual value (manual mode,
/// not blank, trimmed) or else the machine's identifier.
pub proof fn law_hwid_header_sent(sub: Subscription, hwid: HwidSettings, machine: MachineFacts)
    requires
        sub.send_hwid,
        !names_header(sub.headers@, "x-hwid"@),
    ensures
        request_header_plan(sub, hwid, machine).contains(
            (
                "x-hwid"@,
                if hwid.mode == HwidMode::Manual && !blank(hwid.manual@) {
                    trimmed(hwid.manual@)
                } else {
                    match machine.derived_hwid {
                        Some(d) => d@,
                        None => Seq::<char>::empty(),
                    }
                },
            ),
        ),
{
    law_user_headers_win(sub, hwid, machine);
    let ids = identity_headers(sub, hwid, machine);
    assert(ids[1] == ("x-hwid"@, hwid_value(hwid.mode, hwid.manual@, opt_view(machine.derived_hwid))));
    assert(!names_header(sub.headers@, ids[1].0));
}

/// The message taken from an error body: a JSON object's `message` when it
/// is a string; without a `message` member, its `error` when that is a
/// string; otherwise the body itself, cut to its first 300 characters.
pub proof fn law_error_message(body: Seq<char>)
    ensures
        json_parse(body) matches Some(v) ==> (jget(v, "message"@) matches Some(m) ==> (jstr(m) is Some
            ==> error_message(body) == jstr(m)->0)),
        json_parse(body) matches Some(v) ==> (jget(v, "message"@) is None ==> (jget(v, "error"@) matches Some(
            e,
        ) ==> (jstr(e) is Some ==> error_message(body) == jstr(e)->0))),
        (match json_parse(body) {
            Some(v) => match jget(v, "message"@) {
                Some(m) => jstr(m) is None,
                None => match jget(v, "error"@) {
                    Some(e) => jstr(e) is None,
                    None => true,
                },
            },
            None => true,
        }) ==> (error_message(body).len() == (if body.len() <= 300 {
            body.len() as int
        } else {
            300
        }) && error_message(body) == body.subrange(0, error_message(body).len() as int)),
{
}

/// How each download error reads: `device limit reached: `, `server returned
/// HTTP <status>: `, `network error: `, `this is not a Clash/Mihomo YAML
/// profile (...)` and `could not store the profile: ` before the detail.
pub proof fn law_fetch_error_text(e: FetchError)
    ensures
        e matches FetchError::DeviceLimit(m) ==> fetch_error_text(e) == "device limit reached: "@ + m@,
        e matches FetchError::Http { status, message } ==> fetch_error_text(e)
            == "server returned HTTP "@ + decimal(status as nat) + ": "@ + message@,
        e matches FetchError::Network(m) ==> fetch_error_text(e) == "network error: "@ + m@,
        e matches FetchError::NotClash(m) ==> fetch_error_text(e)
            == "this is not a Clash/Mihomo YAML profile ("@ + m@ + ")"@,
        e matches FetchError::Io(m) ==> fetch_error_text(e) == "could not store the profile: "@ + m@,
{
}

/// A failed download is a device-limit refusal exactly when the status is a
/// 4xx and the panel's message, lowercased, mentions `device`, `hwid`,
/// `limit` or `устройств`; the message shown is the panel's message either
/// way.
pub proof fn law_device_limit(status: u16, body: Seq<char>)
    ensures
        classified(status, body).1 == error_message(body),
        classified(status, body).0 <==> (400 <= status <= 499 && ({
            let lowered = lowercase(error_message(body));
            ||| contains(lowered, "device"@)
            ||| contains(lowered, "hwid"@)
            ||| contains(lowered, "limit"@)
            ||| contains(lowered, "устройств"@)
        })),
{
}

fn fold_char(c: char) -> (r: u32)
    ensures
        r == fold_code(c),
{
    let u = c as u32;
    if 65 <= u && u <= 90 {
        u + 32
    } else {
        u
    }
}

/// Whether `a` and `b` name the same HTTP header.
pub fn same_header(a: &str, b: &str) -> (r: bool)
    ensures
        r == same_header_name(a@, b@),
{
    let x = chars_of(a);
    let y = chars_of(b);
    if x.len() != y.len() {
        return false;
    }
    let mut i: usize = 0;
    while i < x.len()
        invariant
            x@ == a@,
            y@ == b@,
            x@.len() == y@.len(),
            i <= x@.len(),
            forall|k: int| 0 <= k < i ==> fold_code(#[trigger] a@[k]) == fold_code(b@[k]),
        decreases x@.len() - i,
    {
        if fold_char(x[i]) != fold_char(y[i]) {
            return false;
        }
        i = i + 1;
    }
    true
}

fn names_taken(extra: &Vec<(String, String)>, name: &str) -> (r: bool)
    ensures
        r == names_header(pair_views(extra@), name@),
{
    let ghost pv = pair_views(extra@);
    let mut j: usize = 0;
    while j < extra.len()
        invariant
            j <= extra@.len(),
            pv == pair_views(extra@),
            forall|k: int| 0 <= k < j ==> !same_header_name(#[trigger] pv[k].0, name@),
        decreases extra@.len() - j,
    {
        assert(pv[j as int].0 == extra@[j as int].0@);
        if same_header(extra[j].0.as_str(), name) {
            return true;
        }
        j = j + 1;
    }
    false
}

/// What `fetch` puts on the request: header names and values, in the order
/// they are added.
pub fn request_headers(sub: &Subscription, hwid: &HwidSettings, machine: &MachineFacts) -> (r: Vec<
    (String, String),
>)
    ensures
        pair_views(r@) == request_header_plan(*sub, *hwid, *machine),
{
    let id = hwid.value(&machine.derived_hwid);
    let ids: Vec<(String, String)> = if sub.send_hwid {
        hwid.headers(machine)
    } else {
        let mut v = Vec::new();
        v.push((String::from_str("user-agent"), hwid.effective_user_agent()));
        v
    };
    let ghost idv = identity_headers(*sub, *hwid, *machine);
    proof {
        if sub.send_hwid {
            assert(ids@[0].0@ == hwid_header_names()[0]);
            assert(ids@[1].0@ == hwid_header_names()[1]);
            assert(ids@[2].0@ == hwid_header_names()[2]);
            assert(ids@[3].0@ == hwid_header_names()[3]);
            assert(ids@[4].0@ == hwid_header_names()[4]);
        }
        assert(pair_views(ids@) =~= idv);
    }
    let extra = sub.headers.entries();
    proof {
        assert(pair_views(extra@) =~= sub.headers@);
    }
    let mut out: Vec<(String, String)> = Vec::new();
    let mut k: usize = 0;
    while k < ids.len()
        invariant
            k <= ids@.len(),
            pair_views(ids@) == idv,
            pair_views(extra@) == sub.headers@,
            pair_views(out@) == not_overridden(idv.take(k as int), sub.headers@),
        decreases ids@.len() - k,
    {
        let ghost t = idv.take(k + 1);
        assert(t.drop_last() =~= idv.take(k as int));
        assert(t.last() == idv[k as int]);
        assert(idv[k as int] == (ids@[k as int].0@, ids@[k as int].1@));
        let ghost before = pair_views(out@);
        if !names_taken(&extra, ids[k].0.as_str()) {
            out.push((ids[k].0.clone(), ids[k].1.clone()));
            assert(pair_views(out@) =~= before.push(idv[k as int]));
        }
        k = k + 1;
    }
    assert(idv.take(ids@.len() as int) =~= idv);
    let ghost kept = pair_views(out@);
    // User headers may reference the identifier via {hwid}.
    let mut i: usize = 0;
    while i < extra.len()
        invariant
            i <= extra@.len() == sub.headers@.len(),
            pair_views(extra@) == sub.headers@,
            id@ == hwid_value(hwid.mode, hwid.manual@, opt_view(machine.derived_hwid)),
            pair_views(out@) == kept + Seq::new(
                i as nat,
                |j: int| (sub.headers@[j].0, replaced(sub.headers@[j].1, "{hwid}"@, id@)),
            ),
        decreases extra@.len() - i,
    {
        proof {
            reveal_strlit("{hwid}");
        }
        let ghost before = pair_views(out@);
        let value = replace_all(extra[i].1.as_str(), "{hwid}", id.as_str());
        assert(extra@[i as int].0@ == sub.headers@[i as int].0);
        assert(extra@[i as int].1@ == sub.headers@[i as int].1);
        let ghost entry = (sub.headers@[i as int].0, replaced(sub.headers@[i as int].1, "{hwid}"@, id@));
        assert(value@ == entry.1);
        out.push((extra[i].0.clone(), value));
        assert(pair_views(out@) =~= before.push(entry));
        assert(pair_views(out@) =~= kept + Seq::new(
            (i + 1) as nat,
            |j: int| (sub.headers@[j].0, replaced(sub.headers@[j].1, "{hwid}"@, id@)),
        ));
        i = i + 1;
    }
    out
}

/// What a finished request means: a non-2xx status is classified, a 2xx
/// body must be a Clash profile. The title header wins over the profile's
/// own name. The caller stores the body when this is `Ok`.
pub fn interpret_response(
    status: u16,
    body: &str,
    userinfo_header: Option<String>,
    title_header: Option<String>,
) -> (r: Result<Fetched, FetchError>)
    ensures
        !(200 <= status <= 299) ==> ({
            let (limit, message) = classified(status, body@);
            if limit {
                r matches Err(FetchError::DeviceLimit(m)) && m@ == message
            } else {
                r matches Err(FetchError::Http { status: s, message: m }) && s == status && m@
                    == message
            }
        }),
        200 <= status <= 299 ==> match extracted(body@) {
            Err(m) => r matches Err(FetchError::NotClash(e)) && e@ == m,
            Ok((nodes, doc_title)) => r matches Ok(f) && items_view(f.proxies@) == nodes
                && f.user_info == match userinfo_header {
                Some(h) => Some(user_info_of(h@)),
                None => None::<UserInfo>,
            } && opt_view(f.title) == match title_header {
                Some(t) => Some(t@),
                None => doc_title,
            },
        },
{
    if !(200 <= status && status <= 299) {
        return Err(classify_error(status, body));
    }
    let (proxies, doc_title) = extract_proxies(body)?;
    let user_info = match &userinfo_header {
        Some(h) => Some(parse_user_info(h.as_str())),
        None => None,
    };
    let title = match title_header {
        Some(t) => Some(t),
        None => doc_title,
    };
    Ok(Fetched { proxies, user_info, title })
}

} // verus!
