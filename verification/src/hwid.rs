//! Device identity. The HWID is a UUIDv5 derived from the machine id under an
//! application-specific namespace, so the raw machine id never leaves the
//! host while the value stays stable across reboots and NixOS generations.
//! The caller reads `/etc/machine-id`, `/var/lib/dbus/machine-id`,
//! `/etc/os-release` and `/etc/hostname`; this module decides what they mean.

use vstd::prelude::*;
use vstd::string::StringExecFns;
use vstd::string::StringSliceAdditionalSpecFns;
use vstd::utf8::encode_utf8;

use crate::api::strip_trailing;
use crate::config::{is_hyphenated_uuid, opt_view};
use crate::text::{
    chars_of, find_char, index_of_char, is_blank, lines, lines_of, str_eq, trim,
    trimmed,
};

verus! {

/// Namespace UUID for MihomoManifold, `1e0f6d9a-4c3b-4f2a-9c7e-8d5b2a1f6c40`.
/// Changing it invalidates every device slot.
pub open spec fn hwid_namespace() -> u128 {
    0x1e0f6d9a4c3b4f2a9c7e8d5b2a1f6c40
}

/// The version 5 UUID of `name` in `namespace`, hyphenated, as `uuid` writes
/// it.
pub uninterp spec fn uuid_v5_text(namespace: u128, name: Seq<u8>) -> Seq<char>;

/// `Uuid::new_v5(&Uuid::from_u128(namespace), name).to_string()`. The SHA-1
/// hashing is not written out here: the result is named by `uuid_v5_text`;
/// only its hyphenated lowercase shape is claimed besides.
#[verifier::external_body]
fn uuid_v5(namespace: u128, name: &[u8]) -> (r: String)
    ensures
        r@ == uuid_v5_text(namespace, name@),
        is_hyphenated_uuid(r@),
{
    uuid::Uuid::new_v5(&uuid::Uuid::from_u128(namespace), name).to_string()
}

/// The contents of the machine-id files, in the order they are tried.
pub open spec fn contents_view(files: Seq<Option<String>>) -> Seq<Option<Seq<char>>> {
    files.map_values(|f: Option<String>| opt_view(f))
}

/// The machine id: the first of the files that holds more than whitespace,
/// trimmed.
pub open spec fn machine_id(files: Seq<Option<Seq<char>>>) -> Option<Seq<char>>
    decreases files.len(),
{
    if files.len() == 0 {
        None
    } else {
        match files[0] {
            Some(t) => if trimmed(t).len() > 0 {
                Some(trimmed(t))
            } else {
                machine_id(files.drop_first())
            },
            None => machine_id(files.drop_first()),
        }
    }
}

/// Whether a file could be read and holds more than whitespace.
pub open spec fn usable(f: Option<Seq<char>>) -> bool {
    f is Some && trimmed(f->0).len() > 0
}

/// The machine id is the first file, in order, that could be read and holds
/// more than whitespace, trimmed; there is none when no file does.
pub proof fn law_machine_id(files: Seq<Option<Seq<char>>>)
    ensures
        machine_id(files) is Some ==> exists|i: int|
            0 <= i < files.len() && usable(#[trigger] files[i]) && machine_id(files)->0 == trimmed(
                files[i]->0,
            ) && forall|j: int| 0 <= j < i ==> !usable(#[trigger] files[j]),
        machine_id(files) is None <==> forall|i: int| 0 <= i < files.len() ==> !usable(#[trigger] files[i]),
    decreases files.len(),
{
    if files.len() > 0 {
        let rest = files.drop_first();
        law_machine_id(rest);
        if usable(files[0]) {
            assert(usable(files[0]));
        } else {
            if machine_id(rest) is Some {
                let i = choose|i: int|
                    0 <= i < rest.len() && usable(#[trigger] rest[i]) && machine_id(rest)->0 == trimmed(
                        rest[i]->0,
                    ) && forall|j: int| 0 <= j < i ==> !usable(#[trigger] rest[j]);
                assert(files[i + 1] == rest[i]);
                assert forall|j: int| 0 <= j < i + 1 implies !usable(#[trigger] files[j]) by {
                    if j > 0 {
                        assert(files[j] == rest[j - 1]);
                    }
                }
            } else {
                assert forall|i: int| 0 <= i < files.len() implies !usable(#[trigger] files[i]) by {
                    if i > 0 {
                        assert(files[i] == rest[i - 1]);
                    }
                }
            }
            if exists|i: int| 0 <= i < files.len() && usable(#[trigger] files[i]) {
                let i = choose|i: int| 0 <= i < files.len() && usable(#[trigger] files[i]);
                assert(rest[i - 1] == files[i]);
            }
        }
    }
}

/// The stable per-machine identifier sent as `x-hwid`, from the contents of
/// the machine-id files (`None` where one could not be read).
pub fn derive(files: &Vec<Option<String>>) -> (r: Result<String, String>)
    ensures
        match machine_id(contents_view(files@)) {
            Some(id) => r matches Ok(h) && h@ == uuid_v5_text(hwid_namespace(), encode_utf8(id)),
            None => r matches Err(e) && e@
                == "deriving HWID: no machine-id found; set an HWID manually in Settings"@,
        },
{
    let ghost all = contents_view(files@);
    let mut i: usize = 0;
    proof {
        assert(all.skip(0) =~= all);
    }
    while i < files.len()
        invariant
            i <= files@.len(),
            all == contents_view(files@),
            machine_id(all) == machine_id(all.skip(i as int)),
        decreases files@.len() - i,
    {
        proof {
            assert(all.skip(i as int)[0] == opt_view(files@[i as int]));
            assert(all.skip(i as int).drop_first() =~= all.skip(i + 1));
        }
        match &files[i] {
            Some(raw) => {
                let id = trim(raw.as_str());
                if !is_blank(id.as_str()) {
                    proof {
                        crate::text::lemma_trimmed_idempotent(raw@);
                    }
                    return Ok(uuid_v5(0x1e0f6d9a4c3b4f2a9c7e8d5b2a1f6c40, id.as_str().as_bytes()));
                }
                proof {
                    crate::text::lemma_trimmed_idempotent(raw@);
                }
            },
            None => {},
        }
        i = i + 1;
    }
    proof {
        assert(all.skip(i as int).len() == 0);
    }
    Err(String::from_str("deriving HWID: no machine-id found; set an HWID manually in Settings"))
}

/// `s` without any leading `c`.
pub open spec fn strip_leading(s: Seq<char>, c: char) -> Seq<char>
    decreases s.len(),
{
    if s.len() > 0 && s[0] == c {
        strip_leading(s.drop_first(), c)
    } else {
        s
    }
}

/// `str::trim_matches(c)`: `s` without `c` at either end.
pub open spec fn trim_char(s: Seq<char>, c: char) -> Seq<char> {
    strip_trailing(strip_leading(s, c), c)
}

fn trim_matches(s: &str, c: char) -> (r: String)
    ensures
        r@ == trim_char(s@, c),
{
    let v = chars_of(s);
    let mut i: usize = 0;
    proof {
        assert(v@.skip(0) =~= v@);
    }
    while i < v.len() && v[i] == c
        invariant
            i <= v@.len(),
            strip_leading(v@.skip(i as int), c) == strip_leading(v@, c),
        decreases v@.len() - i,
    {
        assert(v@.skip(i as int).drop_first() =~= v@.skip(i + 1));
        i = i + 1;
    }
    let ghost front = v@.skip(i as int);
    assert(strip_leading(front, c) == front);
    let mut j: usize = v.len();
    proof {
        assert(front.take((j - i) as int) =~= front);
    }
    while j > i && v[j - 1] == c
        invariant
            i <= j <= v@.len(),
            front == v@.skip(i as int),
            strip_trailing(front.take(j - i), c) == strip_trailing(front, c),
        decreases j,
    {
        assert(front.take(j - i).drop_last() =~= front.take(j - 1 - i));
        j = j - 1;
    }
    assert(strip_trailing(front.take(j - i), c) == front.take(j - i));
    assert(front.take(j - i) =~= v@.subrange(i as int, j as int));
    s.substring_char(i, j).to_owned()
}

/// The value of the last `key=value` line for `key`, unquoted.
pub open spec fn release_value(lines: Seq<Seq<char>>, key: Seq<char>) -> Option<Seq<char>>
    decreases lines.len(),
{
    if lines.len() == 0 {
        None
    } else {
        let l = lines.last();
        match find_char(l, '=') {
            Some(i) => if l.subrange(0, i) == key {
                Some(trim_char(l.subrange(i + 1, l.len() as int), '"'))
            } else {
                release_value(lines.drop_last(), key)
            },
            None => release_value(lines.drop_last(), key),
        }
    }
}

/// The OS version sent as `x-ver-os`: `NAME VERSION_ID` from os-release,
/// `NAME` alone without a version, `Linux` when there is no name.
pub open spec fn os_version_text(release: Option<Seq<char>>) -> Seq<char> {
    match release {
        Some(text) => match release_value(lines_of(text), "NAME"@) {
            Some(name) => match release_value(lines_of(text), "VERSION_ID"@) {
                Some(v) => name + " "@ + v,
                None => name,
            },
            None => "Linux"@,
        },
        None => "Linux"@,
    }
}

/// Best-effort OS version for `x-ver-os`, from the contents of
/// `/etc/os-release` when it could be read.
pub fn os_version(release: Option<String>) -> (r: String)
    ensures
        r@ == os_version_text(opt_view(release)),
{
    let text = match &release {
        Some(t) => t,
        None => return String::from_str("Linux"),
    };
    let ls = lines(text.as_str());
    let ghost all = lines_of(text@);
    let mut name: Option<String> = None;
    let mut version: Option<String> = None;
    let mut i: usize = 0;
    proof {
        assert(all.take(0) =~= Seq::<Seq<char>>::empty());
    }
    while i < ls.len()
        invariant
            i <= ls@.len() == all.len(),
            forall|j: int| 0 <= j < ls@.len() ==> #[trigger] ls@[j]@ == all[j],
            opt_view(name) == release_value(all.take(i as int), "NAME"@),
            opt_view(version) == release_value(all.take(i as int), "VERSION_ID"@),
        decreases ls@.len() - i,
    {
        let line = ls[i].as_str();
        let v = chars_of(line);
        let ghost t = all.take(i + 1);
        proof {
            assert(t.last() == all[i as int]);
            assert(t.drop_last() =~= all.take(i as int));
            reveal_strlit("NAME");
            reveal_strlit("VERSION_ID");
            assert("NAME"@.len() != "VERSION_ID"@.len());
        }
        match index_of_char(&v, '=') {
            Some(p) => {
                let key = line.substring_char(0, p);
                let value = trim_matches(line.substring_char(p + 1, v.len()), '"');
                if str_eq(key, "NAME") {
                    name = Some(value);
                } else if str_eq(key, "VERSION_ID") {
                    version = Some(value);
                }
            },
            None => {},
        }
        i = i + 1;
    }
    proof {
        assert(all.take(all.len() as int) =~= all);
    }
    match name {
        Some(n) => match version {
            Some(v) => {
                let mut out = n;
                out.append(" ");
                out.append(v.as_str());
                out
            },
            None => n,
        },
        None => String::from_str("Linux"),
    }
}

/// The machine name sent as `x-device-model`: the hostname, trimmed, or
/// `linux-desktop` when there is none.
pub open spec fn device_model_text(hostname: Option<Seq<char>>) -> Seq<char> {
    match hostname {
        Some(h) => if trimmed(h).len() > 0 {
            trimmed(h)
        } else {
            "linux-desktop"@
        },
        None => "linux-desktop"@,
    }
}

/// Best-effort machine name for `x-device-model`, from the contents of
/// `/etc/hostname` when it could be read.
pub fn device_model(hostname: Option<String>) -> (r: String)
    ensures
        r@ == device_model_text(opt_view(hostname)),
{
    match &hostname {
        Some(h) => {
            let t = trim(h.as_str());
            if t.as_str().unicode_len() > 0 {
                t
            } else {
                String::from_str("linux-desktop")
            }
        },
        None => String::from_str("linux-desktop"),
    }
}

} // verus!
