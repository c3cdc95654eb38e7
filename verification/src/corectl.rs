//! Lifecycle of the mihomo process: what the GUI decides about it. Spawning,
//! probing and killing the child are done by the caller; this module says
//! which binary to look for, how a TUN check reads, and what the log shows.

use vstd::prelude::*;
use vstd::string::StringExecFns;

use crate::paths::{join, joined};
use crate::text::{
    contains, contains_str, lines, lines_of, lowercase, split_char,
    split_on, to_lowercase,
};

verus! {

#[derive(Debug)]
pub enum CoreStatus {
    Stopped,
    /// Running as our child.
    Running,
    /// Reachable on the controller port but not started by this GUI.
    Adopted,
    Failed(String),
}

impl Clone for CoreStatus {
    fn clone(&self) -> (r: Self)
        ensures
            r == *self,
    {
        match self {
            CoreStatus::Stopped => CoreStatus::Stopped,
            CoreStatus::Running => CoreStatus::Running,
            CoreStatus::Adopted => CoreStatus::Adopted,
            CoreStatus::Failed(e) => CoreStatus::Failed(e.clone()),
        }
    }
}

/// Whether the TUN-capable binary can actually open a TUN device — and if
/// not, which of the very different reasons applies.
#[derive(Debug)]
pub enum TunReadiness {
    Ready,
    /// No such binary.
    Missing(String),
    /// It exists and carries the capabilities, but this session may not execute
    /// it: on NixOS that means the group membership has not been picked up yet.
    NotPermitted(String),
    /// Executable, but without CAP_NET_ADMIN.
    NoCapabilities(String),
    /// `getcap` is not installed, so there is nothing to check against.
    Unknown,
}

/// How running the binary with `-v` went.
#[derive(Clone, Copy, PartialEq, Eq, Structural, Debug)]
pub enum ExecOutcome {
    /// It ran.
    Ran,
    /// The system refused to execute it.
    PermissionDenied,
    /// Any other failure, such as the file not being there.
    Failed,
}

/// The warning shown for each readiness, if any.
pub open spec fn warning_text(r: TunReadiness) -> Option<Seq<char>> {
    match r {
        TunReadiness::Ready => None,
        TunReadiness::Unknown => None,
        TunReadiness::Missing(binary) => Some(
            "TUN is on but no core binary was found at "@ + binary@
                + ". Set its path in Settings."@,
        ),
        TunReadiness::NotPermitted(path) => Some(
            "TUN is on and "@ + path@
                + " is set up correctly, but this session may not run it. Log out and back in so the mihomo group applies."@,
        ),
        TunReadiness::NoCapabilities(path) => Some(
            "TUN is on but "@ + path@
                + " has no CAP_NET_ADMIN. Enable programs.mihomo-manifold.tun in your NixOS configuration."@,
        ),
    }
}

pub open spec fn describe_text(r: TunReadiness) -> Seq<char> {
    match r {
        TunReadiness::Ready => "The core binary can create the TUN device."@,
        TunReadiness::Unknown => "getcap is not installed, so privileges could not be checked."@,
        _ => "⚠ "@ + warning_text(r)->0,
    }
}

impl TunReadiness {
    /// The warning to show, or `None` when there is nothing to complain about.
    pub fn warning(&self) -> (w: Option<String>)
        ensures
            match w {
                Some(s) => warning_text(*self) == Some(s@),
                None => warning_text(*self) is None,
            },
    {
        match self {
            TunReadiness::Ready | TunReadiness::Unknown => None,
            TunReadiness::Missing(binary) => {
                let mut s = String::from_str("TUN is on but no core binary was found at ");
                s.append(binary.as_str());
                s.append(". Set its path in Settings.");
                Some(s)
            },
            TunReadiness::NotPermitted(path) => {
                let mut s = String::from_str("TUN is on and ");
                s.append(path.as_str());
                s.append(
                    " is set up correctly, but this session may not run it. Log out and back in so the mihomo group applies.",
                );
                Some(s)
            },
            TunReadiness::NoCapabilities(path) => {
                let mut s = String::from_str("TUN is on but ");
                s.append(path.as_str());
                s.append(
                    " has no CAP_NET_ADMIN. Enable programs.mihomo-manifold.tun in your NixOS configuration.",
                );
                Some(s)
            },
        }
    }

    pub fn describe(&self) -> (s: String)
        ensures
            s@ == describe_text(*self),
    {
        match self {
            TunReadiness::Ready => String::from_str("The core binary can create the TUN device."),
            TunReadiness::Unknown => String::from_str(
                "getcap is not installed, so privileges could not be checked.",
            ),
            _ => {
                let mut s = String::from_str("⚠ ");
                match self.warning() {
                    Some(w) => s.append(w.as_str()),
                    None => {},
                }
                s
            },
        }
    }
}

/// A permission error means the session may not run it; any other failure
/// means there is nothing to run; otherwise `getcap`'s output decides, and
/// without `getcap` nothing can be said.
pub open spec fn classified_readiness(path: Seq<char>, exec: ExecOutcome, caps: Option<Seq<char>>) -> (
    int,
    Seq<char>,
) {
    match exec {
        ExecOutcome::PermissionDenied => (2, path),
        ExecOutcome::Failed => (1, path),
        ExecOutcome::Ran => match caps {
            Some(text) => if contains(lowercase(text), "cap_net_admin"@) {
                (0, Seq::empty())
            } else {
                (3, path)
            },
            None => (4, Seq::empty()),
        },
    }
}

/// The variant number and carried path of a readiness.
pub open spec fn readiness_parts(r: TunReadiness) -> (int, Seq<char>) {
    match r {
        TunReadiness::Ready => (0, Seq::empty()),
        TunReadiness::Missing(p) => (1, p@),
        TunReadiness::NotPermitted(p) => (2, p@),
        TunReadiness::NoCapabilities(p) => (3, p@),
        TunReadiness::Unknown => (4, Seq::empty()),
    }
}

/// `exec` is whether the binary could be run at all, `caps` the output of
/// `getcap` when that tool exists.
pub fn classify(path: String, exec: ExecOutcome, caps: Option<String>) -> (r: TunReadiness)
    ensures
        readiness_parts(r) == classified_readiness(
            path@,
            exec,
            match caps {
                Some(c) => Some(c@),
                None => None,
            },
        ),
{
    match exec {
        ExecOutcome::PermissionDenied => TunReadiness::NotPermitted(path),
        ExecOutcome::Failed => TunReadiness::Missing(path),
        ExecOutcome::Ran => match caps {
            Some(text) => {
                let lowered = to_lowercase(text.as_str());
                if contains_str(lowered.as_str(), "cap_net_admin") {
                    TunReadiness::Ready
                } else {
                    TunReadiness::NoCapabilities(path)
                }
            },
            // getcap is not always installed; do not cry wolf.
            None => TunReadiness::Unknown,
        },
    }
}

/// Only a real problem is warned about, and the warning names the binary: a
/// ready binary or an unknown answer show nothing; a missing binary, one the
/// session may not run, and one without CAP_NET_ADMIN each get their own
/// message with the path in it. The longer description shows that warning
/// after a `⚠ `.
pub proof fn law_tun_warnings(r: TunReadiness)
    ensures
        warning_text(r) is None <==> (r is Ready || r is Unknown),
        r matches TunReadiness::Missing(p) ==> warning_text(r) == Some(
            "TUN is on but no core binary was found at "@ + p@ + ". Set its path in Settings."@,
        ),
        r matches TunReadiness::NotPermitted(p) ==> warning_text(r) == Some(
            "TUN is on and "@ + p@
                + " is set up correctly, but this session may not run it. Log out and back in so the mihomo group applies."@,
        ),
        r matches TunReadiness::NoCapabilities(p) ==> warning_text(r) == Some(
            "TUN is on but "@ + p@
                + " has no CAP_NET_ADMIN. Enable programs.mihomo-manifold.tun in your NixOS configuration."@,
        ),
        warning_text(r) is Some ==> describe_text(r) == "⚠ "@ + warning_text(r)->0,
{
}

/// What a readiness that `classify` gave means, from how running the binary
/// went: refused by the system, the session may not run the binary at
/// `path`; any other failure, there is no binary at `path`, and the warning
/// says so and names the path; it ran, then `getcap` decides: a line with
/// `cap_net_admin` in any case means ready, anything else that the binary
/// lacks the capability, and no `getcap` means nothing can be said and
/// nothing is shown.
pub proof fn law_tun_readiness(r: TunReadiness, path: Seq<char>, exec: ExecOutcome, caps: Option<Seq<char>>)
    requires
        readiness_parts(r) == classified_readiness(path, exec, caps),
    ensures
        exec == ExecOutcome::PermissionDenied ==> (r matches TunReadiness::NotPermitted(p) && p@
            == path),
        exec == ExecOutcome::Failed ==> (r matches TunReadiness::Missing(p) && p@ == path),
        exec == ExecOutcome::Failed ==> warning_text(r) == Some(
            "TUN is on but no core binary was found at "@ + path + ". Set its path in Settings."@,
        ),
        exec == ExecOutcome::Ran && caps is None ==> (r is Unknown && warning_text(r) is None),
        exec == ExecOutcome::Ran && caps is Some && contains(lowercase(caps->0), "cap_net_admin"@)
            ==> (r is Ready && warning_text(r) is None),
        exec == ExecOutcome::Ran && caps is Some && !contains(lowercase(caps->0), "cap_net_admin"@)
            ==> (r matches TunReadiness::NoCapabilities(p) && p@ == path),
{
}

/// Where to look for `binary`, in order: the path itself when it names a
/// directory, otherwise the binary in each `PATH` entry; nothing without a
/// `PATH`. The caller takes the first that exists.
pub open spec fn binary_candidates(binary: Seq<char>, path_var: Option<Seq<char>>) -> Seq<Seq<char>> {
    if contains(binary, "/"@) {
        seq![binary]
    } else {
        match path_var {
            Some(p) => Seq::new(split_on(p, ':').len(), |i: int| joined(split_on(p, ':')[i], binary)),
            None => Seq::empty(),
        }
    }
}

pub fn binary_candidates_list(binary: &str, path_var: &Option<String>) -> (r: Vec<String>)
    ensures
        r@.len() == binary_candidates(
            binary@,
            match path_var {
                Some(p) => Some(p@),
                None => None,
            },
        ).len(),
        forall|i: int|
            0 <= i < r@.len() ==> #[trigger] r@[i]@ == binary_candidates(
                binary@,
                match path_var {
                    Some(p) => Some(p@),
                    None => None,
                },
            )[i],
{
    let mut out: Vec<String> = Vec::new();
    if contains_str(binary, "/") {
        out.push(String::from_str(binary));
        return out;
    }
    match path_var {
        None => out,
        Some(p) => {
            let dirs = split_char(p.as_str(), ':');
            let mut i: usize = 0;
            while i < dirs.len()
                invariant
                    i <= dirs@.len(),
                    dirs@.len() == split_on(p@, ':').len(),
                    forall|j: int| 0 <= j < dirs@.len() ==> #[trigger] dirs@[j]@ == split_on(p@, ':')[j],
                    out@.len() == i,
                    forall|j: int|
                        0 <= j < i ==> #[trigger] out@[j]@ == joined(split_on(p@, ':')[j], binary@),
                decreases dirs@.len() - i,
            {
                out.push(join(dirs[i].as_str(), binary));
                i = i + 1;
            }
            out
        },
    }
}

/// Lines joined by `\n`.
pub open spec fn joined_lines(ls: Seq<Seq<char>>) -> Seq<char>
    decreases ls.len(),
{
    if ls.len() == 0 {
        Seq::empty()
    } else if ls.len() == 1 {
        ls[0]
    } else {
        joined_lines(ls.drop_last()) + "\n"@ + ls.last()
    }
}

/// The last `n` lines of `content`, joined by `\n`.
pub open spec fn tail_text(content: Seq<char>, n: nat) -> Seq<char> {
    let all = lines_of(content);
    joined_lines(all.skip(if all.len() < n { 0 } else { all.len() - n }))
}

/// Last lines of the core log, for the "it would not start" case; the
/// caller reads the file.
pub fn tail_log(content: &str, n: usize) -> (r: String)
    ensures
        r@ == tail_text(content@, n as nat),
{
    let all = lines(content);
    let ghost lv = lines_of(content@);
    let from = if all.len() < n { 0 } else { all.len() - n };
    let ghost rest = lv.skip(from as int);
    let mut out = String::new();
    let mut i: usize = from;
    while i < all.len()
        invariant
            from <= i <= all@.len() == lv.len(),
            rest == lv.skip(from as int),
            forall|j: int| 0 <= j < all@.len() ==> #[trigger] all@[j]@ == lv[j],
            out@ == joined_lines(rest.take(i - from)),
        decreases all@.len() - i,
    {
        if i > from {
            out.append("\n");
        }
        out.append(all[i].as_str());
        proof {
            let t = rest.take(i + 1 - from);
            assert(t.drop_last() =~= rest.take(i - from));
            assert(t.last() == lv[i as int]);
        }
        i = i + 1;
    }
    assert(rest.take(all@.len() - from) =~= rest);
    out
}

} // verus!
