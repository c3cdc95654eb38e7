//! XDG locations. The caller reads `HOME`, `XDG_CONFIG_HOME` and
//! `XDG_STATE_HOME`; everything here is how the paths are put together from
//! them, the way `PathBuf::join` does it on Unix.

use vstd::prelude::*;
use vstd::string::StringExecFns;

use crate::text::chars_of;

verus! {

/// `PathBuf::from(base).join(part)` on Unix: an absolute `part` replaces
/// `base`; otherwise a `/` goes between them unless `base` is empty or
/// already ends in one.
pub open spec fn joined(base: Seq<char>, part: Seq<char>) -> Seq<char> {
    if part.len() > 0 && part[0] == '/' {
        part
    } else if base.len() > 0 && base.last() != '/' {
        base + "/"@ + part
    } else {
        base + part
    }
}

pub fn join(base: &str, part: &str) -> (r: String)
    ensures
        r@ == joined(base@, part@),
{
    let p = chars_of(part);
    if p.len() > 0 && p[0] == '/' {
        return String::from_str(part);
    }
    let b = chars_of(base);
    let mut out = String::from_str(base);
    if b.len() > 0 && b[b.len() - 1] != '/' {
        out.append("/");
    }
    out.append(part);
    out
}

/// The environment the locations depend on.
pub struct XdgEnv {
    pub home: Option<String>,
    pub config_home: Option<String>,
    pub state_home: Option<String>,
}

pub open spec fn home_of(env: XdgEnv) -> Seq<char> {
    match env.home {
        Some(h) => h@,
        None => "/tmp"@,
    }
}

/// The variable's value when set and not empty, else `fallback` under home.
pub open spec fn xdg_of(var: Option<String>, fallback: Seq<char>, home: Seq<char>) -> Seq<char> {
    match var {
        Some(v) => if v@.len() > 0 {
            v@
        } else {
            joined(home, fallback)
        },
        None => joined(home, fallback),
    }
}

pub open spec fn config_dir_of(env: XdgEnv) -> Seq<char> {
    joined(xdg_of(env.config_home, ".config"@, home_of(env)), "mihomo-manifold"@)
}

pub open spec fn state_dir_of(env: XdgEnv) -> Seq<char> {
    joined(xdg_of(env.state_home, ".local/state"@, home_of(env)), "mihomo-manifold"@)
}

fn home(env: &XdgEnv) -> (r: String)
    ensures
        r@ == home_of(*env),
{
    match &env.home {
        Some(h) => h.clone(),
        None => String::from_str("/tmp"),
    }
}

fn xdg(var: &Option<String>, fallback: &str, env: &XdgEnv) -> (r: String)
    ensures
        r@ == xdg_of(*var, fallback@, home_of(*env)),
{
    match var {
        Some(v) => {
            if v.as_str().unicode_len() > 0 {
                return v.clone();
            }
        },
        None => {},
    }
    let h = home(env);
    join(h.as_str(), fallback)
}

pub fn config_dir(env: &XdgEnv) -> (r: String)
    ensures
        r@ == config_dir_of(*env),
{
    let base = xdg(&env.config_home, ".config", env);
    join(base.as_str(), "mihomo-manifold")
}

pub fn state_dir(env: &XdgEnv) -> (r: String)
    ensures
        r@ == state_dir_of(*env),
{
    let base = xdg(&env.state_home, ".local/state", env);
    join(base.as_str(), "mihomo-manifold")
}

/// Mutable settings written by the UI.
pub fn config_file(env: &XdgEnv) -> (r: String)
    ensures
        r@ == joined(config_dir_of(*env), "config.json"@),
{
    join(config_dir(env).as_str(), "config.json")
}

/// Declarative defaults from the home-manager module, merged underneath.
pub fn defaults_file(env: &XdgEnv) -> (r: String)
    ensures
        r@ == joined(config_dir_of(*env), "defaults.json"@),
{
    join(config_dir(env).as_str(), "defaults.json")
}

/// Raw YAML as downloaded from each subscription, one file per profile id.
pub fn profiles_dir(env: &XdgEnv) -> (r: String)
    ensures
        r@ == joined(state_dir_of(*env), "profiles"@),
{
    join(state_dir(env).as_str(), "profiles")
}

/// The working directory handed to the core as `-d`.
pub fn core_dir(env: &XdgEnv) -> (r: String)
    ensures
        r@ == joined(state_dir_of(*env), "core"@),
{
    join(state_dir(env).as_str(), "core")
}

/// The config we generate from our own template and feed to the core.
pub fn generated_config(env: &XdgEnv) -> (r: String)
    ensures
        r@ == joined(joined(state_dir_of(*env), "core"@), "config.yaml"@),
{
    join(core_dir(env).as_str(), "config.yaml")
}

pub fn core_log(env: &XdgEnv) -> (r: String)
    ensures
        r@ == joined(state_dir_of(*env), "core.log"@),
{
    join(state_dir(env).as_str(), "core.log")
}

} // verus!
