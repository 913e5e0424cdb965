//! Where configuration files live and how the layers combine.
//!
//! Layers are read in the order global, profile, local; a later layer
//! overrides an earlier one, key by key.
use vstd::prelude::*;
pub use crate::config::config::{Config, ConfigView, empty_config, opt_view, overlay};
use crate::strmap::StringMap;
use crate::text::{chars_of, concat};

pub mod config;

verus! {

broadcast use vstd::string::group_string_axioms;

/// `base` joined with the relative or absolute path `part`, as
/// `Path::join` does it on Unix: an absolute `part` replaces `base`;
/// otherwise a `/` goes between them unless `base` is empty or already
/// ends with one.
pub open spec fn path_join(base: Seq<char>, part: Seq<char>) -> Seq<char> {
    if part.len() > 0 && part[0] == '/' {
        part
    } else if base.len() == 0 || base.last() == '/' {
        base + part
    } else {
        base + seq!['/'] + part
    }
}

/// Executable form of [`path_join`].
pub fn join_path(base: &str, part: &str) -> (r: String)
    ensures
        r@ == path_join(base@, part@),
{
    let b = chars_of(base);
    let p = chars_of(part);
    if p.len() > 0 && p[0] == '/' {
        part.to_string()
    } else if b.len() == 0 || b[b.len() - 1] == '/' {
        concat(base, part)
    } else {
        let with_sep = concat(base, "/");
        proof {
            reveal_strlit("/");
            assert("/"@ =~= seq!['/']);
        }
        concat(with_sep.as_str(), part)
    }
}

/// The global configuration file inside the configuration directory.
pub fn global_config_path(config_dir: &str) -> (r: String)
    ensures
        r@ == path_join(config_dir@, "global.toml"@),
{
    join_path(config_dir, "global.toml")
}

/// The store directory inside the configuration directory.
pub fn store_path(config_dir: &str) -> (r: String)
    ensures
        r@ == path_join(config_dir@, "store"@),
{
    join_path(config_dir, "store")
}

/// The profiles directory inside the configuration directory.
pub fn profiles_dir(config_dir: &str) -> (r: String)
    ensures
        r@ == path_join(config_dir@, "profiles"@),
{
    join_path(config_dir, "profiles")
}

/// The files that may hold the profile `name`, in the order they are
/// tried: `<profiles>/<name>.toml`, then `<store>/profiles/<name>.toml`.
pub fn profile_candidates(name: &str, config_dir: &str) -> (r: (String, String))
    ensures
        r.0@ == path_join(path_join(config_dir@, "profiles"@), name@ + ".toml"@),
        r.1@ == path_join(
            path_join(path_join(config_dir@, "store"@), "profiles"@),
            name@ + ".toml"@,
        ),
{
    let filename = concat(name, ".toml");
    let primary = join_path(profiles_dir(config_dir).as_str(), filename.as_str());
    let store_profiles = join_path(store_path(config_dir).as_str(), "profiles");
    let secondary = join_path(store_profiles.as_str(), filename.as_str());
    (primary, secondary)
}

/// The value of the environment variable `key`: the one the configuration's
/// `env` table gives, else `process_value` (the process environment's),
/// else the empty string.
pub fn env_value(key: &str, config_env: &StringMap<String>, process_value: Option<String>) -> (r:
    String)
    ensures
        r@ == (if config_env@.contains_key(key@) {
            config_env@[key@]@
        } else {
            match process_value {
                Some(v) => v@,
                None => Seq::<char>::empty(),
            }
        }),
{
    match config_env.get(key) {
        Some(v) => v.clone(),
        None => match process_value {
            Some(v) => v,
            None => String::new(),
        },
    }
}

/// The file to read the profile from, given whether each of
/// [`profile_candidates`] exists: the first one that does, or none.
pub fn profile_file(
    name: &str,
    config_dir: &str,
    primary_exists: bool,
    secondary_exists: bool,
) -> (r: Option<String>)
    ensures
        ({
            let (p, q) = (
                path_join(path_join(config_dir@, "profiles"@), name@ + ".toml"@),
                path_join(path_join(path_join(config_dir@, "store"@), "profiles"@), name@ + ".toml"@),
            );
            if primary_exists {
                r matches Some(f) && f@ == p
            } else if secondary_exists {
                r matches Some(f) && f@ == q
            } else {
                r is None
            }
        }),
{
    let (primary, secondary) = profile_candidates(name, config_dir);
    if primary_exists {
        Some(primary)
    } else if secondary_exists {
        Some(secondary)
    } else {
        None
    }
}

/// The profile to apply: the one the local configuration names, else the
/// one the global configuration names.
pub fn profile_name(global: &Config, local: &Option<Config>) -> (r: Option<String>)
    ensures
        opt_view(r) == match local {
            Some(l) if l.profile is Some => opt_view(l.profile),
            _ => opt_view(global.profile),
        },
{
    match local {
        Some(l) => match &l.profile {
            Some(p) => {
                return Some(p.clone());
            },
            None => {},
        },
        None => {},
    }
    match &global.profile {
        Some(p) => Some(p.clone()),
        None => None,
    }
}

/// `top` laid over `base` when there is a `top`.
pub open spec fn overlay_opt(base: ConfigView, top: Option<Config>) -> ConfigView {
    match top {
        Some(t) => overlay(base, t@),
        None => base,
    }
}

/// The resolved configuration: the profile laid over the global layer,
/// then the local layer over that.
pub fn combine(global: Config, profile: Option<Config>, local: Option<Config>) -> (r: Config)
    ensures
        r@ == overlay_opt(overlay_opt(global@, profile), local),
{
    let mut resolved = global;
    if let Some(p) = profile {
        resolved.merge(p);
    }
    if let Some(l) = local {
        resolved.merge(l);
    }
    resolved
}

} // verus!

verus! {

/// The value a table entry gets from layers read local first, then
/// profile, then global: the first layer that has the key decides.
pub open spec fn layered<V>(
    global: Map<Seq<char>, V>,
    profile: Map<Seq<char>, V>,
    local: Map<Seq<char>, V>,
    k: Seq<char>,
) -> Option<V> {
    if local.contains_key(k) {
        Some(local[k])
    } else if profile.contains_key(k) {
        Some(profile[k])
    } else if global.contains_key(k) {
        Some(global[k])
    } else {
        None
    }
}

/// The entry of `m` under `k`, if any.
pub open spec fn lookup<V>(m: Map<Seq<char>, V>, k: Seq<char>) -> Option<V> {
    if m.contains_key(k) {
        Some(m[k])
    } else {
        None
    }
}

/// Layer precedence: in the combined configuration every entry of every
/// table (`env`, `vars`, `commands`) comes from the local layer if it has
/// the key, else from the profile, else from the global layer; and the
/// profile name comes from the latest layer that names one.
pub proof fn lemma_layer_precedence(global: Config, profile: Config, local: Config, k: Seq<char>)
    ensures
        ({
            let r = overlay_opt(overlay_opt(global@, Some(profile)), Some(local));
            &&& lookup(r.env, k) == layered(global@.env, profile@.env, local@.env, k)
            &&& lookup(r.vars, k) == layered(global@.vars, profile@.vars, local@.vars, k)
            &&& lookup(r.commands, k) == layered(global@.commands, profile@.commands, local@.commands, k)
            &&& r.profile == (if local@.profile is Some {
                local@.profile
            } else if profile@.profile is Some {
                profile@.profile
            } else {
                global@.profile
            })
        }),
{
}

/// Laying the empty configuration over a configuration, or a
/// configuration over the empty one, changes nothing.
pub proof fn lemma_overlay_identity(c: ConfigView)
    ensures
        overlay(c, empty_config()) == c,
        overlay(empty_config(), c) == c,
{
    assert(overlay(c, empty_config()).env =~= c.env);
    assert(overlay(c, empty_config()).vars =~= c.vars);
    assert(overlay(c, empty_config()).commands =~= c.commands);
    assert(overlay(empty_config(), c).env =~= c.env);
    assert(overlay(empty_config(), c).vars =~= c.vars);
    assert(overlay(empty_config(), c).commands =~= c.commands);
}

/// Merging layers one after another is the same as first merging the
/// later layers together.
pub proof fn lemma_overlay_associative(a: ConfigView, b: ConfigView, c: ConfigView)
    ensures
        overlay(overlay(a, b), c) == overlay(a, overlay(b, c)),
{
    assert(overlay(overlay(a, b), c).env =~= overlay(a, overlay(b, c)).env);
    assert(overlay(overlay(a, b), c).vars =~= overlay(a, overlay(b, c)).vars);
    assert(overlay(overlay(a, b), c).commands =~= overlay(a, overlay(b, c)).commands);
}

/// Merging a configuration into itself changes nothing.
pub proof fn lemma_overlay_idempotent(c: ConfigView)
    ensures
        overlay(c, c) == c,
{
    assert(overlay(c, c).env =~= c.env);
    assert(overlay(c, c).vars =~= c.vars);
    assert(overlay(c, c).commands =~= c.commands);
}

} // verus!
