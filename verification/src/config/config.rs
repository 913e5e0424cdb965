//! The configuration: an optional profile name, environment variables,
//! template variables and commands.
use vstd::prelude::*;
use crate::models::command::Command;
use crate::models::variable::Variable;
use crate::strmap::StringMap;

verus! {

/// A configuration layer, as read from one file.
pub struct Config {
    pub profile: Option<String>,
    pub env: StringMap<String>,
    pub vars: StringMap<Variable>,
    pub commands: StringMap<Command>,
}

/// The mathematical form of a [`Config`].
pub struct ConfigView {
    pub profile: Option<Seq<char>>,
    pub env: Map<Seq<char>, String>,
    pub vars: Map<Seq<char>, Variable>,
    pub commands: Map<Seq<char>, Command>,
}

/// The text of an optional string.
pub open spec fn opt_view(s: Option<String>) -> Option<Seq<char>> {
    match s {
        Some(t) => Some(t@),
        None => None,
    }
}

impl View for Config {
    type V = ConfigView;

    open spec fn view(&self) -> ConfigView {
        ConfigView {
            profile: opt_view(self.profile),
            env: self.env@,
            vars: self.vars@,
            commands: self.commands@,
        }
    }
}

/// The configuration with nothing in it.
pub open spec fn empty_config() -> ConfigView {
    ConfigView {
        profile: None,
        env: Map::empty(),
        vars: Map::empty(),
        commands: Map::empty(),
    }
}

/// `top` laid over `base`: `top`'s profile if it names one, and for each
/// table every key of either, with `top`'s entry where both have one.
pub open spec fn overlay(base: ConfigView, top: ConfigView) -> ConfigView {
    ConfigView {
        profile: if top.profile is Some {
            top.profile
        } else {
            base.profile
        },
        env: base.env.union_prefer_right(top.env),
        vars: base.vars.union_prefer_right(top.vars),
        commands: base.commands.union_prefer_right(top.commands),
    }
}

impl Default for Config {
    fn default() -> (c: Self)
        ensures
            c@ == empty_config(),
    {
        Config {
            profile: None,
            env: StringMap::new(),
            vars: StringMap::new(),
            commands: StringMap::new(),
        }
    }
}

impl Config {
    /// Overlays `other` config on top of `self`.
    /// Key-value maps (`env`, `vars`, `commands`) are overwritten by matching
    /// keys in `other`; the profile is replaced when `other` names one.
    pub fn merge(&mut self, other: Config)
        ensures
            final(self)@ == overlay(old(self)@, other@),
    {
        let Config { profile, env, vars, commands } = other;
        if profile.is_some() {
            self.profile = profile;
        }
        self.env.extend(env);
        self.vars.extend(vars);
        self.commands.extend(commands);
    }
}

} // verus!
