//! Project configuration in the JSON layout: a local file that names the
//! project's type and subtype, and a global file with defaults per type.
//!
//! Values of variables are carried through unchanged; their type is a
//! parameter (`V`).
//!
//! Priority when merging (lowest to highest): global base vars/runnables,
//! type-level vars/runnables, the type's default vars/runnables/commands,
//! the named subtype's vars/runnables/commands, and the local
//! vars/runnables/commands.
use vstd::prelude::*;
use crate::strmap::StringMap;

verus! {

/// A unit of work: a shell string, an argument vector, or a shell command
/// with named arguments.
pub enum Runnable {
    Shell(String),
    Argv(Vec<String>),
    Function { args: Vec<String>, command: String },
}

/// The local (per-project) configuration.
pub struct LocalConfig<V> {
    pub project_type: Option<String>,
    pub subtype: Option<String>,
    pub vars: StringMap<V>,
    pub runnables: StringMap<Runnable>,
    pub commands: StringMap<Runnable>,
    pub lifecycle: StringMap<Runnable>,
}

/// Settings shared by all projects of a type or subtype.
pub struct TypeDefault<V> {
    pub vars: StringMap<V>,
    pub runnables: StringMap<Runnable>,
    pub commands: StringMap<Runnable>,
}

/// The global settings of one project type.
pub struct TypeConfig<V> {
    pub vars: StringMap<V>,
    pub runnables: StringMap<Runnable>,
    /// Applied to all projects of this type.
    pub default: Option<TypeDefault<V>>,
    /// Named sub-variants of the type.
    pub subtypes: Option<StringMap<TypeDefault<V>>>,
}

/// The global configuration.
pub struct GlobalConfig<V> {
    pub vars: StringMap<V>,
    pub runnables: StringMap<Runnable>,
    pub types: StringMap<TypeConfig<V>>,
}

/// The merged configuration the engine uses.
pub struct ResolvedConfig<V> {
    pub vars: StringMap<V>,
    /// Named commands exposed to the user.
    pub commands: StringMap<Runnable>,
    /// Internal runnables used for interpolation and hooks.
    pub runnables: StringMap<Runnable>,
    /// Lifecycle hooks.
    pub lifecycle: StringMap<Runnable>,
}

/// The settings of the local project's type, if the global configuration
/// has that type.
pub open spec fn type_of<V>(local: LocalConfig<V>, global: GlobalConfig<V>) -> Option<TypeConfig<V>> {
    match local.project_type {
        Some(t) => if global.types@.contains_key(t@) {
            Some(global.types@[t@])
        } else {
            None
        },
        None => None,
    }
}

/// The settings of the local project's subtype within the type `tc`.
pub open spec fn subtype_of<V>(local: LocalConfig<V>, tc: TypeConfig<V>) -> Option<TypeDefault<V>> {
    match (local.subtype, tc.subtypes) {
        (Some(s), Some(subs)) => if subs@.contains_key(s@) {
            Some(subs@[s@])
        } else {
            None
        },
        _ => None,
    }
}

/// `m` with the entries of `top` laid over it, if there is a `top`.
pub open spec fn over<T>(m: Map<Seq<char>, T>, top: Option<Map<Seq<char>, T>>) -> Map<
    Seq<char>,
    T,
> {
    match top {
        Some(t) => m.union_prefer_right(t),
        None => m,
    }
}

/// The merged variables.
pub open spec fn merged_vars<V>(local: LocalConfig<V>, global: GlobalConfig<V>) -> Map<Seq<char>, V> {
    match type_of(local, global) {
        Some(tc) => {
            let d = match tc.default {
                Some(d) => Some(d.vars@),
                None => None,
            };
            let s = match subtype_of(local, tc) {
                Some(s) => Some(s.vars@),
                None => None,
            };
            over(over(global.vars@.union_prefer_right(tc.vars@), d), s).union_prefer_right(
                local.vars@,
            )
        },
        None => global.vars@.union_prefer_right(local.vars@),
    }
}

/// The merged runnables.
pub open spec fn merged_runnables<V>(local: LocalConfig<V>, global: GlobalConfig<V>) -> Map<
    Seq<char>,
    Runnable,
> {
    match type_of(local, global) {
        Some(tc) => {
            let d = match tc.default {
                Some(d) => Some(d.runnables@),
                None => None,
            };
            let s = match subtype_of(local, tc) {
                Some(s) => Some(s.runnables@),
                None => None,
            };
            over(over(global.runnables@.union_prefer_right(tc.runnables@), d), s).union_prefer_right(
                local.runnables@,
            )
        },
        None => global.runnables@.union_prefer_right(local.runnables@),
    }
}

/// The merged commands: only the type's default, the subtype and the local
/// configuration contribute commands.
pub open spec fn merged_commands<V>(local: LocalConfig<V>, global: GlobalConfig<V>) -> Map<
    Seq<char>,
    Runnable,
> {
    match type_of(local, global) {
        Some(tc) => {
            let d = match tc.default {
                Some(d) => Some(d.commands@),
                None => None,
            };
            let s = match subtype_of(local, tc) {
                Some(s) => Some(s.commands@),
                None => None,
            };
            over(over(Map::empty(), d), s).union_prefer_right(local.commands@)
        },
        None => local.commands@,
    }
}

/// Layers the global defaults, the project type's settings, its default,
/// its subtype and the local configuration, later layers winning.
pub fn merge<V>(local: LocalConfig<V>, global: GlobalConfig<V>) -> (r: ResolvedConfig<V>)
    ensures
        r.vars@ == merged_vars(local, global),
        r.runnables@ == merged_runnables(local, global),
        r.commands@ == merged_commands(local, global),
        r.lifecycle@ == local.lifecycle@,
{
    let ghost l0 = local;
    let ghost g0 = global;
    let GlobalConfig { vars: mut vars, runnables: mut runnables, types: mut types } = global;
    let mut commands: StringMap<Runnable> = StringMap::new();
    let LocalConfig {
        project_type,
        subtype,
        vars: local_vars,
        runnables: local_runnables,
        commands: local_commands,
        lifecycle,
    } = local;

    if let Some(kind_name) = &project_type {
        if let Some(type_cfg) = types.remove(kind_name.as_str()) {
            let TypeConfig { vars: tv, runnables: tr, default, subtypes } = type_cfg;
            vars.extend(tv);
            runnables.extend(tr);
            if let Some(d) = default {
                let TypeDefault { vars: dv, runnables: dr, commands: dc } = d;
                vars.extend(dv);
                runnables.extend(dr);
                commands.extend(dc);
            }
            if let Some(sub_name) = &subtype {
                if let Some(mut subs) = subtypes {
                    if let Some(sub) = subs.remove(sub_name.as_str()) {
                        let TypeDefault { vars: sv, runnables: sr, commands: sc } = sub;
                        vars.extend(sv);
                        runnables.extend(sr);
                        commands.extend(sc);
                    }
                }
            }
        }
    }
    proof {
        assert(Map::<Seq<char>, Runnable>::empty().union_prefer_right(l0.commands@) =~= l0.commands@);
    }
    vars.extend(local_vars);
    runnables.extend(local_runnables);
    commands.extend(local_commands);
    ResolvedConfig { vars, commands, runnables, lifecycle }
}

/// The first of the layered tables, in the order given, that has `k`.
pub open spec fn first_with<T>(layers: Seq<Option<Map<Seq<char>, T>>>, k: Seq<char>) -> Option<T>
    decreases layers.len(),
{
    if layers.len() == 0 {
        None
    } else {
        match layers[0] {
            Some(m) if m.contains_key(k) => Some(m[k]),
            _ => first_with(layers.drop_first(), k),
        }
    }
}

/// Layer priority for a project whose type the global configuration
/// describes: a variable or runnable gets its value from the first of the
/// local settings, the named subtype, the type's default, the type's own
/// settings and the global base that has it; a command from the first of
/// the local settings, the subtype and the type's default. A key none of
/// them has is absent.
pub proof fn lemma_type_layers<V>(local: LocalConfig<V>, global: GlobalConfig<V>, k: Seq<char>)
    requires
        local.project_type is Some,
        global.types@.contains_key(local.project_type->0@),
    ensures
        ({
            let tc = global.types@[local.project_type->0@];
            let sub: Option<TypeDefault<V>> = match (local.subtype, tc.subtypes) {
                (Some(n), Some(subs)) => if subs@.contains_key(n@) {
                    Some(subs@[n@])
                } else {
                    None
                },
                _ => None,
            };
            let sv = match sub { Some(x) => Some(x.vars@), None => None };
            let dv = match tc.default { Some(x) => Some(x.vars@), None => None };
            let sr = match sub { Some(x) => Some(x.runnables@), None => None };
            let dr = match tc.default { Some(x) => Some(x.runnables@), None => None };
            let sc = match sub { Some(x) => Some(x.commands@), None => None };
            let dc = match tc.default { Some(x) => Some(x.commands@), None => None };
            let mv = merged_vars(local, global);
            let mr = merged_runnables(local, global);
            let mc = merged_commands(local, global);
            &&& (if mv.contains_key(k) { Some(mv[k]) } else { None }) == first_with(
                seq![Some(local.vars@), sv, dv, Some(tc.vars@), Some(global.vars@)],
                k,
            )
            &&& (if mr.contains_key(k) { Some(mr[k]) } else { None }) == first_with(
                seq![Some(local.runnables@), sr, dr, Some(tc.runnables@), Some(global.runnables@)],
                k,
            )
            &&& (if mc.contains_key(k) { Some(mc[k]) } else { None }) == first_with(
                seq![Some(local.commands@), sc, dc],
                k,
            )
        }),
{
    let tc = global.types@[local.project_type->0@];
    assert(type_of(local, global) == Some(tc));
    reveal_with_fuel(first_with, 6);
    let l5 = seq![Some(local.vars@), None::<Map<Seq<char>, V>>];
    assert(seq![Some(local.vars@), None::<Map<Seq<char>, V>>, None::<Map<Seq<char>, V>>].drop_first() =~= seq![None::<Map<Seq<char>, V>>, None::<Map<Seq<char>, V>>]);
    let sub: Option<TypeDefault<V>> = subtype_of(local, tc);
    let sv = match sub { Some(x) => Some(x.vars@), None => None };
    let dv = match tc.default { Some(x) => Some(x.vars@), None => None };
    let sr = match sub { Some(x) => Some(x.runnables@), None => None };
    let dr = match tc.default { Some(x) => Some(x.runnables@), None => None };
    let sc = match sub { Some(x) => Some(x.commands@), None => None };
    let dc = match tc.default { Some(x) => Some(x.commands@), None => None };
    let vl = seq![Some(local.vars@), sv, dv, Some(tc.vars@), Some(global.vars@)];
    assert(vl.drop_first() =~= seq![sv, dv, Some(tc.vars@), Some(global.vars@)]);
    assert(vl.drop_first().drop_first() =~= seq![dv, Some(tc.vars@), Some(global.vars@)]);
    assert(vl.drop_first().drop_first().drop_first() =~= seq![Some(tc.vars@), Some(global.vars@)]);
    assert(vl.drop_first().drop_first().drop_first().drop_first() =~= seq![Some(global.vars@)]);
    assert(vl.drop_first().drop_first().drop_first().drop_first().drop_first() =~= Seq::<Option<Map<Seq<char>, V>>>::empty());
    let rl = seq![Some(local.runnables@), sr, dr, Some(tc.runnables@), Some(global.runnables@)];
    assert(rl.drop_first() =~= seq![sr, dr, Some(tc.runnables@), Some(global.runnables@)]);
    assert(rl.drop_first().drop_first() =~= seq![dr, Some(tc.runnables@), Some(global.runnables@)]);
    assert(rl.drop_first().drop_first().drop_first() =~= seq![Some(tc.runnables@), Some(global.runnables@)]);
    assert(rl.drop_first().drop_first().drop_first().drop_first() =~= seq![Some(global.runnables@)]);
    assert(rl.drop_first().drop_first().drop_first().drop_first().drop_first() =~= Seq::<Option<Map<Seq<char>, Runnable>>>::empty());
    let cl = seq![Some(local.commands@), sc, dc];
    assert(cl.drop_first() =~= seq![sc, dc]);
    assert(cl.drop_first().drop_first() =~= seq![dc]);
    assert(cl.drop_first().drop_first().drop_first() =~= Seq::<Option<Map<Seq<char>, Runnable>>>::empty());
}

/// Local always wins: every variable, runnable and command that the local
/// configuration defines is in the merge with the local value.
pub proof fn lemma_local_wins<V>(local: LocalConfig<V>, global: GlobalConfig<V>, k: Seq<char>)
    ensures
        local.vars@.contains_key(k) ==> merged_vars(local, global).contains_key(k) && merged_vars(
            local,
            global,
        )[k] == local.vars@[k],
        local.runnables@.contains_key(k) ==> merged_runnables(local, global).contains_key(k)
            && merged_runnables(local, global)[k] == local.runnables@[k],
        local.commands@.contains_key(k) ==> merged_commands(local, global).contains_key(k)
            && merged_commands(local, global)[k] == local.commands@[k],
{
}

/// A project whose type the global configuration does not describe gets
/// the global variables and runnables with the local ones laid over them,
/// and only its local commands.
pub proof fn lemma_unknown_type<V>(local: LocalConfig<V>, global: GlobalConfig<V>)
    requires
        type_of(local, global) is None,
    ensures
        merged_vars(local, global) == global.vars@.union_prefer_right(local.vars@),
        merged_runnables(local, global) == global.runnables@.union_prefer_right(local.runnables@),
        merged_commands(local, global) == local.commands@,
{
}

} // verus!
