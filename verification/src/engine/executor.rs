//! Preparing a command for execution: binding its arguments to its
//! parameters, rendering its script, and the output of a dry run.
use vstd::prelude::*;
use crate::engine::resolver::{plan_from, render_text, Layers, Scopes, Segment, SegmentView};
use crate::engine::tokenizer::{parse_template, TemplateError};
use crate::models::command::{Command, CommandView, ExecutionMode};
use crate::models::request::ExecutionRequest;
use crate::models::variable::Variable;
use crate::strmap::StringMap;
use crate::text::{
    chars_of, concat, ident_char, ident_end, is_ident_char, join, lemma_ident_end, push_char, seq_join,
    string_of_range,
};

verus! {

broadcast use vstd::string::group_string_axioms;

/// Why a command could not be prepared.
pub enum ExecError {
    /// Parameters that got no argument and have no default, in order.
    MissingParameters(Vec<String>),
    /// The script is not a well-formed template.
    Template(TemplateError),
}

impl ExecError {
    /// The human-readable description of the error.
    pub fn message(&self) -> (m: String)
        ensures
            self matches ExecError::MissingParameters(names) ==> m@ == "Missing required parameter :: [ "@
                + seq_join(names@.map_values(|s: String| s@), ", "@) + " ]"@,
            self matches ExecError::Template(e) ==> (e == TemplateError::UnclosedExpression ==> m@
                == "Unclosed template expression"@) && (e == TemplateError::EmptyExpression ==> m@
                == "Empty template expression"@),
    {
        match self {
            ExecError::MissingParameters(names) => {
                let list = join(names, ", ");
                let a = concat("Missing required parameter :: [ ", list.as_str());
                concat(a.as_str(), " ]")
            },
            ExecError::Template(e) => e.message(),
        }
    }
}

/// The parameters from position `i` on that have no default.
pub open spec fn missing_from(
    params: Seq<Seq<char>>,
    i: int,
    defaults: Map<Seq<char>, String>,
) -> Seq<Seq<char>>
    decreases params.len() - i,
{
    if i < 0 || i >= params.len() {
        seq![]
    } else if defaults.contains_key(params[i]) {
        missing_from(params, i + 1, defaults)
    } else {
        seq![params[i]] + missing_from(params, i + 1, defaults)
    }
}

/// The parameters left without a value when `nargs` arguments are given.
pub open spec fn missing_params(
    params: Seq<Seq<char>>,
    nargs: int,
    defaults: Map<Seq<char>, String>,
) -> Seq<Seq<char>> {
    if nargs < params.len() {
        missing_from(params, nargs, defaults)
    } else {
        seq![]
    }
}

/// The arguments passed on: all of them if trailing arguments are allowed,
/// else at most one per parameter.
pub open spec fn kept_args(args: Seq<String>, nparams: int, allow_trailing: bool) -> Seq<String> {
    if !allow_trailing && args.len() > nparams {
        args.take(nparams)
    } else {
        args
    }
}

/// The value of parameter `i`: its argument, else its default.
pub open spec fn param_value(
    params: Seq<Seq<char>>,
    args: Seq<String>,
    defaults: Map<Seq<char>, String>,
    i: int,
) -> String {
    if i < args.len() {
        args[i]
    } else {
        defaults[params[i]]
    }
}

/// The first `n` parameters bound to their values; a name that occurs
/// twice takes the value of its last occurrence.
pub open spec fn bound_params(
    params: Seq<Seq<char>>,
    args: Seq<String>,
    defaults: Map<Seq<char>, String>,
    n: int,
) -> Map<Seq<char>, String>
    decreases n,
{
    if n <= 0 {
        Map::empty()
    } else {
        bound_params(params, args, defaults, n - 1).insert(
            params[n - 1],
            param_value(params, args, defaults, n - 1),
        )
    }
}

proof fn lemma_missing_empty(params: Seq<Seq<char>>, i: int, defaults: Map<Seq<char>, String>)
    requires
        0 <= i,
        missing_from(params, i, defaults).len() == 0,
    ensures
        forall|j: int| i <= j < params.len() ==> defaults.contains_key(#[trigger] params[j]),
    decreases params.len() - i,
{
    if i < params.len() {
        lemma_missing_empty(params, i + 1, defaults);
    }
}

/// Binds `args` to the parameters of `cmd`.
///
/// Fails, naming them, when some parameters get no argument and have no
/// default. Otherwise gives the arguments to pass on (cut to one per
/// parameter unless `cmd` allows trailing arguments) and the value of each
/// parameter.
pub fn bind_params(cmd: &Command, args: Vec<String>) -> (r: Result<
    (Vec<String>, StringMap<String>),
    ExecError,
>)
    ensures
        (missing_params(cmd@.params, args@.len() as int, cmd.defaults@).len() > 0) == r is Err,
        r matches Err(ExecError::MissingParameters(names)) ==> names@.map_values(|s: String| s@)
            == missing_params(cmd@.params, args@.len() as int, cmd.defaults@),
        r matches Err(e) ==> e is MissingParameters,
        r matches Ok((kept, bound)) ==> kept@ == kept_args(
            args@,
            cmd.params@.len() as int,
            cmd.allow_trailing_args,
        ) && bound@ == bound_params(
            cmd@.params,
            kept@,
            cmd.defaults@,
            cmd.params@.len() as int,
        ),
{
    let ghost ps = cmd@.params;
    let n = cmd.params.len();
    let nargs = args.len();
    if nargs < n {
        let mut missing: Vec<String> = Vec::new();
        let mut i = nargs;
        while i < n
            invariant
                nargs <= i <= n == cmd.params@.len(),
                ps == cmd@.params,
                missing@.map_values(|s: String| s@) + missing_from(ps, i as int, cmd.defaults@)
                    == missing_from(ps, nargs as int, cmd.defaults@),
            decreases n - i,
        {
            let ghost before = missing@.map_values(|s: String| s@);
            proof {
                assert(ps[i as int] == cmd.params@[i as int]@);
            }
            if !cmd.defaults.contains_key(cmd.params[i].as_str()) {
                missing.push(cmd.params[i].clone());
                proof {
                    assert(missing@.map_values(|s: String| s@) =~= before.push(ps[i as int]));
                    assert(before + (seq![ps[i as int]] + missing_from(ps, i + 1, cmd.defaults@))
                        =~= before.push(ps[i as int]) + missing_from(ps, i + 1, cmd.defaults@));
                }
            }
            i += 1;
        }
        proof {
            assert(missing@.map_values(|s: String| s@) + missing_from(ps, i as int, cmd.defaults@)
                =~= missing@.map_values(|s: String| s@));
        }
        if missing.len() > 0 {
            return Err(ExecError::MissingParameters(missing));
        }
        proof {
            lemma_missing_empty(ps, nargs as int, cmd.defaults@);
        }
    }
    let mut kept = args;
    if !cmd.allow_trailing_args && kept.len() > n {
        kept.truncate(n);
    }
    proof {
        if !cmd.allow_trailing_args && args@.len() > n {
            assert(kept@ =~= args@.take(n as int));
        }
    }
    let mut bound: StringMap<String> = StringMap::new();
    let mut i: usize = 0;
    while i < n
        invariant
            i <= n == cmd.params@.len(),
            ps == cmd@.params,
            nargs < n ==> forall|j: int| nargs <= j < n ==> cmd.defaults@.contains_key(#[trigger] ps[j]),
            kept@.len() >= nargs || kept@.len() >= n,
            kept@.len() <= nargs,
            bound@ == bound_params(ps, kept@, cmd.defaults@, i as int),
        decreases n - i,
    {
        proof {
            assert(ps[i as int] == cmd.params@[i as int]@);
        }
        let value = if i < kept.len() {
            kept[i].clone()
        } else {
            match cmd.defaults.get(cmd.params[i].as_str()) {
                Some(v) => v.clone(),
                None => {
                    proof {
                        assert(false);
                    }
                    String::new()
                },
            }
        };
        bound.insert(cmd.params[i].clone(), value);
        i += 1;
    }
    Ok((kept, bound))
}

/// `s[i..]` with each `$NAME` reference replaced by the value of `NAME` in
/// `env`. A `$` not followed by a name character stays; a reference to a
/// name that `env` lacks stays as written.
pub open spec fn interp_from(s: Seq<char>, i: int, env: Map<Seq<char>, String>) -> Seq<char>
    decreases s.len() - i,
{
    if i < 0 || i >= s.len() {
        seq![]
    } else if s[i] != '$' {
        seq![s[i]] + interp_from(s, i + 1, env)
    } else {
        proof {
            lemma_ident_end(s, i + 1);
        }
        let e = ident_end(s, i + 1);
        let name = s.subrange(i + 1, e);
        let piece = if name.len() == 0 {
            seq!['$']
        } else if env.contains_key(name) {
            env[name]@
        } else {
            seq!['$'] + name
        };
        piece + interp_from(s, e, env)
    }
}

/// Replaces `$NAME` references in `input` with values from `env`.
pub fn interpolate(input: &str, env: &StringMap<String>) -> (r: String)
    ensures
        r@ == interp_from(input@, 0, env@),
{
    let s = chars_of(input);
    let n = s.len();
    let mut out = String::new();
    let mut i: usize = 0;
    while i < n
        invariant
            n == s@.len(),
            s@ == input@,
            i <= n,
            out@ + interp_from(s@, i as int, env@) == interp_from(s@, 0, env@),
        decreases n - i,
    {
        let ghost before = out@;
        if s[i] != '$' {
            push_char(&mut out, s[i]);
            proof {
                assert(before + (seq![s@[i as int]] + interp_from(s@, i + 1, env@)) =~= out@
                    + interp_from(s@, i + 1, env@));
            }
            i += 1;
        } else {
            let mut e = i + 1;
            while e < n && ident_char(s[e])
                invariant
                    i + 1 <= e <= n == s@.len(),
                    ident_end(s@, i + 1) == ident_end(s@, e as int),
                decreases n - e,
            {
                e += 1;
            }
            proof {
                lemma_ident_end(s@, i + 1);
            }
            let name = string_of_range(&s, i + 1, e);
            if e == i + 1 {
                push_char(&mut out, '$');
            } else {
                match env.get(name.as_str()) {
                    Some(v) => {
                        out.append(v.as_str());
                    },
                    None => {
                        push_char(&mut out, '$');
                        out.append(name.as_str());
                    },
                }
            }
            proof {
                let piece = out@.subrange(before.len() as int, out@.len() as int);
                assert(out@ =~= before + piece);
                assert(before + (piece + interp_from(s@, e as int, env@)) =~= out@ + interp_from(
                    s@,
                    e as int,
                    env@,
                ));
            }
            i = e;
        }
    }
    proof {
        assert(out@ + interp_from(s@, i as int, env@) =~= out@);
    }
    out
}

/// What a dry run prints for `script`: the script, with `$NAME` references
/// replaced from `env` when `substitute` is set, and a newline.
pub fn dry_run_output(script: &str, substitute: bool, env: &StringMap<String>) -> (r: String)
    ensures
        r@ == (if substitute {
            interp_from(script@, 0, env@)
        } else {
            script@
        }).push('\n'),
{
    let mut out = if substitute {
        interpolate(script, env)
    } else {
        script.to_string()
    };
    push_char(&mut out, '\n');
    out
}

proof fn lemma_interp_unknown_from(s: Seq<char>, i: int)
    requires
        0 <= i <= s.len(),
    ensures
        interp_from(s, i, Map::empty()) == s.subrange(i, s.len() as int),
    decreases s.len() - i,
{
    if i < s.len() {
        if s[i] != '$' {
            lemma_interp_unknown_from(s, i + 1);
            assert(seq![s[i]] + s.subrange(i + 1, s.len() as int) =~= s.subrange(i, s.len() as int));
        } else {
            lemma_ident_end(s, i + 1);
            let e = ident_end(s, i + 1);
            lemma_interp_unknown_from(s, e);
            let name = s.subrange(i + 1, e);
            if name.len() == 0 {
                assert(seq!['$'] + s.subrange(e, s.len() as int) =~= s.subrange(i, s.len() as int));
            } else {
                assert(seq!['$'] + name + s.subrange(e, s.len() as int) =~= s.subrange(i, s.len() as int));
            }
        }
    } else {
        assert(s.subrange(i, s.len() as int) =~= Seq::<char>::empty());
    }
}

/// References to names the environment lacks stay as written: with an
/// empty environment, interpolation gives back its input.
pub proof fn lemma_interp_unknown_unchanged(s: Seq<char>)
    ensures
        interp_from(s, 0, Map::empty()) == s,
{
    lemma_interp_unknown_from(s, 0);
    assert(s.subrange(0, s.len() as int) =~= s);
}

/// A `$NAME` reference to a name the environment has is replaced by its
/// value, and the text around it is kept.
pub proof fn lemma_interp_reference(
    before: Seq<char>,
    name: Seq<char>,
    after: Seq<char>,
    env: Map<Seq<char>, String>,
)
    requires
        forall|k: int| 0 <= k < before.len() ==> #[trigger] before[k] != '$',
        forall|k: int| 0 <= k < after.len() ==> #[trigger] after[k] != '$',
        name.len() > 0,
        forall|k: int| 0 <= k < name.len() ==> is_ident_char(#[trigger] name[k]),
        after.len() == 0 || !is_ident_char(after[0]),
        env.contains_key(name),
    ensures
        interp_from(before + seq!['$'] + name + after, 0, env) == before + env[name]@ + after,
{
    let s = before + seq!['$'] + name + after;
    let b = before.len() as int;
    let n = name.len() as int;
    let e = b + 1 + n;
    assert forall|k: int| 0 <= k < b implies #[trigger] s[k] != '$' by {
        assert(s[k] == before[k]);
    }
    assert(s[b] == '$');
    assert forall|k: int| b + 1 <= k < e implies is_ident_char(#[trigger] s[k]) by {
        assert(s[k] == name[k - b - 1]);
    }
    assert forall|k: int| e <= k < s.len() implies #[trigger] s[k] != '$' by {
        assert(s[k] == after[k - e]);
    }
    if after.len() > 0 {
        assert(s[e] == after[0]);
    }
    lemma_ident_end_run(s, b + 1, e);
    lemma_interp_plain(s, e, env);
    assert(s.subrange(b + 1, e) =~= name);
    assert(s.subrange(e, s.len() as int) =~= after);
    lemma_interp_prefix(s, 0, b, env);
    assert(s.subrange(0, b) =~= before);
    assert(interp_from(s, b, env) == env[name]@ + interp_from(s, e, env));
    assert(before + (env[name]@ + after) =~= before + env[name]@ + after);
}

proof fn lemma_ident_end_run(s: Seq<char>, j: int, end: int)
    requires
        0 <= j <= end <= s.len(),
        forall|k: int| j <= k < end ==> is_ident_char(#[trigger] s[k]),
        end == s.len() || !is_ident_char(s[end]),
    ensures
        ident_end(s, j) == end,
    decreases end - j,
{
    if j < end {
        lemma_ident_end_run(s, j + 1, end);
    }
}

proof fn lemma_interp_plain(s: Seq<char>, i: int, env: Map<Seq<char>, String>)
    requires
        0 <= i <= s.len(),
        forall|k: int| i <= k < s.len() ==> #[trigger] s[k] != '$',
    ensures
        interp_from(s, i, env) == s.subrange(i, s.len() as int),
    decreases s.len() - i,
{
    if i < s.len() {
        lemma_interp_plain(s, i + 1, env);
        assert(seq![s[i]] + s.subrange(i + 1, s.len() as int) =~= s.subrange(i, s.len() as int));
    } else {
        assert(s.subrange(i, s.len() as int) =~= Seq::<char>::empty());
    }
}

proof fn lemma_interp_prefix(s: Seq<char>, i: int, b: int, env: Map<Seq<char>, String>)
    requires
        0 <= i <= b < s.len(),
        forall|k: int| i <= k < b ==> #[trigger] s[k] != '$',
    ensures
        interp_from(s, i, env) == s.subrange(i, b) + interp_from(s, b, env),
    decreases b - i,
{
    if i < b {
        lemma_interp_prefix(s, i + 1, b, env);
        assert(seq![s[i]] + (s.subrange(i + 1, b) + interp_from(s, b, env)) =~= s.subrange(i, b)
            + interp_from(s, b, env));
    } else {
        assert(s.subrange(i, b) =~= Seq::<char>::empty());
        assert(Seq::<char>::empty() + interp_from(s, b, env) =~= interp_from(s, b, env));
    }
}

proof fn lemma_ident_end_suffix(a: Seq<char>, b: Seq<char>, j: int)
    requires
        0 <= j <= b.len(),
    ensures
        ident_end(a + b, a.len() + j) == a.len() + ident_end(b, j),
    decreases b.len() - j,
{
    let s = a + b;
    if j < b.len() {
        assert(s[a.len() + j] == b[j]);
        lemma_ident_end_suffix(a, b, j + 1);
    }
}

/// Interpolation of a suffix does not depend on what comes before it.
proof fn lemma_interp_suffix(a: Seq<char>, b: Seq<char>, j: int, env: Map<Seq<char>, String>)
    requires
        0 <= j <= b.len(),
    ensures
        interp_from(a + b, a.len() + j, env) == interp_from(b, j, env),
    decreases b.len() - j,
{
    let s = a + b;
    let i = a.len() + j;
    if j < b.len() {
        assert(s[i] == b[j]);
        if b[j] != '$' {
            lemma_interp_suffix(a, b, j + 1, env);
        } else {
            lemma_ident_end(b, j + 1);
            lemma_ident_end_suffix(a, b, j + 1);
            let eb = ident_end(b, j + 1);
            assert(s.subrange(i + 1, a.len() + eb) =~= b.subrange(j + 1, eb));
            lemma_interp_suffix(a, b, eb, env);
        }
    }
}

/// An unknown reference stays as written and interpolation carries on
/// after it: for text `p` without `$`, a name `u` the environment lacks
/// and a rest `r` that does not continue the name, the `$u` is kept and
/// `r` is interpolated as it would be on its own.
pub proof fn lemma_interp_unknown_reference(
    p: Seq<char>,
    u: Seq<char>,
    r: Seq<char>,
    env: Map<Seq<char>, String>,
)
    requires
        forall|k: int| 0 <= k < p.len() ==> #[trigger] p[k] != '$',
        u.len() > 0,
        forall|k: int| 0 <= k < u.len() ==> is_ident_char(#[trigger] u[k]),
        !env.contains_key(u),
        r.len() == 0 || !is_ident_char(r[0]),
    ensures
        interp_from(p + seq!['$'] + u + r, 0, env) == p + seq!['$'] + u + interp_from(r, 0, env),
{
    lemma_interp_reference_step(p, u, r, env);
}

/// A known reference is replaced by its value and interpolation carries on
/// after it: for text `p` without `$`, a name `u` the environment has and
/// a rest `r` that does not continue the name, `$u` becomes `u`'s value
/// and `r` is interpolated as it would be on its own.
pub proof fn lemma_interp_known_reference(
    p: Seq<char>,
    u: Seq<char>,
    r: Seq<char>,
    env: Map<Seq<char>, String>,
)
    requires
        forall|k: int| 0 <= k < p.len() ==> #[trigger] p[k] != '$',
        u.len() > 0,
        forall|k: int| 0 <= k < u.len() ==> is_ident_char(#[trigger] u[k]),
        env.contains_key(u),
        r.len() == 0 || !is_ident_char(r[0]),
    ensures
        interp_from(p + seq!['$'] + u + r, 0, env) == p + env[u]@ + interp_from(r, 0, env),
{
    lemma_interp_reference_step(p, u, r, env);
}

proof fn lemma_interp_reference_step(
    p: Seq<char>,
    u: Seq<char>,
    r: Seq<char>,
    env: Map<Seq<char>, String>,
)
    requires
        forall|k: int| 0 <= k < p.len() ==> #[trigger] p[k] != '$',
        u.len() > 0,
        forall|k: int| 0 <= k < u.len() ==> is_ident_char(#[trigger] u[k]),
        r.len() == 0 || !is_ident_char(r[0]),
    ensures
        interp_from(p + seq!['$'] + u + r, 0, env) == p + (if env.contains_key(u) {
            env[u]@
        } else {
            seq!['$'] + u
        }) + interp_from(r, 0, env),
{
    let head = p + seq!['$'] + u;
    let s = head + r;
    assert(s =~= p + seq!['$'] + u + r);
    let b = p.len() as int;
    let n = u.len() as int;
    let e = b + 1 + n;
    assert forall|k: int| 0 <= k < b implies #[trigger] s[k] != '$' by {
        assert(s[k] == p[k]);
    }
    assert(s[b] == '$');
    assert forall|k: int| b + 1 <= k < e implies is_ident_char(#[trigger] s[k]) by {
        assert(s[k] == u[k - b - 1]);
    }
    if r.len() > 0 {
        assert(s[e] == r[0]);
    }
    lemma_ident_end_run(s, b + 1, e);
    assert(s.subrange(b + 1, e) =~= u);
    lemma_interp_suffix(head, r, 0, env);
    assert(head.len() == e);
    lemma_interp_prefix(s, 0, b, env);
    assert(s.subrange(0, b) =~= p);
    if env.contains_key(u) {
        assert(p + (env[u]@ + interp_from(r, 0, env)) =~= p + env[u]@ + interp_from(r, 0, env));
    } else {
        assert(p + ((seq!['$'] + u) + interp_from(r, 0, env)) =~= p + (seq!['$'] + u) + interp_from(
            r,
            0,
            env,
        ));
        assert(p + seq!['$'] + u + interp_from(r, 0, env) =~= p + (seq!['$'] + u) + interp_from(
            r,
            0,
            env,
        ));
    }
}

/// A parameter that has an argument is bound to that argument, whatever
/// the defaults hold; a parameter past the last argument is bound to its
/// default (when no parameter name occurs twice).
pub proof fn lemma_argument_before_default(
    params: Seq<Seq<char>>,
    args: Seq<String>,
    defaults: Map<Seq<char>, String>,
    i: int,
)
    requires
        params.no_duplicates(),
        0 <= i < params.len(),
    ensures
        bound_params(params, args, defaults, params.len() as int).contains_key(params[i]),
        i < args.len() ==> bound_params(params, args, defaults, params.len() as int)[params[i]]
            == args[i],
        i >= args.len() ==> bound_params(params, args, defaults, params.len() as int)[params[i]]
            == defaults[params[i]],
{
    lemma_bound_param_upto(params, args, defaults, i, params.len() as int);
}

/// When no parameter name occurs twice, each parameter is bound to its
/// argument if it has one and to its default otherwise.
pub proof fn lemma_bound_param(
    params: Seq<Seq<char>>,
    args: Seq<String>,
    defaults: Map<Seq<char>, String>,
    i: int,
)
    requires
        params.no_duplicates(),
        0 <= i < params.len(),
    ensures
        bound_params(params, args, defaults, params.len() as int).contains_key(params[i]),
        bound_params(params, args, defaults, params.len() as int)[params[i]] == param_value(
            params,
            args,
            defaults,
            i,
        ),
{
    lemma_bound_param_upto(params, args, defaults, i, params.len() as int);
}

proof fn lemma_bound_param_upto(
    params: Seq<Seq<char>>,
    args: Seq<String>,
    defaults: Map<Seq<char>, String>,
    i: int,
    n: int,
)
    requires
        params.no_duplicates(),
        0 <= i < n <= params.len(),
    ensures
        bound_params(params, args, defaults, n).contains_key(params[i]),
        bound_params(params, args, defaults, n)[params[i]] == param_value(params, args, defaults, i),
    decreases n,
{
    if n - 1 > i {
        lemma_bound_param_upto(params, args, defaults, i, n - 1);
        assert(params[n - 1] != params[i]);
    }
}

/// A command ready to run: its script, as segments to assemble, and the
/// arguments to pass on.
pub struct PreparedCommand {
    pub segments: Vec<Segment>,
    pub args: Vec<String>,
}

/// The segments of `cmd`'s script given the call-local values `local`: the
/// script as written for a shell command, the rendered template for a
/// template command.
pub open spec fn script_segments(
    cmd: CommandView,
    local: Map<Seq<char>, String>,
    outer: Layers,
) -> Result<Seq<SegmentView>, TemplateError> {
    match cmd.kind {
        ExecutionMode::Shell => Ok(seq![SegmentView::Text(cmd.cmd)]),
        ExecutionMode::TemplateShell => match parse_template(cmd.cmd) {
            Ok(parts) => Ok(plan_from(parts, 0, local, outer)),
            Err(e) => Err(e),
        },
    }
}

/// Prepares `request` for execution: binds its arguments, then, for a
/// template command, renders its script with the bound parameters as the
/// call-local values and `outer` as the further lookup layers; a shell
/// command's script is used as written.
pub fn prepare_command(request: ExecutionRequest, outer: &Scopes) -> (r: Result<
    PreparedCommand,
    ExecError,
>)
    ensures
        ({
            let cmd = request.cmd@;
            let miss = missing_params(cmd.params, request.args@.len() as int, cmd.defaults);
            let kept = kept_args(request.args@, cmd.params.len() as int, cmd.allow_trailing_args);
            let bound = bound_params(cmd.params, kept, cmd.defaults, cmd.params.len() as int);
            if miss.len() > 0 {
                r matches Err(ExecError::MissingParameters(names)) && names@.map_values(
                    |s: String| s@,
                ) == miss
            } else {
                match script_segments(cmd, bound, outer@) {
                    Ok(segs) => r matches Ok(p) && p.args@ == kept && p.segments@.map_values(
                        |s: Segment| s@,
                    ) == segs,
                    Err(e) => r matches Err(ExecError::Template(e2)) && e2 == e,
                }
            }
        }),
{
    let ExecutionRequest { cmd, args, .. } = request;
    let (kept, bound) = bind_params(&cmd, args)?;
    match cmd.kind {
        ExecutionMode::Shell => {
            let mut segments = Vec::new();
            segments.push(Segment::Text(cmd.cmd));
            proof {
                assert(segments@.map_values(|s: Segment| s@) =~= seq![SegmentView::Text(cmd@.cmd)]);
            }
            Ok(PreparedCommand { segments, args: kept })
        },
        ExecutionMode::TemplateShell => match render_text(cmd.cmd.as_str(), &bound, outer) {
            Ok(segments) => Ok(PreparedCommand { segments, args: kept }),
            Err(e) => Err(ExecError::Template(e)),
        },
    }
}

} // verus!
