//! Resolving the variable references of a template.
//!
//! A reference is looked up first among the call-local values (such as the
//! bound parameters of a command), then in the session store, then in the
//! persistent store, and finally in the configuration's `vars` table. A
//! stored value or a literal variable gives its value at once; a provided
//! variable gives a command whose output is the value, which the caller
//! runs. The first reference found in no layer ends resolution with an
//! error.
use vstd::prelude::*;
use crate::engine::tokenizer::{
    lemma_parse_plain_text, parse_template, plain_text, PartView, Template, TemplateError,
    TemplatePart,
};
use crate::models::command::{Command, CommandView};
use crate::models::variable::Variable;
use crate::strmap::StringMap;
use crate::text::concat;

verus! {

broadcast use vstd::string::group_string_axioms;

/// One piece of a rendered template, in output order.
pub enum Segment {
    /// Text that goes to the output as it is.
    Text(String),
    /// A command whose standard output goes to the output.
    Run(Command),
    /// A reference to a variable that is not defined; rendering fails here.
    Undefined(String),
}

/// The mathematical form of a [`Segment`].
pub enum SegmentView {
    Text(Seq<char>),
    Run(CommandView),
    Undefined(Seq<char>),
}

impl View for Segment {
    type V = SegmentView;

    open spec fn view(&self) -> SegmentView {
        match self {
            Segment::Text(t) => SegmentView::Text(t@),
            Segment::Run(c) => SegmentView::Run(c@),
            Segment::Undefined(n) => SegmentView::Undefined(n@),
        }
    }
}

/// The lookup layers behind the call-local values: values set in this
/// session, values kept in the persistent store, and the configured
/// variables.
pub struct Scopes {
    pub session: StringMap<String>,
    pub persistent: StringMap<String>,
    pub vars: StringMap<Variable>,
}

/// The mathematical form of [`Scopes`].
pub struct Layers {
    pub session: Map<Seq<char>, String>,
    pub persistent: Map<Seq<char>, String>,
    pub vars: Map<Seq<char>, Variable>,
}

impl View for Scopes {
    type V = Layers;

    open spec fn view(&self) -> Layers {
        Layers { session: self.session@, persistent: self.persistent@, vars: self.vars@ }
    }
}

/// What a configured variable contributes.
pub open spec fn variable_segment(v: Variable) -> SegmentView {
    match v {
        Variable::Literal(s) => SegmentView::Text(s@),
        Variable::Provided(p) => SegmentView::Run(p.run@),
    }
}

/// What the reference `name` contributes. The layers are tried in order:
/// the call-local values, the session store, the persistent store, then
/// the configured variables; the first that has the name decides.
pub open spec fn name_segment(name: Seq<char>, local: Map<Seq<char>, String>, outer: Layers) -> SegmentView {
    if local.contains_key(name) {
        SegmentView::Text(local[name]@)
    } else if outer.session.contains_key(name) {
        SegmentView::Text(outer.session[name]@)
    } else if outer.persistent.contains_key(name) {
        SegmentView::Text(outer.persistent[name]@)
    } else if outer.vars.contains_key(name) {
        variable_segment(outer.vars[name])
    } else {
        SegmentView::Undefined(name)
    }
}

/// What a template part contributes.
pub open spec fn part_segment(
    p: PartView,
    local: Map<Seq<char>, String>,
    outer: Layers,
) -> SegmentView {
    match p {
        PartView::Text(t) => SegmentView::Text(t),
        PartView::Expr(e) => name_segment(e, local, outer),
    }
}

/// The segments of `parts[i..]`, ending at the first undefined reference.
pub open spec fn plan_from(
    parts: Seq<PartView>,
    i: int,
    local: Map<Seq<char>, String>,
    outer: Layers,
) -> Seq<SegmentView>
    decreases parts.len() - i,
{
    if i < 0 || i >= parts.len() {
        seq![]
    } else {
        let s = part_segment(parts[i], local, outer);
        if s is Undefined {
            seq![s]
        } else {
            seq![s] + plan_from(parts, i + 1, local, outer)
        }
    }
}

/// Some layer has a value for `name`: the call-local values, the session
/// store, the persistent store or the configured variables.
pub open spec fn is_defined(name: Seq<char>, local: Map<Seq<char>, String>, outer: Layers) -> bool {
    local.contains_key(name) || outer.session.contains_key(name) || outer.persistent.contains_key(
        name,
    ) || outer.vars.contains_key(name)
}

proof fn lemma_plan_up_to(
    parts: Seq<PartView>,
    i: int,
    end: int,
    local: Map<Seq<char>, String>,
    outer: Layers,
)
    requires
        0 <= i <= end <= parts.len(),
        forall|k: int|
            i <= k < end ==> (#[trigger] parts[k] matches PartView::Expr(e) ==> is_defined(
                e,
                local,
                outer,
            )),
        end < parts.len() ==> (parts[end] matches PartView::Expr(e) && !is_defined(e, local, outer)),
    ensures
        plan_from(parts, i, local, outer).len() == end - i + if end < parts.len() {
            1int
        } else {
            0int
        },
        forall|k: int|
            0 <= k < plan_from(parts, i, local, outer).len() ==> #[trigger] plan_from(
                parts,
                i,
                local,
                outer,
            )[k] == part_segment(parts[i + k], local, outer),
    decreases end - i,
{
    let plan = plan_from(parts, i, local, outer);
    if i == end {
        if end < parts.len() {
            assert(part_segment(parts[i], local, outer) is Undefined);
            assert(plan == seq![part_segment(parts[i], local, outer)]);
        }
    } else {
        let s = part_segment(parts[i], local, outer);
        assert(parts[i] matches PartView::Expr(e) ==> is_defined(e, local, outer));
        assert(!(s is Undefined));
        lemma_plan_up_to(parts, i + 1, end, local, outer);
        let rest = plan_from(parts, i + 1, local, outer);
        assert(plan == seq![s] + rest);
        assert forall|k: int| 0 <= k < plan.len() implies #[trigger] plan[k] == part_segment(
            parts[i + k],
            local,
            outer,
        ) by {
            if k > 0 {
                assert(plan[k] == rest[k - 1]);
                assert(i + 1 + (k - 1) == i + k);
            }
        }
    }
}

/// Rendering covers the whole template when every reference is defined:
/// the plan has one segment per part, and the segment of part `i` is what
/// that part resolves to, whichever layer resolves it.
pub proof fn lemma_plan_complete(
    parts: Seq<PartView>,
    local: Map<Seq<char>, String>,
    outer: Layers,
)
    requires
        forall|i: int|
            0 <= i < parts.len() ==> (#[trigger] parts[i] matches PartView::Expr(e) ==> is_defined(
                e,
                local,
                outer,
            )),
    ensures
        plan_from(parts, 0, local, outer).len() == parts.len(),
        forall|i: int|
            0 <= i < parts.len() ==> #[trigger] plan_from(parts, 0, local, outer)[i] == part_segment(
                parts[i],
                local,
                outer,
            ),
{
    lemma_plan_up_to(parts, 0, parts.len() as int, local, outer);
}

/// Rendering stops at the first undefined reference: when part `j` refers
/// to a name no layer has and every reference before it is defined, the
/// plan has the segments of parts `0..j` and ends with that name undefined.
pub proof fn lemma_plan_stops_at_undefined(
    parts: Seq<PartView>,
    j: int,
    local: Map<Seq<char>, String>,
    outer: Layers,
)
    requires
        0 <= j < parts.len(),
        forall|i: int|
            0 <= i < j ==> (#[trigger] parts[i] matches PartView::Expr(e) ==> is_defined(
                e,
                local,
                outer,
            )),
        parts[j] matches PartView::Expr(e) && !is_defined(e, local, outer),
    ensures
        plan_from(parts, 0, local, outer).len() == j + 1,
        forall|i: int|
            0 <= i < j ==> #[trigger] plan_from(parts, 0, local, outer)[i] == part_segment(
                parts[i],
                local,
                outer,
            ),
        parts[j] matches PartView::Expr(e) && plan_from(parts, 0, local, outer)[j]
            == SegmentView::Undefined(e),
{
    lemma_plan_up_to(parts, 0, j, local, outer);
    assert(plan_from(parts, 0, local, outer)[j] == part_segment(parts[j], local, outer));
}

/// Layer precedence in resolution: a call-local value wins over everything
/// else, a session value over the persistent store and the configuration,
/// a persistent value over the configuration; a name no layer has is
/// undefined.
pub proof fn lemma_local_shadows(
    name: Seq<char>,
    local: Map<Seq<char>, String>,
    outer: Layers,
)
    ensures
        local.contains_key(name) ==> name_segment(name, local, outer) == SegmentView::Text(
            local[name]@,
        ),
        !local.contains_key(name) && !outer.session.contains_key(name)
            && !outer.persistent.contains_key(name) && !outer.vars.contains_key(name) ==> name_segment(
            name,
            local,
            outer,
        ) == SegmentView::Undefined(name),
        !local.contains_key(name) && outer.session.contains_key(name) ==> name_segment(
            name,
            local,
            outer,
        ) == SegmentView::Text(outer.session[name]@),
        !local.contains_key(name) && !outer.session.contains_key(name)
            && outer.persistent.contains_key(name) ==> name_segment(name, local, outer)
            == SegmentView::Text(outer.persistent[name]@),
{
}

/// What a configured variable contributes: its value, or the command that
/// provides it.
pub fn resolve_variable(variable: &Variable) -> (s: Segment)
    ensures
        s@ == variable_segment(*variable),
{
    match variable {
        Variable::Literal(v) => Segment::Text(v.clone()),
        Variable::Provided(provider) => Segment::Run(provider.run.duplicate()),
    }
}

/// Looks `name` up among the call-local values, then the session store,
/// the persistent store and the configured variables.
pub fn resolve_var(name: &str, local_vars: &StringMap<String>, outer: &Scopes) -> (s: Segment)
    ensures
        s@ == name_segment(name@, local_vars@, outer@),
{
    if let Some(v) = local_vars.get(name) {
        return Segment::Text(v.clone());
    }
    if let Some(v) = outer.session.get(name) {
        return Segment::Text(v.clone());
    }
    if let Some(v) = outer.persistent.get(name) {
        return Segment::Text(v.clone());
    }
    if let Some(variable) = outer.vars.get(name) {
        return resolve_variable(variable);
    }
    Segment::Undefined(name.to_string())
}

/// The segments that render `template`: its text, and each reference
/// resolved, up to and including the first reference that is undefined.
pub fn render_template(
    template: &Template,
    local_vars: &StringMap<String>,
    outer: &Scopes,
) -> (r: Vec<Segment>)
    ensures
        r@.map_values(|s: Segment| s@) == plan_from(template@, 0, local_vars@, outer@),
{
    let ghost parts = template@;
    let mut out: Vec<Segment> = Vec::new();
    let mut i: usize = 0;
    while i < template.parts.len()
        invariant
            i <= template.parts@.len(),
            parts == template@,
            plan_from(parts, 0, local_vars@, outer@) == out@.map_values(|s: Segment| s@) + plan_from(
                parts,
                i as int,
                local_vars@,
                outer@,
            ),
        decreases template.parts@.len() - i,
    {
        let ghost before = out@.map_values(|s: Segment| s@);
        let seg = match &template.parts[i] {
            TemplatePart::Text(t) => Segment::Text(t.clone()),
            TemplatePart::Expr(e) => resolve_var(e.as_str(), local_vars, outer),
        };
        proof {
            assert(parts[i as int] == template.parts@[i as int]@);
        }
        let stop = match &seg {
            Segment::Undefined(_) => true,
            _ => false,
        };
        let ghost sv = seg@;
        out.push(seg);
        proof {
            assert(out@.map_values(|s: Segment| s@) =~= before.push(sv));
        }
        if stop {
            proof {
                assert(plan_from(parts, i as int, local_vars@, outer@) =~= seq![sv]);
                assert(before + seq![sv] =~= before.push(sv));
                assert(out@.map_values(|s: Segment| s@) =~= before + seq![sv]);
            }
            return out;
        }
        proof {
            assert(before + (seq![sv] + plan_from(parts, i + 1, local_vars@, outer@)) =~= before.push(
                sv,
            ) + plan_from(parts, i + 1, local_vars@, outer@));
        }
        i += 1;
    }
    proof {
        assert(out@.map_values(|s: Segment| s@) + plan_from(parts, i as int, local_vars@, outer@)
            =~= out@.map_values(|s: Segment| s@));
    }
    out
}

/// Parses `text` as a template and renders it as [`render_template`] does.
pub fn render_text(text: &str, local_vars: &StringMap<String>, outer: &Scopes) -> (r:
    Result<Vec<Segment>, TemplateError>)
    ensures
        match parse_template(text@) {
            Ok(parts) => r matches Ok(segs) && segs@.map_values(|s: Segment| s@) == plan_from(
                parts,
                0,
                local_vars@,
                outer@,
            ),
            Err(e) => r == Err::<Vec<Segment>, TemplateError>(e),
        },
{
    match Template::parse(text) {
        Ok(t) => Ok(render_template(&t, local_vars, outer)),
        Err(e) => Err(e),
    }
}

/// The number of commands among `segs`.
pub open spec fn run_count(segs: Seq<SegmentView>) -> nat
    decreases segs.len(),
{
    if segs.len() == 0 {
        0
    } else {
        run_count(segs.drop_last()) + if segs.last() is Run {
            1nat
        } else {
            0nat
        }
    }
}

/// The rendered text of `segs`, where `outs[i]` is the output of the
/// `i`-th command among them; or the name of the first undefined variable.
pub open spec fn assembled(segs: Seq<SegmentView>, outs: Seq<Seq<char>>) -> Result<
    Seq<char>,
    Seq<char>,
>
    decreases segs.len(),
{
    if segs.len() == 0 {
        Ok(seq![])
    } else {
        match assembled(segs.drop_last(), outs) {
            Err(n) => Err(n),
            Ok(t) => match segs.last() {
                SegmentView::Text(x) => Ok(t + x),
                SegmentView::Run(_) => Ok(t + outs[run_count(segs.drop_last()) as int]),
                SegmentView::Undefined(n) => Err(n),
            },
        }
    }
}

/// Puts the rendered text together: each text segment as it is, each
/// command's segment replaced by its output (`outputs`, in order). Fails
/// with the variable's name at an undefined reference.
pub fn assemble(segments: &Vec<Segment>, outputs: &Vec<String>) -> (r: Result<String, String>)
    requires
        outputs@.len() == run_count(segments@.map_values(|s: Segment| s@)),
    ensures
        match assembled(
            segments@.map_values(|s: Segment| s@),
            outputs@.map_values(|s: String| s@),
        ) {
            Ok(t) => r matches Ok(x) && x@ == t,
            Err(n) => r matches Err(x) && x@ == n,
        },
{
    let ghost segs = segments@.map_values(|s: Segment| s@);
    let ghost outs = outputs@.map_values(|s: String| s@);
    let nout = outputs.len();
    let mut text = String::new();
    let mut k: usize = 0;
    let mut i: usize = 0;
    while i < segments.len()
        invariant
            i <= segments@.len(),
            segs == segments@.map_values(|s: Segment| s@),
            outs == outputs@.map_values(|s: String| s@),
            outputs@.len() == run_count(segs),
            nout == outputs@.len(),
            k == run_count(segs.take(i as int)),
            assembled(segs.take(i as int), outs) == Ok::<Seq<char>, Seq<char>>(text@),
        decreases segments@.len() - i,
    {
        proof {
            assert(segs.take(i + 1).drop_last() =~= segs.take(i as int));
            assert(segs.take(i + 1).last() == segments@[i as int]@);
            lemma_run_count_prefix(segs, i + 1);
        }
        match &segments[i] {
            Segment::Text(t) => {
                text.append(t.as_str());
            },
            Segment::Run(_) => {
                text.append(outputs[k].as_str());
                k += 1;
            },
            Segment::Undefined(name) => {
                proof {
                    lemma_assembled_err_extends(segs, i + 1);
                    assert(segs.take(segs.len() as int) =~= segs);
                }
                return Err(name.clone());
            },
        }
        i += 1;
    }
    proof {
        assert(segs.take(i as int) =~= segs);
    }
    Ok(text)
}

/// Commands are counted across a concatenation: the commands of `a + b`
/// are those of `a` and those of `b`.
pub proof fn lemma_run_count_concat(a: Seq<SegmentView>, b: Seq<SegmentView>)
    ensures
        run_count(a + b) == run_count(a) + run_count(b),
    decreases b.len(),
{
    if b.len() == 0 {
        assert(a + b =~= a);
    } else {
        assert((a + b).drop_last() =~= a + b.drop_last());
        assert((a + b).last() == b.last());
        lemma_run_count_concat(a, b.drop_last());
    }
}

/// Assembly is concatenation: the segments of `a + b` assemble to what `a`
/// assembles to followed by what `b` assembles to with the outputs that
/// remain after those of `a`'s commands; the first failure, in order,
/// is the result when there is one.
pub proof fn lemma_assembled_concat(a: Seq<SegmentView>, b: Seq<SegmentView>, outs: Seq<Seq<char>>)
    requires
        run_count(a) + run_count(b) <= outs.len(),
    ensures
        match assembled(a, outs) {
            Err(n) => assembled(a + b, outs) == Err::<Seq<char>, Seq<char>>(n),
            Ok(t) => match assembled(b, outs.skip(run_count(a) as int)) {
                Ok(u) => assembled(a + b, outs) == Ok::<Seq<char>, Seq<char>>(t + u),
                Err(n) => assembled(a + b, outs) == Err::<Seq<char>, Seq<char>>(n),
            },
        },
    decreases b.len(),
{
    let rest = outs.skip(run_count(a) as int);
    if b.len() == 0 {
        assert(a + b =~= a);
        if let Ok(t) = assembled(a, outs) {
            assert(t + seq![] =~= t);
        }
    } else {
        let b0 = b.drop_last();
        assert((a + b).drop_last() =~= a + b0);
        assert((a + b).last() == b.last());
        lemma_run_count_concat(a, b0);
        lemma_run_count_concat(b0, seq![b.last()]);
        assert(b0 + seq![b.last()] =~= b);
        lemma_assembled_concat(a, b0, outs);
        if let Ok(t) = assembled(a, outs) {
            if let Ok(u) = assembled(b0, rest) {
                match b.last() {
                    SegmentView::Text(x) => {
                        assert(t + (u + x) =~= (t + u) + x);
                    },
                    SegmentView::Run(_) => {
                        let k = run_count(b0);
                        assert(rest[k as int] == outs[(run_count(a) + k) as int]);
                        assert(t + (u + rest[k as int]) =~= (t + u) + outs[(run_count(a) + k) as int]);
                    },
                    SegmentView::Undefined(_) => {},
                }
            }
        }
    }
}

/// Appending a text segment appends its text: if `segs` assemble to `t`,
/// then `segs` followed by `Text(x)` assemble to `t + x`, with the same
/// commands; a failure among `segs` stays the result.
pub proof fn lemma_assembled_push_text(segs: Seq<SegmentView>, x: Seq<char>, outs: Seq<Seq<char>>)
    ensures
        run_count(segs.push(SegmentView::Text(x))) == run_count(segs),
        match assembled(segs, outs) {
            Ok(t) => assembled(segs.push(SegmentView::Text(x)), outs) == Ok::<Seq<char>, Seq<char>>(
                t + x,
            ),
            Err(n) => assembled(segs.push(SegmentView::Text(x)), outs) == Err::<
                Seq<char>,
                Seq<char>,
            >(n),
        },
{
    assert(segs.push(SegmentView::Text(x)).drop_last() =~= segs);
}

/// Appending a command's segment appends that command's output: if `segs`
/// assemble to `t`, then `segs` followed by a command assemble to `t`
/// followed by the next unused output, `outs[run_count(segs)]`.
pub proof fn lemma_assembled_push_run(segs: Seq<SegmentView>, c: CommandView, outs: Seq<Seq<char>>)
    ensures
        run_count(segs.push(SegmentView::Run(c))) == run_count(segs) + 1,
        match assembled(segs, outs) {
            Ok(t) => assembled(segs.push(SegmentView::Run(c)), outs) == Ok::<Seq<char>, Seq<char>>(
                t + outs[run_count(segs) as int],
            ),
            Err(n) => assembled(segs.push(SegmentView::Run(c)), outs) == Err::<
                Seq<char>,
                Seq<char>,
            >(n),
        },
{
    assert(segs.push(SegmentView::Run(c)).drop_last() =~= segs);
}

/// An undefined reference fails assembly with its name, unless an earlier
/// one already did.
pub proof fn lemma_assembled_push_undefined(
    segs: Seq<SegmentView>,
    name: Seq<char>,
    outs: Seq<Seq<char>>,
)
    ensures
        match assembled(segs, outs) {
            Ok(_) => assembled(segs.push(SegmentView::Undefined(name)), outs) == Err::<
                Seq<char>,
                Seq<char>,
            >(name),
            Err(n) => assembled(segs.push(SegmentView::Undefined(name)), outs) == Err::<
                Seq<char>,
                Seq<char>,
            >(n),
        },
{
    assert(segs.push(SegmentView::Undefined(name)).drop_last() =~= segs);
}

proof fn lemma_run_count_prefix(segs: Seq<SegmentView>, n: int)
    requires
        0 <= n <= segs.len(),
    ensures
        run_count(segs.take(n)) <= run_count(segs),
    decreases segs.len(),
{
    if n < segs.len() {
        assert(segs.drop_last().take(n) =~= segs.take(n));
        lemma_run_count_prefix(segs.drop_last(), n);
    } else {
        assert(segs.take(n) =~= segs);
    }
}

proof fn lemma_assembled_err_extends(segs: Seq<SegmentView>, n: int)
    requires
        0 <= n <= segs.len(),
    ensures
        forall|outs: Seq<Seq<char>>| #![auto]
            assembled(segs.take(n), outs) is Err ==> assembled(segs.take(n), outs) == assembled(segs, outs),
    decreases segs.len() - n,
{
    if n < segs.len() {
        lemma_assembled_err_extends(segs, n + 1);
        assert forall|outs: Seq<Seq<char>>| #![auto]
            assembled(segs.take(n), outs) is Err implies assembled(segs.take(n + 1), outs) == assembled(segs.take(n), outs) by {
            assert(segs.take(n + 1).drop_last() =~= segs.take(n));
        }
    } else {
        assert(segs.take(n) =~= segs);
    }
}

/// The text a part renders to when every reference has a call-local value.
pub open spec fn piece(p: PartView, local: Map<Seq<char>, String>) -> Seq<char> {
    match p {
        PartView::Text(t) => t,
        PartView::Expr(e) => local[e]@,
    }
}

/// The parts with each reference replaced by its call-local value.
pub open spec fn substituted(parts: Seq<PartView>, local: Map<Seq<char>, String>) -> Seq<char>
    decreases parts.len(),
{
    if parts.len() == 0 {
        seq![]
    } else {
        substituted(parts.drop_last(), local) + piece(parts.last(), local)
    }
}

/// Every reference among `parts` has a call-local value.
pub open spec fn all_local(parts: Seq<PartView>, local: Map<Seq<char>, String>) -> bool {
    forall|i: int| 0 <= i < parts.len() ==> (#[trigger] parts[i] matches PartView::Expr(e) ==> local.contains_key(e))
}

proof fn lemma_plan_all_local(
    parts: Seq<PartView>,
    i: int,
    local: Map<Seq<char>, String>,
    outer: Layers,
)
    requires
        all_local(parts, local),
        0 <= i <= parts.len(),
    ensures
        plan_from(parts, i, local, outer) == parts.skip(i).map_values(
            |p: PartView| part_segment(p, local, outer),
        ),
    decreases parts.len() - i,
{
    if i < parts.len() {
        lemma_plan_all_local(parts, i + 1, local, outer);
        assert(parts[i] matches PartView::Expr(e) ==> local.contains_key(e));
        assert(seq![part_segment(parts[i], local, outer)] + parts.skip(i + 1).map_values(
            |p: PartView| part_segment(p, local, outer),
        ) =~= parts.skip(i).map_values(|p: PartView| part_segment(p, local, outer)));
    } else {
        assert(parts.skip(i).map_values(|p: PartView| part_segment(p, local, outer)) =~= Seq::<
            SegmentView,
        >::empty());
    }
}

proof fn lemma_assembled_texts(
    parts: Seq<PartView>,
    local: Map<Seq<char>, String>,
    outer: Layers,
    outs: Seq<Seq<char>>,
)
    requires
        all_local(parts, local),
    ensures
        assembled(parts.map_values(|p: PartView| part_segment(p, local, outer)), outs) == Ok::<
            Seq<char>,
            Seq<char>,
        >(substituted(parts, local)),
        run_count(parts.map_values(|p: PartView| part_segment(p, local, outer))) == 0,
    decreases parts.len(),
{
    let segs = parts.map_values(|p: PartView| part_segment(p, local, outer));
    if parts.len() > 0 {
        let front = parts.drop_last();
        assert forall|i: int| 0 <= i < front.len() implies (#[trigger] front[i] matches PartView::Expr(e)
            ==> local.contains_key(e)) by {
            assert(front[i] == parts[i]);
        }
        lemma_assembled_texts(front, local, outer, outs);
        assert(segs.drop_last() =~= front.map_values(|p: PartView| part_segment(p, local, outer)));
        let n = parts.len() - 1;
        assert(parts[n] matches PartView::Expr(e) ==> local.contains_key(e));
        assert(segs.last() == part_segment(parts.last(), local, outer));
    }
}

/// Rendering substitutes: when every reference of a template has a
/// call-local value, rendering runs no command and gives the template's
/// text with each reference replaced by its value.
pub proof fn lemma_render_substitutes(
    parts: Seq<PartView>,
    local: Map<Seq<char>, String>,
    outer: Layers,
    outs: Seq<Seq<char>>,
)
    requires
        all_local(parts, local),
    ensures
        run_count(plan_from(parts, 0, local, outer)) == 0,
        assembled(plan_from(parts, 0, local, outer), outs) == Ok::<Seq<char>, Seq<char>>(
            substituted(parts, local),
        ),
{
    lemma_plan_all_local(parts, 0, local, outer);
    assert(parts.skip(0) =~= parts);
    lemma_assembled_texts(parts, local, outer, outs);
}

/// Text without markup renders to itself: it parses to at most one text
/// part, rendering it runs no command and needs no variable, and the
/// assembled result is the text unchanged.
pub proof fn lemma_render_plain_text(
    s: Seq<char>,
    local: Map<Seq<char>, String>,
    outer: Layers,
    outs: Seq<Seq<char>>,
)
    requires
        plain_text(s),
    ensures
        parse_template(s) matches Ok(parts) && run_count(plan_from(parts, 0, local, outer)) == 0
            && assembled(plan_from(parts, 0, local, outer), outs) == Ok::<Seq<char>, Seq<char>>(s),
{
    lemma_parse_plain_text(s);
    let parts: Seq<PartView> = if s.len() == 0 {
        seq![]
    } else {
        seq![PartView::Text(s)]
    };
    assert(all_local(parts, local));
    lemma_render_substitutes(parts, local, outer, outs);
    if s.len() == 0 {
        assert(substituted(parts, local) =~= s);
    } else {
        assert(parts.drop_last() =~= Seq::<PartView>::empty());
        assert(substituted(parts.drop_last(), local) =~= Seq::<char>::empty());
        assert(piece(parts.last(), local) == s);
        assert(substituted(parts, local) =~= Seq::<char>::empty() + s);
        assert(Seq::<char>::empty() + s =~= s);
    }
}

/// The error text for a reference to an undefined variable.
pub fn undefined_message(name: &str) -> (m: String)
    ensures
        m@ == "Undefined variable '"@ + name@ + "'"@,
{
    let a = concat("Undefined variable '", name);
    concat(a.as_str(), "'")
}

} // verus!
