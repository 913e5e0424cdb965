//! Template strings: literal text with embedded variable references.
//!
//! A reference is written `{{ name }}` (surrounding whitespace inside the
//! braces is ignored) or `@name`, where a name is a run of ASCII letters,
//! digits and `_`. `\{{` stands for a literal `{{` and `\@` for a literal
//! `@`; an `@` not followed by a name character is literal text. Parsing
//! only splits the string; resolving names happens elsewhere.
use vstd::prelude::*;
use crate::text::{
    is_space, lemma_trim_bounds, lemma_trim_stops, trim_hi, trim_lo,
    chars_of, ident_char, ident_end, is_ident_char, lemma_ident_end, push_char, string_of_range,
    trim_range, trimmed,
};

verus! {

broadcast use vstd::string::group_string_axioms;

/// A parsed template: literal text segments and variable references.
pub struct Template {
    pub parts: Vec<TemplatePart>,
}

/// One segment of a template.
#[derive(Debug, Clone, PartialEq)]
pub enum TemplatePart {
    Text(String),
    Expr(String),
}

/// The mathematical form of a [`TemplatePart`].
pub enum PartView {
    Text(Seq<char>),
    Expr(Seq<char>),
}

impl View for TemplatePart {
    type V = PartView;

    open spec fn view(&self) -> PartView {
        match self {
            TemplatePart::Text(t) => PartView::Text(t@),
            TemplatePart::Expr(e) => PartView::Expr(e@),
        }
    }
}

impl View for Template {
    type V = Seq<PartView>;

    open spec fn view(&self) -> Seq<PartView> {
        self.parts@.map_values(|p: TemplatePart| p@)
    }
}

/// Why a template could not be parsed.
#[derive(Debug, Clone, Copy, PartialEq, Eq, Structural)]
pub enum TemplateError {
    /// A `{{` with no `}}` after it.
    UnclosedExpression,
    /// A `{{ }}` with nothing but whitespace inside.
    EmptyExpression,
}

impl TemplateError {
    /// The human-readable description of the error.
    pub fn message(&self) -> (m: String)
        ensures
            *self == TemplateError::UnclosedExpression ==> m@ == "Unclosed template expression"@,
            *self == TemplateError::EmptyExpression ==> m@ == "Empty template expression"@,
    {
        match self {
            TemplateError::UnclosedExpression => "Unclosed template expression".to_string(),
            TemplateError::EmptyExpression => "Empty template expression".to_string(),
        }
    }
}

/// The pending text, as a part list: nothing if it is empty.
pub open spec fn flush(cur: Seq<char>) -> Seq<PartView> {
    if cur.len() == 0 {
        seq![]
    } else {
        seq![PartView::Text(cur)]
    }
}

/// `r` with `p` in front of its parts, or `r`'s error.
pub open spec fn prepend(
    p: Seq<PartView>,
    r: Result<Seq<PartView>, TemplateError>,
) -> Result<Seq<PartView>, TemplateError> {
    match r {
        Ok(q) => Ok(p + q),
        Err(e) => Err(e),
    }
}

/// The position of the first `}}` in `s` at or after `i`.
pub open spec fn close_from(s: Seq<char>, i: int) -> Option<int>
    decreases s.len() - i,
{
    if i < 0 || i + 1 >= s.len() {
        None
    } else if s[i] == '}' && s[i + 1] == '}' {
        Some(i)
    } else {
        close_from(s, i + 1)
    }
}

pub proof fn lemma_close_from(s: Seq<char>, i: int)
    requires
        0 <= i,
    ensures
        match close_from(s, i) {
            Some(c) => i <= c && c + 1 < s.len() && s[c] == '}' && s[c + 1] == '}' && forall|k: int|
                i <= k < c ==> !(#[trigger] s[k] == '}' && s[k + 1] == '}'),
            None => forall|k: int| i <= k && k + 1 < s.len() ==> !(#[trigger] s[k] == '}' && s[k + 1] == '}'),
        },
    decreases s.len() - i,
{
    if i + 1 < s.len() && !(s[i] == '}' && s[i + 1] == '}') {
        lemma_close_from(s, i + 1);
    }
}

/// The parts of `s` from position `i` on, given the text `cur` read so
/// far and not yet emitted.
pub open spec fn parse_from(s: Seq<char>, i: int, cur: Seq<char>) -> Result<
    Seq<PartView>,
    TemplateError,
>
    decreases s.len() - i,
{
    if i < 0 || i >= s.len() {
        Ok(flush(cur))
    } else if s[i] == '\\' && i + 2 < s.len() && s[i + 1] == '{' && s[i + 2] == '{' {
        parse_from(s, i + 3, cur + seq!['{', '{'])
    } else if s[i] == '\\' && i + 1 < s.len() && s[i + 1] == '@' {
        parse_from(s, i + 2, cur.push('@'))
    } else if s[i] == '{' && i + 1 < s.len() && s[i + 1] == '{' {
        match close_from(s, i + 2) {
            None => Err(TemplateError::UnclosedExpression),
            Some(c) => {
                let name = trimmed(s, i + 2, c);
                if name.len() == 0 {
                    Err(TemplateError::EmptyExpression)
                } else {
                    proof {
                        lemma_close_from(s, i + 2);
                    }
                    prepend(flush(cur).push(PartView::Expr(name)), parse_from(s, c + 2, seq![]))
                }
            },
        }
    } else if s[i] == '@' && i + 1 < s.len() && is_ident_char(s[i + 1]) {
        proof {
            lemma_ident_end(s, i + 1);
        }
        let e = ident_end(s, i + 1);
        prepend(flush(cur).push(PartView::Expr(s.subrange(i + 1, e))), parse_from(s, e, seq![]))
    } else {
        parse_from(s, i + 1, cur.push(s[i]))
    }
}

/// The parts of the template text `s`, or why it is malformed.
pub open spec fn parse_template(s: Seq<char>) -> Result<Seq<PartView>, TemplateError> {
    parse_from(s, 0, seq![])
}

proof fn lemma_prepend_prepend(
    p: Seq<PartView>,
    q: Seq<PartView>,
    r: Result<Seq<PartView>, TemplateError>,
)
    ensures
        prepend(p, prepend(q, r)) == prepend(p + q, r),
{
    match r {
        Ok(x) => {
            assert(p + (q + x) =~= (p + q) + x);
        },
        Err(_) => {},
    }
}

/// Length of `s[start..]` up to and including the first `}}` found after
/// the opening `{{` at `start`.
fn expr_boundary(s: &Vec<char>, start: usize) -> (r: Result<usize, TemplateError>)
    requires
        start + 2 <= s@.len(),
    ensures
        match r {
            Ok(len) => close_from(s@, start + 2) == Some(start + len - 2) && start + len <= s@.len()
                && len >= 4,
            Err(e) => e == TemplateError::UnclosedExpression && close_from(s@, start + 2) is None,
        },
{
    let n = s.len();
    let mut j = start + 2;
    while j < n - 1
        invariant
            start + 2 <= j <= s@.len(),
            n == s@.len(),
            close_from(s@, start + 2) == close_from(s@, j as int),
        decreases s@.len() - j,
    {
        if s[j] == '}' && s[j + 1] == '}' {
            return Ok(j + 2 - start);
        }
        j += 1;
    }
    Err(TemplateError::UnclosedExpression)
}

impl Template {
    /// Splits `input` into literal text and variable references.
    ///
    /// Text parts are never empty and never adjacent; each reference is
    /// one `Expr` part holding the variable's name.
    pub fn parse(input: &str) -> (r: Result<Template, TemplateError>)
        ensures
            match parse_template(input@) {
                Ok(ps) => r matches Ok(t) && t@ == ps,
                Err(e) => r == Err::<Template, TemplateError>(e),
            },
    {
        let s = chars_of(input);
        let n = s.len();
        let mut parts: Vec<TemplatePart> = Vec::new();
        let mut cur = String::new();
        let mut pos: usize = 0;
        while pos < n
            invariant
                n == s@.len(),
                pos <= n,
                s@ == input@,
                parse_template(s@) == prepend(
                    parts@.map_values(|p: TemplatePart| p@),
                    parse_from(s@, pos as int, cur@),
                ),
            decreases n - pos,
        {
            let ghost ps = parts@.map_values(|p: TemplatePart| p@);
            let ghost old_cur = cur@;
            if s[pos] == '\\' && n - pos > 2 && s[pos + 1] == '{' && s[pos + 2] == '{' {
                push_char(&mut cur, '{');
                push_char(&mut cur, '{');
                proof {
                    assert(cur@ =~= old_cur + seq!['{', '{']);
                }
                proof {
                    assert(parse_from(s@, pos as int, old_cur) == parse_from(s@, pos + 3, cur@));
                }
                pos += 3;
            } else if s[pos] == '\\' && pos + 1 < n && s[pos + 1] == '@' {
                push_char(&mut cur, '@');
                proof {
                    assert(parse_from(s@, pos as int, old_cur) == parse_from(s@, pos + 2, cur@));
                }
                pos += 2;
            } else if s[pos] == '{' && pos + 1 < n && s[pos + 1] == '{' {
                let len = match expr_boundary(&s, pos) {
                    Ok(len) => len,
                    Err(e) => {
                        return Err(e);
                    },
                };
                let (lo, hi) = trim_range(&s, pos + 2, pos + len - 2);
                if lo == hi {
                    return Err(TemplateError::EmptyExpression);
                }
                let ghost flushed = flush(old_cur);
                if !cur.as_str().is_empty() {
                    parts.push(TemplatePart::Text(cur));
                    cur = String::new();
                }
                assert(cur@ =~= Seq::<char>::empty());
                let name = string_of_range(&s, lo, hi);
                let ghost nv = name@;
                parts.push(TemplatePart::Expr(name));
                proof {
                    lemma_close_from(s@, pos + 2);
                    let q = flushed.push(PartView::Expr(nv));
                    assert(parts@.map_values(|p: TemplatePart| p@) =~= ps + q);
                    lemma_prepend_prepend(ps, q, parse_from(s@, pos + len, cur@));
                }
                proof {
                    assert(parse_from(s@, pos as int, old_cur) == prepend(
                        flushed.push(PartView::Expr(nv)),
                        parse_from(s@, pos + len, cur@),
                    ));
                }
                pos = pos + len;
            } else if s[pos] == '@' && pos + 1 < n && ident_char(s[pos + 1]) {
                let mut e = pos + 1;
                while e < n && ident_char(s[e])
                    invariant
                        pos + 1 <= e <= n == s@.len(),
                        ident_end(s@, pos + 1) == ident_end(s@, e as int),
                    decreases n - e,
                {
                    e += 1;
                }
                let ghost flushed = flush(old_cur);
                if !cur.as_str().is_empty() {
                    parts.push(TemplatePart::Text(cur));
                    cur = String::new();
                }
                assert(cur@ =~= Seq::<char>::empty());
                let name = string_of_range(&s, pos + 1, e);
                let ghost nv = name@;
                parts.push(TemplatePart::Expr(name));
                proof {
                    let q = flushed.push(PartView::Expr(nv));
                    assert(parts@.map_values(|p: TemplatePart| p@) =~= ps + q);
                    lemma_prepend_prepend(ps, q, parse_from(s@, e as int, cur@));
                }
                proof {
                    lemma_ident_end(s@, pos + 1);
                    assert(parse_from(s@, pos as int, old_cur) == prepend(
                        flushed.push(PartView::Expr(nv)),
                        parse_from(s@, e as int, cur@),
                    ));
                }
                pos = e;
            } else {
                push_char(&mut cur, s[pos]);
                proof {
                    assert(parse_from(s@, pos as int, old_cur) == parse_from(s@, pos + 1, cur@));
                }
                pos += 1;
            }
        }
        let ghost ps = parts@.map_values(|p: TemplatePart| p@);
        if !cur.as_str().is_empty() {
            parts.push(TemplatePart::Text(cur));
        }
        proof {
            assert(parts@.map_values(|p: TemplatePart| p@) =~= ps + flush(cur@));
        }
        Ok(Template { parts })
    }
}

/// The part list is in normal form: every text part and every name is
/// non-empty, and no two text parts are adjacent.
pub open spec fn normal_parts(ps: Seq<PartView>) -> bool {
    &&& forall|i: int|
        0 <= i < ps.len() ==> match #[trigger] ps[i] {
            PartView::Text(t) => t.len() > 0,
            PartView::Expr(e) => e.len() > 0,
        }
    &&& forall|i: int| 0 <= i < ps.len() - 1 ==> !(#[trigger] ps[i] is Text && ps[i + 1] is Text)
}

proof fn lemma_parse_from_normal(s: Seq<char>, i: int, cur: Seq<char>)
    requires
        0 <= i,
    ensures
        parse_from(s, i, cur) matches Ok(ps) ==> normal_parts(ps) && (cur.len() > 0 ==> ps.len() > 0
            && ps[0] is Text),
    decreases s.len() - i,
{
    if i >= s.len() {
    } else if s[i] == '\\' && i + 2 < s.len() && s[i + 1] == '{' && s[i + 2] == '{' {
        lemma_parse_from_normal(s, i + 3, cur + seq!['{', '{']);
    } else if s[i] == '\\' && i + 1 < s.len() && s[i + 1] == '@' {
        lemma_parse_from_normal(s, i + 2, cur.push('@'));
    } else if s[i] == '{' && i + 1 < s.len() && s[i + 1] == '{' {
        lemma_close_from(s, i + 2);
        match close_from(s, i + 2) {
            None => {},
            Some(c) => {
                let name = trimmed(s, i + 2, c);
                if name.len() > 0 {
                    lemma_parse_from_normal(s, c + 2, seq![]);
                    let head = flush(cur).push(PartView::Expr(name));
                    lemma_normal_join(head, parse_from(s, c + 2, seq![]));
                }
            },
        }
    } else if s[i] == '@' && i + 1 < s.len() && is_ident_char(s[i + 1]) {
        lemma_ident_end(s, i + 2);
        let e = ident_end(s, i + 1);
        assert(e == ident_end(s, i + 2));
        lemma_parse_from_normal(s, e, seq![]);
        let head = flush(cur).push(PartView::Expr(s.subrange(i + 1, e)));
        lemma_normal_join(head, parse_from(s, e, seq![]));
    } else {
        lemma_parse_from_normal(s, i + 1, cur.push(s[i]));
    }
}

proof fn lemma_normal_join(head: Seq<PartView>, r: Result<Seq<PartView>, TemplateError>)
    requires
        head.len() > 0,
        head.last() is Expr,
        normal_parts(head),
        r matches Ok(q) ==> normal_parts(q),
    ensures
        prepend(head, r) matches Ok(ps) ==> normal_parts(ps) && ps[0] == head[0],
{
    match r {
        Ok(q) => {
            let ps = head + q;
            assert forall|i: int| 0 <= i < ps.len() - 1 implies !(#[trigger] ps[i] is Text && ps[i
                + 1] is Text) by {
                if i < head.len() - 1 {
                    assert(ps[i] == head[i] && ps[i + 1] == head[i + 1]);
                } else if i == head.len() - 1 {
                    assert(ps[i] == head.last());
                } else {
                    assert(ps[i] == q[i - head.len()] && ps[i + 1] == q[i + 1 - head.len()]);
                }
            }
            assert forall|i: int| 0 <= i < ps.len() implies match #[trigger] ps[i] {
                PartView::Text(t) => t.len() > 0,
                PartView::Expr(e) => e.len() > 0,
            } by {
                if i < head.len() {
                    assert(ps[i] == head[i]);
                } else {
                    assert(ps[i] == q[i - head.len()]);
                }
            }
        },
        Err(_) => {},
    }
}

/// Parsing yields parts in normal form: no empty text, no empty name, and
/// no two text parts next to each other.
pub proof fn lemma_parse_normal(s: Seq<char>)
    ensures
        parse_template(s) matches Ok(ps) ==> normal_parts(ps),
{
    lemma_parse_from_normal(s, 0, seq![]);
}

/// Markup starts at position `k` of `s`: a `{{`, a `\@`, or an `@`
/// followed by a name character.
pub open spec fn markup_at(s: Seq<char>, k: int) -> bool {
    &&& 0 <= k
    &&& k + 1 < s.len()
    &&& {
        ||| (s[k] == '{' && s[k + 1] == '{')
        ||| (s[k] == '\\' && s[k + 1] == '@')
        ||| (s[k] == '@' && is_ident_char(s[k + 1]))
    }
}

/// `s` holds no markup: no `{{`, no `\@`, and no `@` before a name
/// character.
pub open spec fn plain_text(s: Seq<char>) -> bool {
    forall|k: int| 0 <= k < s.len() ==> !#[trigger] markup_at(s, k)
}

proof fn lemma_plain_from(s: Seq<char>, i: int, cur: Seq<char>)
    requires
        0 <= i <= s.len(),
        plain_text(s),
    ensures
        parse_from(s, i, cur) == Ok::<Seq<PartView>, TemplateError>(flush(cur + s.subrange(i, s.len() as int))),
    decreases s.len() - i,
{
    if i < s.len() {
        assert(!markup_at(s, i));
        if s[i] == '\\' && i + 2 < s.len() && s[i + 1] == '{' && s[i + 2] == '{' {
            assert(markup_at(s, i + 1));
        }
        lemma_plain_from(s, i + 1, cur.push(s[i]));
        assert(cur.push(s[i]) + s.subrange(i + 1, s.len() as int) =~= cur + s.subrange(i, s.len() as int));
    } else {
        assert(cur + s.subrange(i, s.len() as int) =~= cur);
    }
}

/// Text without markup parses to itself as a single text part (or to no
/// parts when it is empty).
pub proof fn lemma_parse_plain_text(s: Seq<char>)
    requires
        plain_text(s),
    ensures
        parse_template(s) == Ok::<Seq<PartView>, TemplateError>(if s.len() == 0 {
            seq![]
        } else {
            seq![PartView::Text(s)]
        }),
{
    lemma_plain_from(s, 0, seq![]);
    assert(Seq::<char>::empty() + s.subrange(0, s.len() as int) =~= s);
}

/// A variable name as parsing produces it: not empty, without whitespace
/// at either end, and without `}}` inside.
pub open spec fn clean_name(e: Seq<char>) -> bool {
    &&& e.len() > 0
    &&& !is_space(e[0])
    &&& !is_space(e[e.len() - 1])
    &&& forall|k: int| 0 <= k < e.len() - 1 ==> !(#[trigger] e[k] == '}' && e[k + 1] == '}')
}

/// Every reference in `ps` has a clean name.
pub open spec fn clean_names(ps: Seq<PartView>) -> bool {
    forall|i: int| 0 <= i < ps.len() ==> (#[trigger] ps[i] matches PartView::Expr(e) ==> clean_name(e))
}

proof fn lemma_clean_join(head: Seq<PartView>, r: Result<Seq<PartView>, TemplateError>)
    requires
        clean_names(head),
        r matches Ok(q) ==> clean_names(q),
    ensures
        prepend(head, r) matches Ok(ps) ==> clean_names(ps),
{
    match r {
        Ok(q) => {
            let ps = head + q;
            assert forall|i: int| 0 <= i < ps.len() implies (#[trigger] ps[i] matches PartView::Expr(e)
                ==> clean_name(e)) by {
                if i < head.len() {
                    assert(ps[i] == head[i]);
                } else {
                    assert(ps[i] == q[i - head.len()]);
                }
            }
        },
        Err(_) => {},
    }
}

proof fn lemma_flush_clean(cur: Seq<char>, e: Seq<char>)
    requires
        clean_name(e),
    ensures
        clean_names(flush(cur).push(PartView::Expr(e))),
{
    let h = flush(cur).push(PartView::Expr(e));
    assert forall|i: int| 0 <= i < h.len() implies (#[trigger] h[i] matches PartView::Expr(x)
        ==> clean_name(x)) by {
        if i == h.len() - 1 {
            assert(h[i] == PartView::Expr(e));
        }
    }
}

proof fn lemma_parse_from_clean(s: Seq<char>, i: int, cur: Seq<char>)
    requires
        0 <= i,
    ensures
        parse_from(s, i, cur) matches Ok(ps) ==> clean_names(ps),
    decreases s.len() - i,
{
    if i >= s.len() {
    } else if s[i] == '\\' && i + 2 < s.len() && s[i + 1] == '{' && s[i + 2] == '{' {
        lemma_parse_from_clean(s, i + 3, cur + seq!['{', '{']);
    } else if s[i] == '\\' && i + 1 < s.len() && s[i + 1] == '@' {
        lemma_parse_from_clean(s, i + 2, cur.push('@'));
    } else if s[i] == '{' && i + 1 < s.len() && s[i + 1] == '{' {
        lemma_close_from(s, i + 2);
        match close_from(s, i + 2) {
            None => {},
            Some(c) => {
                let name = trimmed(s, i + 2, c);
                if name.len() > 0 {
                    lemma_trim_bounds(s, i + 2, c);
                    let a = trim_lo(s, i + 2, c);
                    lemma_trim_bounds(s, a, c);
                    let b = trim_hi(s, a, c);
                    lemma_trim_stops(s, i + 2, c);
                    lemma_trim_stops(s, a, c);
                    assert(name[0] == s[a]);
                    assert(name[name.len() - 1] == s[b - 1]);
                    assert forall|k: int| 0 <= k < name.len() - 1 implies !(#[trigger] name[k] == '}'
                        && name[k + 1] == '}') by {
                        assert(name[k] == s[a + k] && name[k + 1] == s[a + k + 1]);
                        assert(i + 2 <= a + k && a + k < c);
                    }
                    lemma_flush_clean(cur, name);
                    lemma_parse_from_clean(s, c + 2, seq![]);
                    lemma_clean_join(flush(cur).push(PartView::Expr(name)), parse_from(s, c + 2, seq![]));
                }
            },
        }
    } else if s[i] == '@' && i + 1 < s.len() && is_ident_char(s[i + 1]) {
        lemma_ident_end(s, i + 2);
        let e = ident_end(s, i + 1);
        assert(e == ident_end(s, i + 2));
        let name = s.subrange(i + 1, e);
        assert forall|k: int| 0 <= k < name.len() implies is_ident_char(#[trigger] name[k]) by {
            assert(name[k] == s[i + 1 + k]);
        }
        assert(is_ident_char(name[0]) && is_ident_char(name[name.len() - 1]));
        lemma_flush_clean(cur, name);
        lemma_parse_from_clean(s, e, seq![]);
        lemma_clean_join(flush(cur).push(PartView::Expr(name)), parse_from(s, e, seq![]));
    } else {
        lemma_parse_from_clean(s, i + 1, cur.push(s[i]));
    }
}

/// Every name that parsing produces is non-empty, has no whitespace at
/// either end, and holds no `}}`.
pub proof fn lemma_parse_clean_names(s: Seq<char>)
    ensures
        parse_template(s) matches Ok(ps) ==> clean_names(ps),
{
    lemma_parse_from_clean(s, 0, seq![]);
}

} // verus!
