//! Lexicographic order on character sequences: the order of `str`'s `Ord`
//! (UTF-8 byte order coincides with the order of code points), and sorting
//! of strings by it.
use vstd::prelude::*;
use crate::text::chars_of;

verus! {

/// Length of the longest common prefix of `a` and `b`, counting from `i`.
pub open spec fn common_prefix(a: Seq<char>, b: Seq<char>, i: int) -> int
    decreases a.len() - i,
{
    if 0 <= i < a.len() && i < b.len() && a[i] == b[i] {
        common_prefix(a, b, i + 1)
    } else {
        i
    }
}

/// The first position at which `a` and `b` differ, or the length of the
/// shorter one if it is a prefix of the other.
pub open spec fn first_diff(a: Seq<char>, b: Seq<char>) -> int {
    common_prefix(a, b, 0)
}

/// `a` comes strictly before `b`: at their first difference `a` has the
/// smaller character, or `a` is a proper prefix of `b`.
pub open spec fn lex_lt(a: Seq<char>, b: Seq<char>) -> bool {
    let p = first_diff(a, b);
    if p == a.len() {
        p < b.len()
    } else {
        p < b.len() && a[p] < b[p]
    }
}

/// Every element comes strictly before all later ones.
pub open spec fn strictly_sorted(s: Seq<Seq<char>>) -> bool {
    forall|i: int, j: int| 0 <= i < j < s.len() ==> lex_lt(#[trigger] s[i], #[trigger] s[j])
}

proof fn lemma_common_prefix(a: Seq<char>, b: Seq<char>, i: int)
    requires
        0 <= i <= a.len(),
        i <= b.len(),
    ensures
        i <= common_prefix(a, b, i) <= a.len(),
        common_prefix(a, b, i) <= b.len(),
        forall|k: int| i <= k < common_prefix(a, b, i) ==> a[k] == b[k],
        common_prefix(a, b, i) == a.len() || common_prefix(a, b, i) == b.len() || a[common_prefix(
            a,
            b,
            i,
        )] != b[common_prefix(a, b, i)],
    decreases a.len() - i,
{
    if i < a.len() && i < b.len() && a[i] == b[i] {
        lemma_common_prefix(a, b, i + 1);
    }
}

/// What characterises the first difference.
pub proof fn lemma_first_diff(a: Seq<char>, b: Seq<char>)
    ensures
        0 <= first_diff(a, b) <= a.len(),
        first_diff(a, b) <= b.len(),
        forall|k: int| 0 <= k < first_diff(a, b) ==> a[k] == b[k],
        first_diff(a, b) == a.len() || first_diff(a, b) == b.len() || a[first_diff(a, b)] != b[first_diff(a, b)],
{
    lemma_common_prefix(a, b, 0);
}

/// Any position with the characterising property is the first difference.
pub proof fn lemma_first_diff_unique(a: Seq<char>, b: Seq<char>, q: int)
    requires
        0 <= q <= a.len(),
        q <= b.len(),
        forall|k: int| 0 <= k < q ==> a[k] == b[k],
        q == a.len() || q == b.len() || a[q] != b[q],
    ensures
        q == first_diff(a, b),
{
    lemma_first_diff(a, b);
    let p = first_diff(a, b);
    if q < p {
        assert(a[q] == b[q]);
    } else if p < q {
        assert(a[p] == b[p]);
    }
}

proof fn lemma_first_diff_symmetric(a: Seq<char>, b: Seq<char>)
    ensures
        first_diff(a, b) == first_diff(b, a),
{
    lemma_first_diff(a, b);
    lemma_first_diff_unique(b, a, first_diff(a, b));
}

/// Nothing comes before itself.
pub proof fn lemma_lex_irreflexive(a: Seq<char>)
    ensures
        !lex_lt(a, a),
{
    lemma_first_diff(a, a);
}

/// Of two different sequences, exactly one comes first.
pub proof fn lemma_lex_total(a: Seq<char>, b: Seq<char>)
    requires
        a != b,
    ensures
        lex_lt(a, b) != lex_lt(b, a),
{
    lemma_first_diff(a, b);
    lemma_first_diff_symmetric(a, b);
    let p = first_diff(a, b);
    if p == a.len() && p == b.len() {
        assert(a =~= b);
    }
}

/// The order is transitive.
pub proof fn lemma_lex_transitive(a: Seq<char>, b: Seq<char>, c: Seq<char>)
    requires
        lex_lt(a, b),
        lex_lt(b, c),
    ensures
        lex_lt(a, c),
{
    lemma_first_diff(a, b);
    lemma_first_diff(b, c);
    lemma_first_diff(a, c);
    let p = first_diff(a, b);
    let q = first_diff(b, c);
    if p < q {
        lemma_first_diff_unique(a, c, p);
    } else if q < p {
        lemma_first_diff_unique(a, c, q);
    } else {
        if p == a.len() {
            lemma_first_diff_unique(a, c, p);
        } else {
            lemma_first_diff_unique(a, c, p);
        }
    }
}

proof fn lemma_lex_asymmetric(a: Seq<char>, b: Seq<char>)
    ensures
        !(lex_lt(a, b) && lex_lt(b, a)),
{
    if a == b {
        lemma_lex_irreflexive(a);
    } else {
        lemma_lex_total(a, b);
    }
}

/// A set of sequences has only one strictly sorted arrangement: two
/// strictly sorted sequences with the same elements are equal.
pub proof fn lemma_sorted_unique(a: Seq<Seq<char>>, b: Seq<Seq<char>>)
    requires
        strictly_sorted(a),
        strictly_sorted(b),
        a.to_set() == b.to_set(),
    ensures
        a == b,
    decreases a.len(),
{
    if a.len() == 0 {
        if b.len() > 0 {
            assert(b.to_set().contains(b[0]));
        }
        assert(a =~= b);
    } else {
        assert(a.to_set().contains(a[0]));
        let j = choose|j: int| 0 <= j < b.len() && b[j] == a[0];
        assert(b.to_set().contains(b[0]));
        let k = choose|k: int| 0 <= k < a.len() && a[k] == b[0];
        if j > 0 {
            assert(lex_lt(b[0], b[j]));
            if k > 0 {
                assert(lex_lt(a[0], a[k]));
                lemma_lex_asymmetric(a[0], b[0]);
            } else {
                lemma_lex_irreflexive(b[0]);
            }
        }
        assert(a[0] == b[0]);
        let a1 = a.drop_first();
        let b1 = b.drop_first();
        assert forall|x: Seq<char>| a1.to_set().contains(x) implies b1.to_set().contains(x) by {
            let i = choose|i: int| 0 <= i < a1.len() && a1[i] == x;
            assert(a.to_set().contains(a[i + 1]));
            let m = choose|m: int| 0 <= m < b.len() && b[m] == x;
            assert(lex_lt(a[0], a[i + 1]));
            if m == 0 {
                lemma_lex_irreflexive(x);
            }
            assert(b1[m - 1] == x);
        }
        assert forall|x: Seq<char>| b1.to_set().contains(x) implies a1.to_set().contains(x) by {
            let i = choose|i: int| 0 <= i < b1.len() && b1[i] == x;
            assert(b.to_set().contains(b[i + 1]));
            let m = choose|m: int| 0 <= m < a.len() && a[m] == x;
            assert(lex_lt(b[0], b[i + 1]));
            if m == 0 {
                lemma_lex_irreflexive(x);
            }
            assert(a1[m - 1] == x);
        }
        assert(a1.to_set() =~= b1.to_set());
        assert forall|i: int, j2: int| 0 <= i < j2 < a1.len() implies lex_lt(#[trigger] a1[i], #[trigger] a1[j2]) by {
            assert(lex_lt(a[i + 1], a[j2 + 1]));
        }
        assert forall|i: int, j2: int| 0 <= i < j2 < b1.len() implies lex_lt(#[trigger] b1[i], #[trigger] b1[j2]) by {
            assert(lex_lt(b[i + 1], b[j2 + 1]));
        }
        lemma_sorted_unique(a1, b1);
        assert(a.len() == b.len());
        assert forall|i: int| 0 <= i < a.len() implies a[i] == b[i] by {
            if i > 0 {
                assert(a[i] == a1[i - 1]);
                assert(b[i] == b1[i - 1]);
            }
        }
        assert(a =~= b);
    }
}

/// Whether `a` comes strictly before `b`.
pub fn chars_lt(a: &Vec<char>, b: &Vec<char>) -> (r: bool)
    ensures
        r == lex_lt(a@, b@),
{
    let mut i: usize = 0;
    while i < a.len() && i < b.len() && a[i] == b[i]
        invariant
            i <= a@.len(),
            i <= b@.len(),
            forall|k: int| 0 <= k < i ==> a@[k] == b@[k],
        decreases a@.len() - i,
    {
        i += 1;
    }
    proof {
        lemma_first_diff_unique(a@, b@, i as int);
    }
    if i == a.len() {
        i < b.len()
    } else if i == b.len() {
        false
    } else {
        a[i] < b[i]
    }
}

/// Whether the string `a` comes strictly before the string `b`.
pub fn str_lt(a: &str, b: &str) -> (r: bool)
    ensures
        r == lex_lt(a@, b@),
{
    let x = chars_of(a);
    let y = chars_of(b);
    chars_lt(&x, &y)
}

/// The strings of `v`, sorted into strictly increasing order.
pub fn sort_strings(v: Vec<String>) -> (r: Vec<String>)
    requires
        v@.map_values(|s: String| s@).no_duplicates(),
    ensures
        strictly_sorted(r@.map_values(|s: String| s@)),
        r@.map_values(|s: String| s@).to_set() == v@.map_values(|s: String| s@).to_set(),
        r@.len() == v@.len(),
{
    let ghost vs = v@.map_values(|s: String| s@);
    let mut r: Vec<String> = Vec::new();
    let mut i: usize = 0;
    while i < v.len()
        invariant
            i <= v@.len(),
            vs == v@.map_values(|s: String| s@),
            vs.no_duplicates(),
            r@.len() == i,
            strictly_sorted(r@.map_values(|s: String| s@)),
            r@.map_values(|s: String| s@).to_set() == vs.take(i as int).to_set(),
        decreases v@.len() - i,
    {
        let ghost rs = r@.map_values(|s: String| s@);
        let key = &v[i];
        let ghost k = key@;
        proof {
            assert(vs[i as int] == k);
            assert forall|j: int| 0 <= j < rs.len() implies rs[j] != k by {
                assert(rs.to_set().contains(rs[j]));
                assert(vs.take(i as int).to_set().contains(rs[j]));
                let m = choose|m: int| 0 <= m < i && vs.take(i as int)[m] == rs[j];
                assert(vs[m] == rs[j]);
            }
        }
        let mut p: usize = 0;
        while p < r.len() && str_lt(r[p].as_str(), key.as_str())
            invariant
                p <= r@.len(),
                rs == r@.map_values(|s: String| s@),
                k == key@,
                forall|j: int| 0 <= j < p ==> lex_lt(#[trigger] rs[j], k),
            decreases r@.len() - p,
        {
            p += 1;
        }
        proof {
            if p < r@.len() {
                assert(rs[p as int] != k);
                lemma_lex_total(rs[p as int], k);
                assert forall|j: int| p <= j < rs.len() implies lex_lt(k, #[trigger] rs[j]) by {
                    if j > p {
                        assert(lex_lt(rs[p as int], rs[j]));
                        lemma_lex_transitive(k, rs[p as int], rs[j]);
                    }
                }
            }
        }
        r.insert(p, key.clone());
        proof {
            let nrs = r@.map_values(|s: String| s@);
            assert(nrs =~= rs.insert(p as int, k));
            assert forall|a: int, b: int| 0 <= a < b < nrs.len() implies lex_lt(
                #[trigger] nrs[a],
                #[trigger] nrs[b],
            ) by {
                if b < p {
                } else if b == p {
                    assert(nrs[a] == rs[a]);
                } else if a < p {
                    assert(nrs[b] == rs[b - 1]);
                    assert(lex_lt(rs[a], k));
                    if b - 1 >= p {
                        lemma_lex_transitive(rs[a], k, rs[b - 1]);
                    }
                } else if a == p {
                    assert(nrs[b] == rs[b - 1]);
                } else {
                    assert(nrs[a] == rs[a - 1]);
                    assert(nrs[b] == rs[b - 1]);
                }
            }
            assert(vs.take(i + 1) =~= vs.take(i as int).push(k));
            assert(nrs.to_set() =~= rs.to_set().insert(k)) by {
                assert forall|x: Seq<char>| nrs.to_set().contains(x) <==> rs.to_set().insert(k).contains(x) by {
                    if nrs.to_set().contains(x) {
                        let m = choose|m: int| 0 <= m < nrs.len() && nrs[m] == x;
                        if m < p {
                            assert(rs[m] == x);
                        } else if m > p {
                            assert(rs[m - 1] == x);
                        }
                    }
                    if rs.to_set().contains(x) {
                        let m = choose|m: int| 0 <= m < rs.len() && rs[m] == x;
                        if m < p {
                            assert(nrs[m] == x);
                        } else {
                            assert(nrs[m + 1] == x);
                        }
                    }
                    if x == k {
                        assert(nrs[p as int] == k);
                    }
                }
            }
            let t = vs.take(i as int);
            assert(t.push(k).to_set() =~= t.to_set().insert(k)) by {
                assert forall|x: Seq<char>| t.push(k).to_set().contains(x) <==> t.to_set().insert(k).contains(x) by {
                    if t.push(k).to_set().contains(x) {
                        let m = choose|m: int| 0 <= m < t.push(k).len() && t.push(k)[m] == x;
                        if m < t.len() {
                            assert(t[m] == x);
                        }
                    }
                    if t.to_set().contains(x) {
                        let m = choose|m: int| 0 <= m < t.len() && t[m] == x;
                        assert(t.push(k)[m] == x);
                    }
                    if x == k {
                        assert(t.push(k)[t.len() as int] == k);
                    }
                }
            }
        }
        i += 1;
    }
    proof {
        assert(vs.take(i as int) =~= vs);
    }
    r
}

} // verus!
