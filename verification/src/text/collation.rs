//! Two orders on strings, and sorting without repeats. URIs compare by code
//! point; file paths compare component by component, which is the same as
//! comparing their chars with `/` ranked below every other char.
use vstd::prelude::*;
use crate::parser::chars::collect_chars;

verus! {

/// The rank of a char when strings are compared: its code point, except
/// that `/` comes first of all when paths are compared.
pub open spec fn char_rank(c: char, paths: bool) -> int {
    if paths && c == '/' {
        -1
    } else {
        c as int
    }
}

/// `a` comes strictly before `b`: at the first position where they differ
/// `a` has the char of lower rank, or `a` is a proper prefix of `b`.
pub open spec fn precedes(a: Seq<char>, b: Seq<char>, paths: bool) -> bool
    decreases a.len(),
{
    if a.len() == 0 {
        b.len() > 0
    } else if b.len() == 0 {
        false
    } else if a[0] == b[0] {
        precedes(a.drop_first(), b.drop_first(), paths)
    } else {
        char_rank(a[0], paths) < char_rank(b[0], paths)
    }
}

/// The views of a sequence of strings.
pub open spec fn string_views(v: Seq<String>) -> Seq<Seq<char>> {
    Seq::new(v.len(), |i: int| v[i]@)
}

/// Every string comes strictly before the ones after it.
pub open spec fn strictly_sorted(s: Seq<Seq<char>>, paths: bool) -> bool {
    forall|i: int, j: int| 0 <= i < j < s.len() ==> precedes(s[i], s[j], paths)
}

/// Both sequences hold the same strings, however often and wherever.
pub open spec fn same_elements(a: Seq<Seq<char>>, b: Seq<Seq<char>>) -> bool {
    forall|x: Seq<char>| a.contains(x) <==> b.contains(x)
}

pub proof fn lemma_precedes_irreflexive(a: Seq<char>, paths: bool)
    ensures
        !precedes(a, a, paths),
    decreases a.len(),
{
    if a.len() > 0 {
        lemma_precedes_irreflexive(a.drop_first(), paths);
    }
}

pub proof fn lemma_precedes_transitive(a: Seq<char>, b: Seq<char>, c: Seq<char>, paths: bool)
    requires
        precedes(a, b, paths),
        precedes(b, c, paths),
    ensures
        precedes(a, c, paths),
    decreases a.len(),
{
    if a.len() > 0 && a[0] == b[0] && b[0] == c[0] {
        lemma_precedes_transitive(a.drop_first(), b.drop_first(), c.drop_first(), paths);
    }
}

/// Of two different strings, one comes before the other.
pub proof fn lemma_precedes_total(a: Seq<char>, b: Seq<char>, paths: bool)
    ensures
        a == b || precedes(a, b, paths) || precedes(b, a, paths),
    decreases a.len(),
{
    if a.len() > 0 && b.len() > 0 {
        if a[0] == b[0] {
            lemma_precedes_total(a.drop_first(), b.drop_first(), paths);
            if a.drop_first() == b.drop_first() {
                assert(a =~= seq![a[0]] + a.drop_first());
                assert(b =~= seq![b[0]] + b.drop_first());
            }
        } else {
            lemma_rank_injective(a[0], b[0], paths);
        }
    } else if a.len() == 0 && b.len() == 0 {
        assert(a =~= b);
    }
}

pub proof fn lemma_precedes_asymmetric(a: Seq<char>, b: Seq<char>, paths: bool)
    requires
        precedes(a, b, paths),
    ensures
        !precedes(b, a, paths),
        a != b,
{
    lemma_precedes_irreflexive(a, paths);
    if precedes(b, a, paths) {
        lemma_precedes_transitive(a, b, a, paths);
    }
}

proof fn lemma_rank_injective(a: char, b: char, paths: bool)
    requires
        a != b,
    ensures
        char_rank(a, paths) != char_rank(b, paths),
{
    assert((a as u32) != (b as u32));
    assert(0 <= (a as u32) && 0 <= (b as u32));
}

proof fn lemma_push_contains(s: Seq<Seq<char>>, x: Seq<char>, y: Seq<char>)
    ensures
        s.push(x).contains(y) <==> (s.contains(y) || y == x),
{
    if s.push(x).contains(y) {
        let i = choose|i: int| 0 <= i < s.push(x).len() && s.push(x)[i] == y;
        if i < s.len() {
            assert(s[i] == y);
        }
    }
    if s.contains(y) {
        let i = choose|i: int| 0 <= i < s.len() && s[i] == y;
        assert(s.push(x)[i] == y);
    }
    if y == x {
        assert(s.push(x)[s.len() as int] == y);
    }
}

/// Comparing past a common prefix gives the same answer.
proof fn lemma_precedes_skip(a: Seq<char>, b: Seq<char>, i: int, paths: bool)
    requires
        0 <= i <= a.len(),
        i <= b.len(),
        forall|k: int| 0 <= k < i ==> a[k] == b[k],
    ensures
        precedes(a, b, paths) == precedes(a.skip(i), b.skip(i), paths),
    decreases i,
{
    if i > 0 {
        lemma_precedes_skip(a.drop_first(), b.drop_first(), i - 1, paths);
        assert(a.drop_first().skip(i - 1) =~= a.skip(i));
        assert(b.drop_first().skip(i - 1) =~= b.skip(i));
    } else {
        assert(a.skip(0) =~= a);
        assert(b.skip(0) =~= b);
    }
}

fn rank_of(c: char, paths: bool) -> (r: i64)
    ensures
        r == char_rank(c, paths),
{
    if paths && c == '/' {
        -1
    } else {
        (c as u32) as i64
    }
}

/// Whether `a` comes strictly before `b`.
pub fn string_precedes(a: &str, b: &str, paths: bool) -> (r: bool)
    ensures
        r == precedes(a@, b@, paths),
{
    let x = collect_chars(a);
    let y = collect_chars(b);
    let mut i: usize = 0;
    while i < x.len() && i < y.len() && x[i] == y[i]
        invariant
            x@ == a@,
            y@ == b@,
            i <= x.len(),
            i <= y.len(),
            forall|k: int| 0 <= k < i ==> x@[k] == y@[k],
        decreases x.len() - i,
    {
        i = i + 1;
    }
    proof {
        lemma_precedes_skip(a@, b@, i as int, paths);
    }
    if i == x.len() {
        i < y.len()
    } else if i == y.len() {
        false
    } else {
        rank_of(x[i], paths) < rank_of(y[i], paths)
    }
}

/// The strings of `v`, each once, in increasing order.
pub fn sorted_distinct(v: Vec<String>, paths: bool) -> (r: Vec<String>)
    ensures
        strictly_sorted(string_views(r@), paths),
        same_elements(string_views(r@), string_views(v@)),
{
    let mut out: Vec<String> = Vec::new();
    let mut k: usize = 0;
    while k < v.len()
        invariant
            k <= v.len(),
            strictly_sorted(string_views(out@), paths),
            forall|x: Seq<char>|
                string_views(out@).contains(x) <==> string_views(v@.take(k as int)).contains(x),
        decreases v.len() - k,
    {
        let ghost before = string_views(out@);
        let ghost x = v@[k as int]@;
        let mut p: usize = 0;
        while p < out.len() && string_precedes(out[p].as_str(), v[k].as_str(), paths)
            invariant
                k < v.len(),
                p <= out.len(),
                x == v@[k as int]@,
                before == string_views(out@),
                forall|q: int| 0 <= q < p ==> precedes(before[q], x, paths),
            decreases out.len() - p,
        {
            p = p + 1;
        }
        let ghost vk = string_views(v@.take(k as int + 1));
        assert(vk =~= string_views(v@.take(k as int)).push(x));
        if p < out.len() && str_eq_string(&out[p], &v[k]) {
            assert(before[p as int] == x);
            assert forall|y: Seq<char>| before.contains(y) <==> vk.contains(y) by {
                lemma_push_contains(string_views(v@.take(k as int)), x, y);
                if y == x {
                    assert(before[p as int] == y);
                }
            }
        } else {
            proof {
                if p < out.len() {
                    lemma_precedes_total(before[p as int], x, paths);
                }
            }
            let s = v[k].clone();
            out.insert(p, s);
            let ghost after = string_views(out@);
            assert(after =~= before.insert(p as int, x));
            assert forall|i: int, j: int| 0 <= i < j < after.len() implies precedes(
                after[i],
                after[j],
                paths,
            ) by {
                if j == p {
                    assert(after[i] == before[i]);
                } else if i == p {
                    assert(after[j] == before[j - 1]);
                    if j - 1 > p {
                        lemma_precedes_transitive(x, before[p as int], before[j - 1], paths);
                    }
                } else if i > p {
                    assert(after[i] == before[i - 1]);
                    assert(after[j] == before[j - 1]);
                } else if j > p {
                    assert(after[j] == before[j - 1]);
                }
            }
            assert forall|y: Seq<char>| after.contains(y) <==> vk.contains(y) by {
                lemma_push_contains(string_views(v@.take(k as int)), x, y);
                if after.contains(y) {
                    let i = choose|i: int| 0 <= i < after.len() && after[i] == y;
                    if i < p {
                        assert(before[i] == y);
                    } else if i > p {
                        assert(before[i - 1] == y);
                    }
                }
                if before.contains(y) {
                    let i = choose|i: int| 0 <= i < before.len() && before[i] == y;
                    if i < p {
                        assert(after[i] == y);
                    } else {
                        assert(after[i + 1] == y);
                    }
                }
                if y == x {
                    assert(after[p as int] == y);
                }
            }
        }
        k = k + 1;
    }
    assert(v@.take(v.len() as int) =~= v@);
    out
}

fn str_eq_string(a: &String, b: &String) -> (r: bool)
    ensures
        r == (a@ == b@),
{
    crate::text::strings::str_eq(a.as_str(), b.as_str())
}

/// Two strictly sorted sequences that hold the same strings are equal.
pub proof fn lemma_sorted_unique(a: Seq<Seq<char>>, b: Seq<Seq<char>>, paths: bool)
    requires
        strictly_sorted(a, paths),
        strictly_sorted(b, paths),
        same_elements(a, b),
    ensures
        a == b,
    decreases a.len(),
{
    if a.len() == 0 {
        if b.len() > 0 {
            assert(b.contains(b[0]));
        }
        assert(a =~= b);
    } else {
        assert(a.contains(a[0]));
        assert(b.contains(a[0]));
        assert(b.len() > 0);
        assert(b.contains(b[0]));
        assert(a.contains(b[0]));
        let i = choose|i: int| 0 <= i < a.len() && a[i] == b[0];
        let j = choose|j: int| 0 <= j < b.len() && b[j] == a[0];
        if i > 0 && j > 0 {
            lemma_precedes_asymmetric(a[0], a[i], paths);
        }
        if i == 0 && j > 0 {
            lemma_precedes_irreflexive(b[0], paths);
        }
        if j == 0 && i > 0 {
            lemma_precedes_irreflexive(a[0], paths);
        }
        assert(a[0] == b[0]);
        let ta = a.drop_first();
        let tb = b.drop_first();
        assert forall|x: Seq<char>| ta.contains(x) <==> tb.contains(x) by {
            if ta.contains(x) {
                let m = choose|m: int| 0 <= m < ta.len() && ta[m] == x;
                assert(a[m + 1] == x);
                assert(a.contains(x));
                lemma_precedes_asymmetric(a[0], a[m + 1], paths);
                let n = choose|n: int| 0 <= n < b.len() && b[n] == x;
                assert(n != 0);
                assert(tb[n - 1] == x);
            }
            if tb.contains(x) {
                let m = choose|m: int| 0 <= m < tb.len() && tb[m] == x;
                assert(b[m + 1] == x);
                assert(b.contains(x));
                lemma_precedes_asymmetric(b[0], b[m + 1], paths);
                let n = choose|n: int| 0 <= n < a.len() && a[n] == x;
                assert(n != 0);
                assert(ta[n - 1] == x);
            }
        }
        lemma_sorted_unique(ta, tb, paths);
        assert(a =~= seq![a[0]] + ta);
        assert(b =~= seq![b[0]] + tb);
    }
}

/// Sorting without repeats depends only on which strings there are: two
/// lists that hold the same strings, in any order and with any repeats,
/// give the same result.
pub proof fn law_sorted_distinct_depends_on_elements(
    v: Seq<String>,
    w: Seq<String>,
    rv: Seq<String>,
    rw: Seq<String>,
    paths: bool,
)
    requires
        same_elements(string_views(v), string_views(w)),
        strictly_sorted(string_views(rv), paths),
        same_elements(string_views(rv), string_views(v)),
        strictly_sorted(string_views(rw), paths),
        same_elements(string_views(rw), string_views(w)),
    ensures
        string_views(rv) == string_views(rw),
{
    lemma_sorted_unique(string_views(rv), string_views(rw), paths);
}

} // verus!
