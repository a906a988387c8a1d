//! Lexicographic order on names and on paths, and sorting lists of paths.
use vstd::prelude::*;
use vstd::string::*;

use crate::paths::{parts_view, paths_view, PathParts};

verus! {

/// `a` comes before `b` by character code, compared from index `i` on.
pub open spec fn chars_lt_at(a: Seq<char>, b: Seq<char>, i: int) -> bool
    decreases a.len() - i,
{
    if i >= a.len() {
        i < b.len()
    } else if i >= b.len() {
        false
    } else if a[i] != b[i] {
        a[i] < b[i]
    } else {
        chars_lt_at(a, b, i + 1)
    }
}

/// Lexicographic order on names.
pub open spec fn chars_lt(a: Seq<char>, b: Seq<char>) -> bool {
    chars_lt_at(a, b, 0)
}

/// `a` comes before `b` component by component, compared from index `i` on.
pub open spec fn path_lt_at(a: Seq<Seq<char>>, b: Seq<Seq<char>>, i: int) -> bool
    decreases a.len() - i,
{
    if i >= a.len() {
        i < b.len()
    } else if i >= b.len() {
        false
    } else if a[i] != b[i] {
        chars_lt(a[i], b[i])
    } else {
        path_lt_at(a, b, i + 1)
    }
}

/// Lexicographic order on paths, component by component: a directory comes
/// before everything below it, and siblings go by name.
pub open spec fn path_lt(a: Seq<Seq<char>>, b: Seq<Seq<char>>) -> bool {
    path_lt_at(a, b, 0)
}

/// Each path comes strictly before the next: sorted, with no repeats.
pub open spec fn strictly_sorted(s: Seq<Seq<Seq<char>>>) -> bool {
    forall|i: int, j: int| 0 <= i < j < s.len() ==> path_lt(#[trigger] s[i], #[trigger] s[j])
}

proof fn lemma_chars_irreflexive(a: Seq<char>, i: int)
    requires
        0 <= i,
    ensures
        !chars_lt_at(a, a, i),
    decreases a.len() - i,
{
    if i < a.len() {
        lemma_chars_irreflexive(a, i + 1);
    }
}

proof fn lemma_chars_transitive(a: Seq<char>, b: Seq<char>, c: Seq<char>, i: int)
    requires
        0 <= i,
        chars_lt_at(a, b, i),
        chars_lt_at(b, c, i),
    ensures
        chars_lt_at(a, c, i),
    decreases a.len() - i,
{
    if i < a.len() && i < b.len() && i < c.len() && a[i] == b[i] && b[i] == c[i] {
        lemma_chars_transitive(a, b, c, i + 1);
    }
}

proof fn lemma_chars_total(a: Seq<char>, b: Seq<char>, i: int)
    requires
        0 <= i <= a.len(),
        i <= b.len(),
        forall|k: int| 0 <= k < i ==> a[k] == b[k],
        !chars_lt_at(a, b, i),
        !chars_lt_at(b, a, i),
    ensures
        a == b,
    decreases a.len() - i,
{
    if i < a.len() && i < b.len() {
        lemma_chars_total(a, b, i + 1);
    } else {
        assert(a =~= b);
    }
}

proof fn lemma_path_irreflexive(a: Seq<Seq<char>>, i: int)
    requires
        0 <= i,
    ensures
        !path_lt_at(a, a, i),
    decreases a.len() - i,
{
    if i < a.len() {
        lemma_path_irreflexive(a, i + 1);
    }
}

proof fn lemma_path_transitive(a: Seq<Seq<char>>, b: Seq<Seq<char>>, c: Seq<Seq<char>>, i: int)
    requires
        0 <= i,
        path_lt_at(a, b, i),
        path_lt_at(b, c, i),
    ensures
        path_lt_at(a, c, i),
    decreases a.len() - i,
{
    if i < a.len() && i < b.len() && i < c.len() {
        if a[i] == b[i] && b[i] == c[i] {
            lemma_path_transitive(a, b, c, i + 1);
        } else if a[i] == b[i] {
        } else if b[i] == c[i] {
        } else {
            lemma_chars_transitive(a[i], b[i], c[i], 0);
            if a[i] == c[i] {
                lemma_chars_irreflexive(a[i], 0);
            }
        }
    }
}

proof fn lemma_path_total(a: Seq<Seq<char>>, b: Seq<Seq<char>>, i: int)
    requires
        0 <= i <= a.len(),
        i <= b.len(),
        forall|k: int| 0 <= k < i ==> a[k] == b[k],
        !path_lt_at(a, b, i),
        !path_lt_at(b, a, i),
    ensures
        a == b,
    decreases a.len() - i,
{
    if i < a.len() && i < b.len() {
        if a[i] != b[i] {
            lemma_chars_total(a[i], b[i], 0);
        }
        lemma_path_total(a, b, i + 1);
    } else {
        assert(a =~= b);
    }
}

/// The order on paths is a strict total order.
pub proof fn lemma_path_order(a: Seq<Seq<char>>, b: Seq<Seq<char>>, c: Seq<Seq<char>>)
    ensures
        !path_lt(a, a),
        path_lt(a, b) && path_lt(b, c) ==> path_lt(a, c),
        a != b ==> path_lt(a, b) || path_lt(b, a),
{
    lemma_path_irreflexive(a, 0);
    if path_lt(a, b) && path_lt(b, c) {
        lemma_path_transitive(a, b, c, 0);
    }
    if !path_lt(a, b) && !path_lt(b, a) {
        lemma_path_total(a, b, 0);
    }
}

/// Two strictly sorted lists of the same paths are the same list: a sorted
/// result is fixed by what it holds.
pub proof fn lemma_sorted_unique(a: Seq<Seq<Seq<char>>>, b: Seq<Seq<Seq<char>>>)
    requires
        strictly_sorted(a),
        strictly_sorted(b),
        forall|x: Seq<Seq<char>>| a.contains(x) <==> b.contains(x),
    ensures
        a == b,
    decreases a.len(),
{
    if a.len() == 0 {
        if b.len() > 0 {
            assert(b.contains(b[0]));
        }
        assert(a =~= b);
    } else {
        assert(a.contains(a[0]));
        let j = choose|j: int| 0 <= j < b.len() && b[j] == a[0];
        assert(b.contains(b[0]));
        let i = choose|i: int| 0 <= i < a.len() && a[i] == b[0];
        lemma_path_order(a[0], b[0], a[0]);
        if j > 0 && i > 0 {
            assert(path_lt(b[0], b[j]));
            assert(path_lt(a[0], a[i]));
        } else if j > 0 {
            assert(path_lt(b[0], b[j]));
        } else if i > 0 {
            assert(path_lt(a[0], a[i]));
        }
        assert(a[0] == b[0]);
        let ta = a.drop_first();
        let tb = b.drop_first();
        assert forall|x: Seq<Seq<char>>| ta.contains(x) <==> tb.contains(x) by {
            if ta.contains(x) {
                let k = choose|k: int| 0 <= k < ta.len() && ta[k] == x;
                assert(path_lt(a[0], a[k + 1]));
                lemma_path_order(x, x, x);
                assert(b.contains(x));
                let m = choose|m: int| 0 <= m < b.len() && b[m] == x;
                assert(m != 0);
                assert(tb[m - 1] == x);
            }
            if tb.contains(x) {
                let k = choose|k: int| 0 <= k < tb.len() && tb[k] == x;
                assert(path_lt(b[0], b[k + 1]));
                lemma_path_order(x, x, x);
                assert(a.contains(x));
                let m = choose|m: int| 0 <= m < a.len() && a[m] == x;
                assert(m != 0);
                assert(ta[m - 1] == x);
            }
        }
        assert forall|p: int, q: int| 0 <= p < q < ta.len() implies path_lt(
            #[trigger] ta[p],
            #[trigger] ta[q],
        ) by {
            assert(path_lt(a[p + 1], a[q + 1]));
        }
        assert forall|p: int, q: int| 0 <= p < q < tb.len() implies path_lt(
            #[trigger] tb[p],
            #[trigger] tb[q],
        ) by {
            assert(path_lt(b[p + 1], b[q + 1]));
        }
        lemma_sorted_unique(ta, tb);
        assert(a =~= seq![a[0]] + ta);
        assert(b =~= seq![b[0]] + tb);
    }
}

/// Whether name `a` comes before name `b`.
pub fn name_less(a: &str, b: &str) -> (r: bool)
    ensures
        r == chars_lt(a@, b@),
{
    let a_len = a.unicode_len();
    let b_len = b.unicode_len();
    let mut i: usize = 0;
    while i < a_len && i < b_len
        invariant
            a_len == a@.len(),
            b_len == b@.len(),
            i <= a_len,
            i <= b_len,
            chars_lt_at(a@, b@, 0) == chars_lt_at(a@, b@, i as int),
        decreases a_len - i,
    {
        let ca = a.get_char(i);
        let cb = b.get_char(i);
        if ca != cb {
            return ca < cb;
        }
        i = i + 1;
    }
    i < b_len
}

/// Whether path `a` comes before path `b`.
pub fn path_less(a: &PathParts, b: &PathParts) -> (r: bool)
    ensures
        r == path_lt(parts_view(a@), parts_view(b@)),
{
    let ghost av = parts_view(a@);
    let ghost bv = parts_view(b@);
    let mut i: usize = 0;
    while i < a.len() && i < b.len()
        invariant
            av == parts_view(a@),
            bv == parts_view(b@),
            i <= a.len(),
            i <= b.len(),
            path_lt_at(av, bv, 0) == path_lt_at(av, bv, i as int),
        decreases a.len() - i,
    {
        assert(av[i as int] == a@[i as int]@);
        assert(bv[i as int] == b@[i as int]@);
        if a[i] != b[i] {
            return name_less(a[i].as_str(), b[i].as_str());
        }
        i = i + 1;
    }
    i < b.len()
}

/// Puts `p` into the sorted list `v` at its place, unless `v` holds it
/// already.
pub fn insert_sorted(v: &mut Vec<PathParts>, p: PathParts)
    requires
        strictly_sorted(paths_view(old(v)@)),
    ensures
        strictly_sorted(paths_view(final(v)@)),
        forall|x: Seq<Seq<char>>|
            paths_view(final(v)@).contains(x) <==> (paths_view(old(v)@).contains(x) || x
                == parts_view(p@)),
{
    let ghost s = paths_view(v@);
    let ghost pv = parts_view(p@);
    let mut k: usize = 0;
    while k < v.len() && path_less(&v[k], &p)
        invariant
            k <= v.len(),
            s == paths_view(v@),
            pv == parts_view(p@),
            forall|i: int| 0 <= i < k ==> path_lt(#[trigger] s[i], pv),
        decreases v.len() - k,
    {
        k = k + 1;
    }
    if k < v.len() && crate::paths::parts_equal(&v[k], &p) {
        assert(s[k as int] == pv);
        assert(s.contains(pv));
        return;
    }
    if k < v.len() {
        proof {
            lemma_path_order(s[k as int], pv, s[k as int]);
        }
        assert(path_lt(pv, s[k as int]));
    }
    v.insert(k, p);
    let ghost t = paths_view(v@);
    assert(t =~= s.insert(k as int, pv));
    assert forall|i: int, j: int| 0 <= i < j < t.len() implies path_lt(
        #[trigger] t[i],
        #[trigger] t[j],
    ) by {
        if j < k {
        } else if j == k {
        } else if i < k {
            assert(t[j] == s[j - 1]);
            if i + 1 < j {
                if j - 1 > i {
                    assert(path_lt(s[i], s[j - 1]));
                }
            }
        } else if i == k {
            assert(t[j] == s[j - 1]);
            if j - 1 > k {
                assert(path_lt(s[k as int], s[j - 1]));
                lemma_path_order(pv, s[k as int], s[j - 1]);
            }
        } else {
            assert(path_lt(s[i - 1], s[j - 1]));
        }
    }
    assert forall|x: Seq<Seq<char>>| t.contains(x) <==> (s.contains(x) || x == pv) by {
        if t.contains(x) {
            let m = choose|m: int| 0 <= m < t.len() && t[m] == x;
            if m < k {
                assert(s[m] == x);
            } else if m > k {
                assert(s[m - 1] == x);
            }
        }
        if s.contains(x) {
            let m = choose|m: int| 0 <= m < s.len() && s[m] == x;
            if m < k {
                assert(t[m] == x);
            } else {
                assert(t[m + 1] == x);
            }
        }
        if x == pv {
            assert(t[k as int] == x);
        }
    }
}

/// The paths of `v` sorted, each once.
pub fn sort_paths(v: Vec<PathParts>) -> (r: Vec<PathParts>)
    ensures
        strictly_sorted(paths_view(r@)),
        forall|x: Seq<Seq<char>>| paths_view(r@).contains(x) <==> paths_view(v@).contains(x),
{
    let ghost s = paths_view(v@);
    let mut r: Vec<PathParts> = Vec::new();
    let mut rest = v;
    let mut i: usize = 0;
    let n = rest.len();
    assert(paths_view(r@) =~= seq![]);
    while i < n
        invariant
            n == rest.len(),
            i <= n,
            s == paths_view(rest@),
            strictly_sorted(paths_view(r@)),
            forall|x: Seq<Seq<char>>|
                paths_view(r@).contains(x) <==> s.take(i as int).contains(x),
        decreases n - i,
    {
        let p = crate::paths::copy_parts(&rest[i]);
        assert(parts_view(p@) == s[i as int]);
        let ghost before = paths_view(r@);
        insert_sorted(&mut r, p);
        let ghost pre = s.take(i as int);
        let ghost post = s.take(i + 1);
        assert(post =~= pre.push(s[i as int]));
        assert forall|x: Seq<Seq<char>>| paths_view(r@).contains(x) <==> post.contains(x) by {
            assert(paths_view(r@).contains(x) <==> (before.contains(x) || x == s[i as int]));
            assert(before.contains(x) <==> pre.contains(x));
            if x == s[i as int] {
                assert(post[i as int] == x);
            }
            if pre.contains(x) {
                let m = choose|m: int| 0 <= m < pre.len() && #[trigger] pre[m] == x;
                assert(post[m] == x);
            }
            if post.contains(x) {
                let m = choose|m: int| 0 <= m < post.len() && #[trigger] post[m] == x;
                if m < i {
                    assert(pre[m] == x);
                }
            }
        }
        i = i + 1;
    }
    assert(s.take(n as int) =~= s);
    r
}

} // verus!
