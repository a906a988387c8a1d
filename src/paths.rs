//! Paths as sequences of components, and the operations the scanner needs.
use vstd::prelude::*;

verus! {

/// A path: one string per component.
pub type PathParts = Vec<String>;

/// The components of a path as character sequences.
pub open spec fn parts_view(p: Seq<String>) -> Seq<Seq<char>> {
    p.map_values(|s: String| s@)
}

/// A list of paths as sequences of character sequences.
pub open spec fn paths_view(v: Seq<PathParts>) -> Seq<Seq<Seq<char>>> {
    v.map_values(|p: PathParts| parts_view(p@))
}

/// `a` names a directory strictly above `b`.
pub open spec fn proper_prefix(a: Seq<Seq<char>>, b: Seq<Seq<char>>) -> bool {
    a.len() < b.len() && b.subrange(0, a.len() as int) == a
}

/// Some path of `list` names a directory strictly above `p`.
pub open spec fn below_any(list: Seq<Seq<Seq<char>>>, p: Seq<Seq<char>>) -> bool {
    exists|k: int| 0 <= k < list.len() && proper_prefix(#[trigger] list[k], p)
}

/// Whether the two paths have the same components.
pub fn parts_equal(a: &PathParts, b: &PathParts) -> (r: bool)
    ensures
        r == (parts_view(a@) == parts_view(b@)),
{
    if a.len() != b.len() {
        return false;
    }
    let mut i: usize = 0;
    while i < a.len()
        invariant
            a.len() == b.len(),
            i <= a.len(),
            forall|j: int| 0 <= j < i ==> a@[j]@ == b@[j]@,
        decreases a.len() - i,
    {
        if a[i] != b[i] {
            assert(parts_view(a@)[i as int] != parts_view(b@)[i as int]);
            return false;
        }
        i = i + 1;
    }
    assert(parts_view(a@) =~= parts_view(b@));
    true
}

/// Whether `a` names a directory strictly above `b`.
pub fn is_proper_prefix(a: &PathParts, b: &PathParts) -> (r: bool)
    ensures
        r == proper_prefix(parts_view(a@), parts_view(b@)),
{
    if a.len() >= b.len() {
        return false;
    }
    let ghost bv = parts_view(b@);
    let mut i: usize = 0;
    while i < a.len()
        invariant
            a.len() < b.len(),
            i <= a.len(),
            bv == parts_view(b@),
            forall|j: int| 0 <= j < i ==> a@[j]@ == b@[j]@,
        decreases a.len() - i,
    {
        if a[i] != b[i] {
            assert(bv.subrange(0, a.len() as int)[i as int] != parts_view(a@)[i as int]);
            return false;
        }
        i = i + 1;
    }
    assert(bv.subrange(0, a.len() as int) =~= parts_view(a@));
    true
}

/// Whether `list` holds a path with the same components as `p`.
pub fn contains_path(list: &Vec<PathParts>, p: &PathParts) -> (r: bool)
    ensures
        r == paths_view(list@).contains(parts_view(p@)),
{
    let mut i: usize = 0;
    while i < list.len()
        invariant
            i <= list.len(),
            forall|j: int| 0 <= j < i ==> paths_view(list@)[j] != parts_view(p@),
        decreases list.len() - i,
    {
        if parts_equal(&list[i], p) {
            assert(paths_view(list@)[i as int] == parts_view(p@));
            return true;
        }
        i = i + 1;
    }
    false
}

/// Whether some path of `list` names a directory strictly above `p`.
pub fn is_below_any(list: &Vec<PathParts>, p: &PathParts) -> (r: bool)
    ensures
        r == below_any(paths_view(list@), parts_view(p@)),
{
    let mut i: usize = 0;
    while i < list.len()
        invariant
            i <= list.len(),
            forall|j: int|
                0 <= j < i ==> !proper_prefix(#[trigger] paths_view(list@)[j], parts_view(p@)),
        decreases list.len() - i,
    {
        if is_proper_prefix(&list[i], p) {
            assert(proper_prefix(paths_view(list@)[i as int], parts_view(p@)));
            return true;
        }
        i = i + 1;
    }
    false
}

/// A copy of the first `n` components of `p`.
pub fn take_parts(p: &PathParts, n: usize) -> (r: PathParts)
    requires
        n <= p.len(),
    ensures
        parts_view(r@) == parts_view(p@).subrange(0, n as int),
{
    let mut r: PathParts = Vec::new();
    let mut i: usize = 0;
    while i < n
        invariant
            n <= p.len(),
            i <= n,
            parts_view(r@) == parts_view(p@).subrange(0, i as int),
        decreases n - i,
    {
        let ghost before = r@;
        r.push(p[i].clone());
        assert(r@ =~= before.push(p@[i as int]));
        assert(parts_view(r@) =~= parts_view(before).push(p@[i as int]@));
        assert(parts_view(r@) =~= parts_view(p@).subrange(0, i + 1));
        i = i + 1;
    }
    r
}

/// A copy of `p`.
pub fn copy_parts(p: &PathParts) -> (r: PathParts)
    ensures
        parts_view(r@) == parts_view(p@),
{
    let r = take_parts(p, p.len());
    assert(parts_view(p@).subrange(0, p.len() as int) =~= parts_view(p@));
    r
}

/// The path of the directory that holds `p`.
pub fn parent_parts(p: &PathParts) -> (r: PathParts)
    requires
        p.len() > 0,
    ensures
        parts_view(r@) == parts_view(p@).drop_last(),
{
    let r = take_parts(p, p.len() - 1);
    assert(parts_view(p@).subrange(0, p.len() - 1) =~= parts_view(p@).drop_last());
    r
}

/// `rel` read from the directory `base`.
pub fn join_parts(base: &PathParts, rel: &PathParts) -> (r: PathParts)
    ensures
        parts_view(r@) == parts_view(base@) + parts_view(rel@),
{
    let mut r = copy_parts(base);
    let mut i: usize = 0;
    while i < rel.len()
        invariant
            i <= rel.len(),
            parts_view(r@) == parts_view(base@) + parts_view(rel@).subrange(0, i as int),
        decreases rel.len() - i,
    {
        let ghost before = r@;
        r.push(rel[i].clone());
        assert(r@ =~= before.push(rel@[i as int]));
        assert(parts_view(r@) =~= parts_view(before).push(rel@[i as int]@));
        assert(parts_view(r@) =~= parts_view(base@) + parts_view(rel@).subrange(0, i + 1));
        i = i + 1;
    }
    assert(parts_view(rel@).subrange(0, rel.len() as int) =~= parts_view(rel@));
    r
}

} // verus!
