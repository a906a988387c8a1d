//! The three walks of discovery: family roots, subfamilies, documents.
//!
//! Each takes the entries of a directory walk (parents before their
//! contents) and returns the paths it keeps sorted by path, each once. In
//! the family and subfamily walks an entry that the filter turns away is
//! skipped with everything below it, as a walker does that does not descend
//! into a rejected directory; the document walk enters every folder.
use vstd::prelude::*;

use crate::filters::{
    entries_view, entry_name, extended_family_search_filter, family_accepts, found_after,
    is_directory, is_valid_file, valid_doc_name, EntryV, WalkEntry,
};
use crate::paths::{
    below_any, copy_parts, is_below_any, join_parts, parent_parts, parts_view, paths_view,
    PathParts,
};
use crate::order::{lemma_sorted_unique, sort_paths, strictly_sorted};

verus! {

/// How deep below the root the family walk looks.
pub const FAMILY_DEPTH: usize = 3;

/// How deep below the in-progress folder the subfamily walk looks.
pub const SUBFAMILY_DEPTH: usize = 2;

/// The name of the folder that holds a family's controlled documents.
pub open spec fn doc_root_name() -> Seq<char> {
    "DHF & Tech File Word Docs"@
}

/// The name of the folder, inside the document root, that holds work in
/// progress.
pub open spec fn in_progress_name() -> Seq<char> {
    "_InProgress"@
}

/// What a walk has gathered so far: the entries turned away, the record of
/// visited family roots, and the paths kept.
pub struct WalkState {
    pub pruned: Seq<Seq<Seq<char>>>,
    pub found: Seq<Seq<Seq<char>>>,
    pub out: Seq<Seq<Seq<char>>>,
}

pub open spec fn start_state(found: Seq<Seq<Seq<char>>>) -> WalkState {
    WalkState { pruned: seq![], found: found, out: seq![] }
}

/// The walk does not reach `e`: it lies outside the depth bounds or below
/// an entry turned away.
pub open spec fn out_of_walk(st: WalkState, e: EntryV, max_depth: int) -> bool {
    e.path.len() < 1 || e.path.len() > max_depth || below_any(st.pruned, e.path)
}

/// One entry of the family walk. A kept document-root folder gives its
/// parent as a family root.
pub open spec fn family_step(root: Seq<Seq<char>>, st: WalkState, e: EntryV) -> WalkState {
    if out_of_walk(st, e, FAMILY_DEPTH as int) {
        st
    } else if family_accepts(st.found, e) {
        if entry_name(e) == doc_root_name() {
            WalkState { out: st.out.push(root + e.path.drop_last()), ..st }
        } else {
            st
        }
    } else {
        WalkState { pruned: st.pruned.push(e.path), found: found_after(st.found, e), ..st }
    }
}

pub open spec fn family_walk(
    root: Seq<Seq<char>>,
    entries: Seq<EntryV>,
    found: Seq<Seq<Seq<char>>>,
) -> WalkState
    decreases entries.len(),
{
    if entries.len() == 0 {
        start_state(found)
    } else {
        family_step(root, family_walk(root, entries.drop_last(), found), entries.last())
    }
}

/// One entry of the subfamily walk: directories are kept, files turned away.
pub open spec fn subfamily_step(base: Seq<Seq<char>>, st: WalkState, e: EntryV) -> WalkState {
    if out_of_walk(st, e, SUBFAMILY_DEPTH as int) {
        st
    } else if e.is_dir {
        WalkState { out: st.out.push(base + e.path), ..st }
    } else {
        WalkState { pruned: st.pruned.push(e.path), ..st }
    }
}

pub open spec fn subfamily_walk(base: Seq<Seq<char>>, entries: Seq<EntryV>) -> WalkState
    decreases entries.len(),
{
    if entries.len() == 0 {
        start_state(seq![])
    } else {
        subfamily_step(base, subfamily_walk(base, entries.drop_last()), entries.last())
    }
}

/// An entry that the document walk keeps: a file with a document name.
pub open spec fn is_doc_file(e: EntryV) -> bool {
    e.path.len() >= 1 && !e.is_dir && valid_doc_name(entry_name(e))
}

proof fn lemma_take_step<T>(s: Seq<T>, i: int)
    requires
        0 <= i < s.len(),
    ensures
        s.take(i + 1).drop_last() == s.take(i),
        s.take(i + 1).last() == s[i],
        s.take(i + 1).len() == i + 1,
{
    assert(s.take(i + 1).drop_last() =~= s.take(i));
}

proof fn lemma_push_path(v: Seq<PathParts>, p: PathParts)
    ensures
        paths_view(v.push(p)) == paths_view(v).push(parts_view(p@)),
{
    assert(paths_view(v.push(p)) =~= paths_view(v).push(parts_view(p@)));
}

/// The family roots below `root`, sorted by path, from the entries of a
/// walk of `root`: the parents of the folders named after the document root
/// that the walk reaches. `found` is the record of family roots seen by
/// name (paths below `root`); a scan that starts from an empty record
/// depends on the walk alone.
pub fn scan_families(
    root: &PathParts,
    listing: &Vec<WalkEntry>,
    found: &mut Vec<PathParts>,
) -> (r: Vec<PathParts>)
    ensures
        strictly_sorted(paths_view(r@)),
        forall|x: Seq<Seq<char>>|
            paths_view(r@).contains(x) <==> family_walk(
                parts_view(root@),
                entries_view(listing@),
                paths_view(old(found)@),
            ).out.contains(x),
        paths_view(final(found)@) == family_walk(
            parts_view(root@),
            entries_view(listing@),
            paths_view(old(found)@),
        ).found,
{
    let ghost rv = parts_view(root@);
    let ghost es = entries_view(listing@);
    let ghost found0 = paths_view(found@);
    let mut pruned: Vec<PathParts> = Vec::new();
    let mut out: Vec<PathParts> = Vec::new();
    let mut i: usize = 0;
    while i < listing.len()
        invariant
            i <= listing.len(),
            rv == parts_view(root@),
            es == entries_view(listing@),
            ({
                let st = family_walk(rv, es.take(i as int), found0);
                &&& paths_view(pruned@) == st.pruned
                &&& paths_view(found@) == st.found
                &&& paths_view(out@) == st.out
            }),
        decreases listing.len() - i,
    {
        proof {
            lemma_take_step(es, i as int);
        }
        let entry = &listing[i];
        assert(es[i as int] == entry@);
        let depth = entry.path.len();
        if depth >= 1 && depth <= FAMILY_DEPTH && !is_below_any(&pruned, &entry.path) {
            if extended_family_search_filter(entry, found) {
                let last = depth - 1;
                if entry.path[last] == String::from_str("DHF & Tech File Word Docs") {
                    let parent = parent_parts(&entry.path);
                    let family = join_parts(root, &parent);
                    proof {
                        lemma_push_path(out@, family);
                    }
                    out.push(family);
                }
            } else {
                proof {
                    lemma_push_path(pruned@, entry.path);
                }
                pruned.push(copy_parts(&entry.path));
                assert(paths_view(pruned@) == family_walk(rv, es.take(i + 1), found0).pruned);
            }
        }
        i = i + 1;
    }
    assert(es.take(listing.len() as int) =~= es);
    sort_paths(out)
}

/// The in-progress folder of a family: its document root, then
/// `_InProgress`.
pub fn in_progress_path(family: &PathParts) -> (r: PathParts)
    ensures
        parts_view(r@) == parts_view(family@) + seq![doc_root_name(), in_progress_name()],
{
    let mut r = copy_parts(family);
    let ghost before = r@;
    r.push(String::from_str("DHF & Tech File Word Docs"));
    r.push(String::from_str("_InProgress"));
    assert(parts_view(r@) =~= parts_view(before) + seq![doc_root_name(), in_progress_name()]);
    r
}

/// The subfamily folders below `in_progress`, sorted by path, from the
/// entries of a walk of it; `None` where the folder does not exist.
pub fn scan_subfamilies(
    in_progress: &PathParts,
    in_progress_exists: bool,
    listing: &Vec<WalkEntry>,
) -> (r: Option<Vec<PathParts>>)
    ensures
        r is Some <==> in_progress_exists,
        r matches Some(v) ==> strictly_sorted(paths_view(v@)) && forall|x: Seq<Seq<char>>|
            paths_view(v@).contains(x) <==> subfamily_walk(
                parts_view(in_progress@),
                entries_view(listing@),
            ).out.contains(x),
{
    if !in_progress_exists {
        return None;
    }
    let ghost bv = parts_view(in_progress@);
    let ghost es = entries_view(listing@);
    let mut pruned: Vec<PathParts> = Vec::new();
    let mut out: Vec<PathParts> = Vec::new();
    let mut i: usize = 0;
    while i < listing.len()
        invariant
            i <= listing.len(),
            bv == parts_view(in_progress@),
            es == entries_view(listing@),
            ({
                let st = subfamily_walk(bv, es.take(i as int));
                &&& paths_view(pruned@) == st.pruned
                &&& paths_view(out@) == st.out
            }),
        decreases listing.len() - i,
    {
        proof {
            lemma_take_step(es, i as int);
        }
        let entry = &listing[i];
        assert(es[i as int] == entry@);
        let depth = entry.path.len();
        if depth >= 1 && depth <= SUBFAMILY_DEPTH && !is_below_any(&pruned, &entry.path) {
            if is_directory(entry) {
                let sub = join_parts(in_progress, &entry.path);
                proof {
                    lemma_push_path(out@, sub);
                }
                out.push(sub);
            } else {
                proof {
                    lemma_push_path(pruned@, entry.path);
                }
                pruned.push(copy_parts(&entry.path));
            }
        }
        i = i + 1;
    }
    assert(es.take(listing.len() as int) =~= es);
    Some(sort_paths(out))
}

/// The document files below `subfamily`, at any depth, sorted by path,
/// from the entries of a walk of it: every file with a document name.
pub fn scan_files(subfamily: &PathParts, listing: &Vec<WalkEntry>) -> (r: Vec<PathParts>)
    ensures
        strictly_sorted(paths_view(r@)),
        forall|x: Seq<Seq<char>>|
            paths_view(r@).contains(x) <==> exists|k: int|
                0 <= k < listing.len() && is_doc_file(#[trigger] entries_view(listing@)[k]) && x
                    == parts_view(subfamily@) + entries_view(listing@)[k].path,
{
    let ghost bv = parts_view(subfamily@);
    let ghost es = entries_view(listing@);
    let mut out: Vec<PathParts> = Vec::new();
    let mut i: usize = 0;
    while i < listing.len()
        invariant
            i <= listing.len(),
            bv == parts_view(subfamily@),
            es == entries_view(listing@),
            forall|x: Seq<Seq<char>>|
                paths_view(out@).contains(x) <==> exists|k: int|
                    0 <= k < i && is_doc_file(#[trigger] es[k]) && x == bv + es[k].path,
        decreases listing.len() - i,
    {
        let entry = &listing[i];
        assert(es[i as int] == entry@);
        let depth = entry.path.len();
        let ghost before = paths_view(out@);
        if depth >= 1 && !entry.is_dir && is_valid_file(entry.path[depth - 1].as_str()) {
            let file = join_parts(subfamily, &entry.path);
            proof {
                lemma_push_path(out@, file);
            }
            out.push(file);
        }
        assert forall|x: Seq<Seq<char>>|
            paths_view(out@).contains(x) <==> exists|k: int|
                0 <= k < i + 1 && is_doc_file(#[trigger] es[k]) && x == bv + es[k].path by {
            if paths_view(out@).contains(x) && !before.contains(x) {
                let m = choose|m: int| 0 <= m < paths_view(out@).len() && paths_view(out@)[m] == x;
                assert(m == before.len());
                assert(is_doc_file(es[i as int]));
            }
            if exists|k: int| 0 <= k < i + 1 && is_doc_file(#[trigger] es[k]) && x == bv + es[k].path {
                let k = choose|k: int| 0 <= k < i + 1 && is_doc_file(#[trigger] es[k]) && x == bv + es[k].path;
                if k == i {
                    assert(paths_view(out@)[before.len() as int] == x);
                } else {
                    assert(before.contains(x));
                    let m = choose|m: int| 0 <= m < before.len() && before[m] == x;
                    assert(paths_view(out@)[m] == x);
                }
            }
        }
        i = i + 1;
    }
    sort_paths(out)
}

/// Repeating discovery repeats its result: any two lists that meet the
/// contract of `scan_families` for the same root and walk, each scan
/// starting from an empty record, are the same list, in the same order.
pub proof fn lemma_family_discovery_repeatable(
    root: Seq<Seq<char>>,
    entries: Seq<EntryV>,
    first: Seq<Seq<Seq<char>>>,
    second: Seq<Seq<Seq<char>>>,
)
    requires
        strictly_sorted(first),
        strictly_sorted(second),
        forall|x: Seq<Seq<char>>|
            first.contains(x) <==> family_walk(root, entries, seq![]).out.contains(x),
        forall|x: Seq<Seq<char>>|
            second.contains(x) <==> family_walk(root, entries, seq![]).out.contains(x),
    ensures
        first == second,
{
    lemma_sorted_unique(first, second);
}

/// Every subfamily lies one or two levels below the in-progress folder.
pub proof fn lemma_subfamilies_depth_bounded(base: Seq<Seq<char>>, entries: Seq<EntryV>)
    ensures
        forall|k: int|
            0 <= k < subfamily_walk(base, entries).out.len() ==> {
                let p = #[trigger] subfamily_walk(base, entries).out[k];
                &&& base.len() + 1 <= p.len() <= base.len() + SUBFAMILY_DEPTH
                &&& p.subrange(0, base.len() as int) == base
            },
    decreases entries.len(),
{
    if entries.len() > 0 {
        lemma_subfamilies_depth_bounded(base, entries.drop_last());
        let prev = subfamily_walk(base, entries.drop_last());
        let e = entries.last();
        let p = base + e.path;
        assert(p.subrange(0, base.len() as int) =~= base);
        let st = subfamily_walk(base, entries);
        assert(st == subfamily_step(base, prev, e));
        assert forall|k: int| 0 <= k < st.out.len() implies {
            let q = #[trigger] st.out[k];
            &&& base.len() + 1 <= q.len() <= base.len() + SUBFAMILY_DEPTH
            &&& q.subrange(0, base.len() as int) == base
        } by {
            if k < prev.out.len() {
                assert(st.out[k] == prev.out[k]);
            }
        }
    }
}

/// `x` is the family root that the folder entry `e` names, as a document
/// root one to three levels below `root`.
pub open spec fn doc_root_of(root: Seq<Seq<char>>, e: EntryV, x: Seq<Seq<char>>) -> bool {
    &&& e.is_dir
    &&& entry_name(e) == doc_root_name()
    &&& 1 <= e.path.len() <= FAMILY_DEPTH
    &&& x == root + e.path.drop_last()
}

pub open spec fn has_doc_root(root: Seq<Seq<char>>, entries: Seq<EntryV>, x: Seq<Seq<char>>) -> bool {
    exists|j: int| 0 <= j < entries.len() && doc_root_of(root, #[trigger] entries[j], x)
}

/// Every family root is the parent of a folder of the walk, one to three
/// levels below the root, named exactly after the document root: a walk
/// without such a folder finds no family.
pub proof fn lemma_families_hold_doc_root(
    root: Seq<Seq<char>>,
    entries: Seq<EntryV>,
    found: Seq<Seq<Seq<char>>>,
)
    ensures
        forall|k: int|
            0 <= k < family_walk(root, entries, found).out.len() ==> has_doc_root(
                root,
                entries,
                #[trigger] family_walk(root, entries, found).out[k],
            ),
    decreases entries.len(),
{
    if entries.len() > 0 {
        let prev_entries = entries.drop_last();
        lemma_families_hold_doc_root(root, prev_entries, found);
        let prev = family_walk(root, prev_entries, found);
        let st = family_walk(root, entries, found);
        let n = entries.len() - 1;
        assert forall|k: int| 0 <= k < st.out.len() implies has_doc_root(
            root,
            entries,
            #[trigger] st.out[k],
        ) by {
            if k < prev.out.len() {
                assert(st.out[k] == prev.out[k]);
                assert(has_doc_root(root, prev_entries, prev.out[k]));
                let j = choose|j: int|
                    0 <= j < prev_entries.len() && doc_root_of(
                        root,
                        #[trigger] prev_entries[j],
                        prev.out[k],
                    );
                assert(entries[j] == prev_entries[j]);
            } else {
                assert(entries[n] == entries.last());
                assert(doc_root_of(root, entries[n], st.out[k]));
            }
        }
    }
}

} // verus!
