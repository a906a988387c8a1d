//! Name heuristics that decide which directory entries a walk keeps.
use vstd::prelude::*;

use crate::paths::{contains_path, parent_parts, parts_view, paths_view, PathParts};
use crate::text::{seq_contains, str_contains};

verus! {

/// One entry of a directory walk: its path below the walk's root, and
/// whether it is a directory.
pub struct WalkEntry {
    pub path: PathParts,
    pub is_dir: bool,
}

/// A walk entry as plain values.
pub struct EntryV {
    pub path: Seq<Seq<char>>,
    pub is_dir: bool,
}

impl View for WalkEntry {
    type V = EntryV;

    open spec fn view(&self) -> EntryV {
        EntryV { path: parts_view(self.path@), is_dir: self.is_dir }
    }
}

pub open spec fn entries_view(l: Seq<WalkEntry>) -> Seq<EntryV> {
    l.map_values(|e: WalkEntry| e@)
}

/// The name of an entry: the last component of its path.
pub open spec fn entry_name(e: EntryV) -> Seq<char> {
    e.path.last()
}

/// Folder names that never lead to a product family: design and project
/// information folders, archived and obsolete material, bioengineering,
/// and administrative prefixes.
pub open spec fn excluded_name(n: Seq<char>) -> bool {
    ||| seq_contains(n, "Design"@)
    ||| seq_contains(n, "Project Info"@)
    ||| seq_contains(n, "zz"@)
    ||| seq_contains(n, "A - "@)
    ||| seq_contains(n, "Active Projects"@)
    ||| seq_contains(n, "Bioengineer"@)
    ||| seq_contains(n, "!"@)
    ||| seq_contains(n, "Obsolete"@)
    ||| seq_contains(n, "DHF_"@)
}

/// The family filter turns the entry away by its name or path.
pub open spec fn family_name_rejected(found: Seq<Seq<Seq<char>>>, e: EntryV) -> bool {
    excluded_name(entry_name(e)) || found.contains(e.path)
}

/// The family filter lets the walk enter this entry.
pub open spec fn family_accepts(found: Seq<Seq<Seq<char>>>, e: EntryV) -> bool {
    !family_name_rejected(found, e) && e.is_dir
}

/// The record of visited family roots after the filter has seen `e`: a
/// rejection by name records the parent of `e`.
pub open spec fn found_after(found: Seq<Seq<Seq<char>>>, e: EntryV) -> Seq<Seq<Seq<char>>> {
    if family_name_rejected(found, e) {
        found.push(e.path.drop_last())
    } else {
        found
    }
}

/// A name of a document file: an Office or PDF extension, and not an
/// Office lock file.
pub open spec fn valid_doc_name(n: Seq<char>) -> bool {
    (seq_contains(n, ".docx"@) || seq_contains(n, ".pdf"@) || seq_contains(n, ".xlsx"@))
        && !seq_contains(n, "~$"@)
}

pub fn is_directory(entry: &WalkEntry) -> (r: bool)
    ensures
        r == entry.is_dir,
{
    entry.is_dir
}

/// Whether a file name names a document to consider.
pub fn is_valid_file(name: &str) -> (r: bool)
    ensures
        r == valid_doc_name(name@),
{
    (str_contains(name, ".docx") || str_contains(name, ".pdf") || str_contains(name, ".xlsx"))
        && !str_contains(name, "~$")
}

/// Whether a folder name is one that never leads to a product family.
pub fn is_excluded_name(name: &str) -> (r: bool)
    ensures
        r == excluded_name(name@),
{
    str_contains(name, "Design") || str_contains(name, "Project Info") || str_contains(name, "zz")
        || str_contains(name, "A - ") || str_contains(name, "Active Projects")
        || str_contains(name, "Bioengineer") || str_contains(name, "!")
        || str_contains(name, "Obsolete") || str_contains(name, "DHF_")
}

/// Decides whether the family walk enters `entry`; records the parent of an
/// entry turned away by name in `found`, so that the same family root is
/// not taken again by another branch.
pub fn extended_family_search_filter(entry: &WalkEntry, found: &mut Vec<PathParts>) -> (r: bool)
    requires
        entry.path.len() > 0,
    ensures
        r == family_accepts(paths_view(old(found)@), entry@),
        paths_view(final(found)@) == found_after(paths_view(old(found)@), entry@),
{
    let last = entry.path.len() - 1;
    let name = entry.path[last].as_str();
    assert(name@ == entry_name(entry@));
    let rejected = is_excluded_name(name) || contains_path(found, &entry.path);
    if rejected {
        let parent = parent_parts(&entry.path);
        let ghost before = found@;
        found.push(parent);
        assert(paths_view(found@) =~= paths_view(before).push(entry@.path.drop_last()));
    }
    !rejected && entry.is_dir
}

} // verus!
