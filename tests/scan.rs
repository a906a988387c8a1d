use dhf_filer::filters::{extended_family_search_filter, is_directory, is_excluded_name, WalkEntry};
use dhf_filer::model::{Document, Family, SubFamily};
use dhf_filer::classify::DocType;
use dhf_filer::paths::{join_parts, parent_parts, parts_equal, PathParts};
use dhf_filer::scan::{in_progress_path, scan_families, scan_files, scan_subfamilies};

fn parts(v: &[&str]) -> PathParts {
    v.iter().map(|s| s.to_string()).collect()
}

fn dir(v: &[&str]) -> WalkEntry {
    WalkEntry { path: parts(v), is_dir: true }
}

fn file(v: &[&str]) -> WalkEntry {
    WalkEntry { path: parts(v), is_dir: false }
}

const DOCS: &str = "DHF & Tech File Word Docs";

#[test]
fn end_to_end_one_family() {
    let root = parts(&["root"]);
    let listing = vec![
        dir(&["FamilyA"]),
        dir(&["FamilyA", DOCS]),
        dir(&["FamilyA", DOCS, "_InProgress"]),
    ];
    let mut found = Vec::new();
    let families = scan_families(&root, &listing, &mut found);
    assert_eq!(families, vec![parts(&["root", "FamilyA"])]);
    let family = Family::from_path(families[0].clone());
    assert_eq!(family.name, "FamilyA");

    let ip = in_progress_path(&family.path);
    assert_eq!(ip, parts(&["root", "FamilyA", DOCS, "_InProgress"]));
    let subs = scan_subfamilies(&ip, true, &vec![dir(&["Sub1"])]).unwrap();
    assert_eq!(subs.len(), 1);
    let sub = SubFamily::from_path(subs[0].clone());
    assert_eq!(sub.name, "Sub1");
    assert!(!sub.to_file);

    let files = scan_files(
        &sub.path,
        &vec![file(&["spec_Rev3.docx"]), file(&["spec_Rev3.pdf"])],
    );
    assert_eq!(files.len(), 2);
    let docs: Vec<Document> = files.into_iter().map(Document::from_path).collect();
    assert_eq!(docs[0].name, "spec_Rev3.docx");
    assert_eq!(docs[0].revision, Some(3));
    assert_eq!(docs[0].doc_type, DocType::WordDoc);
    assert_eq!(docs[1].name, "spec_Rev3.pdf");
    assert_eq!(docs[1].revision, Some(3));
    assert_eq!(docs[1].doc_type, DocType::PDF);
    assert!(!docs[0].to_add && !docs[0].to_update);
}

#[test]
fn families_sorted_and_repeatable() {
    let root = parts(&["H:", "Development"]);
    let listing = vec![
        dir(&["Alpha"]),
        dir(&["Alpha", DOCS]),
        dir(&["Group"]),
        dir(&["Group", "Beta"]),
        dir(&["Group", "Beta", DOCS]),
        dir(&["Zeta"]),
        dir(&["Zeta", DOCS]),
    ];
    let mut found = Vec::new();
    let first = scan_families(&root, &listing, &mut found);
    let mut found_again = Vec::new();
    let second = scan_families(&root, &listing, &mut found_again);
    assert_eq!(
        first,
        vec![
            parts(&["H:", "Development", "Alpha"]),
            parts(&["H:", "Development", "Group", "Beta"]),
            parts(&["H:", "Development", "Zeta"]),
        ]
    );
    assert_eq!(first, second);
    assert_eq!(found, found_again);
}

#[test]
fn families_empty_without_marker() {
    let root = parts(&["root"]);
    let listing = vec![dir(&["A"]), dir(&["A", "B"]), file(&["A", "B", "x.docx"])];
    let mut found = Vec::new();
    assert!(scan_families(&root, &listing, &mut found).is_empty());
    assert!(scan_families(&root, &Vec::new(), &mut found).is_empty());
}

#[test]
fn excluded_folders_are_not_entered() {
    let root = parts(&["root"]);
    let listing = vec![
        dir(&["Design Notes"]),
        dir(&["Design Notes", DOCS]),
        dir(&["zz Old"]),
        dir(&["zz Old", DOCS]),
        dir(&["Kept"]),
        dir(&["Kept", "Obsolete"]),
        dir(&["Kept", "Obsolete", DOCS]),
        dir(&["Kept", DOCS]),
    ];
    let mut found = Vec::new();
    let families = scan_families(&root, &listing, &mut found);
    assert_eq!(families, vec![parts(&["root", "Kept"])]);
    assert_eq!(found, vec![parts(&[]), parts(&[]), parts(&["Kept"])]);
}

#[test]
fn family_walk_is_depth_bounded() {
    let root = parts(&["root"]);
    let listing = vec![
        dir(&["a"]),
        dir(&["a", "b"]),
        dir(&["a", "b", "c"]),
        dir(&["a", "b", "c", DOCS]),
    ];
    let mut found = Vec::new();
    assert!(scan_families(&root, &listing, &mut found).is_empty());
}

#[test]
fn recorded_family_root_is_skipped() {
    let root = parts(&["root"]);
    let listing = vec![dir(&["Fam"]), dir(&["Fam", DOCS])];
    let mut found = vec![parts(&["Fam"])];
    assert!(scan_families(&root, &listing, &mut found).is_empty());
    assert_eq!(found, vec![parts(&["Fam"]), parts(&[])]);
}

#[test]
fn family_filter_decisions() {
    let mut found: Vec<PathParts> = Vec::new();
    assert!(extended_family_search_filter(&dir(&["Products"]), &mut found));
    assert!(found.is_empty());
    assert!(!extended_family_search_filter(&file(&["Products", "a.docx"]), &mut found));
    assert!(found.is_empty());
    assert!(!extended_family_search_filter(&dir(&["Products", "Bioengineering"]), &mut found));
    assert_eq!(found, vec![parts(&["Products"])]);
    assert!(!extended_family_search_filter(&dir(&["P", "A - Admin"]), &mut found));
    assert!(!extended_family_search_filter(&dir(&["P", "Help!"]), &mut found));
    assert!(!extended_family_search_filter(&dir(&["P", "DHF_old"]), &mut found));
    assert!(!extended_family_search_filter(&dir(&["Project Info"]), &mut found));
    assert!(!extended_family_search_filter(&dir(&["Active Projects"]), &mut found));
    assert_eq!(found.len(), 6);
    assert!(!extended_family_search_filter(&dir(&["Products"]), &mut found));
    assert_eq!(found.len(), 7);
}

#[test]
fn subfamilies_absent_without_in_progress() {
    let ip = parts(&["root", "Fam", DOCS, "_InProgress"]);
    assert_eq!(scan_subfamilies(&ip, false, &vec![dir(&["Sub1"])]), None);
    assert_eq!(scan_subfamilies(&ip, true, &Vec::new()), Some(Vec::new()));
}

#[test]
fn subfamilies_are_directories_two_levels_deep() {
    let ip = parts(&["ip"]);
    let listing = vec![
        dir(&["A"]),
        dir(&["A", "Inner"]),
        dir(&["A", "Inner", "Deep"]),
        file(&["A", "notes.docx"]),
        dir(&["B"]),
        file(&["readme.pdf"]),
    ];
    let subs = scan_subfamilies(&ip, true, &listing).unwrap();
    assert_eq!(
        subs,
        vec![parts(&["ip", "A"]), parts(&["ip", "A", "Inner"]), parts(&["ip", "B"])]
    );
}

#[test]
fn files_at_any_depth_without_lock_files() {
    let sub = parts(&["sub"]);
    let listing = vec![
        file(&["a.docx"]),
        file(&["~$a.docx"]),
        dir(&["drafts"]),
        file(&["drafts", "b.docx"]),
        dir(&["old.pdf"]),
        file(&["old.pdf", "c.pdf"]),
        file(&["notes.txt"]),
        file(&["sheet.xlsx"]),
    ];
    let files = scan_files(&sub, &listing);
    assert_eq!(
        files,
        vec![
            parts(&["sub", "a.docx"]),
            parts(&["sub", "drafts", "b.docx"]),
            parts(&["sub", "old.pdf", "c.pdf"]),
            parts(&["sub", "sheet.xlsx"]),
        ]
    );
}

#[test]
fn path_helpers() {
    let a = parts(&["x", "y"]);
    assert!(parts_equal(&a, &parts(&["x", "y"])));
    assert!(!parts_equal(&a, &parts(&["x"])));
    assert_eq!(parent_parts(&a), parts(&["x"]));
    assert_eq!(join_parts(&a, &parts(&["z"])), parts(&["x", "y", "z"]));
    assert!(is_directory(&dir(&["d"])));
    assert!(!is_directory(&file(&["f"])));
}

#[test]
fn families_in_path_order_when_nested() {
    let root = parts(&["R"]);
    let listing = vec![
        dir(&["A"]),
        dir(&["A", "B"]),
        dir(&["A", "B", DOCS]),
        dir(&["A", DOCS]),
    ];
    let mut found = Vec::new();
    let families = scan_families(&root, &listing, &mut found);
    assert_eq!(families, vec![parts(&["R", "A"]), parts(&["R", "A", "B"])]);
}

#[test]
fn marker_folder_must_match_whole_name() {
    let root = parts(&["R"]);
    let listing = vec![
        dir(&["A"]),
        dir(&["A", "Old DHF & Tech File Word Docs"]),
        dir(&["B"]),
        dir(&["B", "DHF & Tech File Word Docs (copy)"]),
    ];
    let mut found = Vec::new();
    assert!(scan_families(&root, &listing, &mut found).is_empty());
}

#[test]
fn results_sorted_whatever_the_listing_order() {
    let ip = parts(&["ip"]);
    let subs = scan_subfamilies(&ip, true, &vec![dir(&["b"]), dir(&["a"]), dir(&["B"])]).unwrap();
    assert_eq!(subs, vec![parts(&["ip", "B"]), parts(&["ip", "a"]), parts(&["ip", "b"])]);
    let sub = parts(&["s"]);
    let files = scan_files(
        &sub,
        &vec![file(&["z.pdf"]), file(&["m.docx"]), file(&["z.pdf"]), file(&["a", "y.xlsx"])],
    );
    assert_eq!(
        files,
        vec![parts(&["s", "a", "y.xlsx"]), parts(&["s", "m.docx"]), parts(&["s", "z.pdf"])]
    );
}

#[test]
fn excluded_folder_names() {
    assert!(is_excluded_name("Design Inputs"));
    assert!(is_excluded_name("zz archive"));
    assert!(is_excluded_name("Obsolete"));
    assert!(!is_excluded_name("Pumps"));
    assert!(!is_excluded_name("DHF & Tech File Word Docs"));
}
