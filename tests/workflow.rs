use dhf_filer::model::{Document, Family, SubFamily};
use dhf_filer::workflow::{Action, Workflow, WorkflowState};

fn parts(v: &[&str]) -> Vec<String> {
    v.iter().map(|s| s.to_string()).collect()
}

fn subfamily(family: &str, name: &str, docs: &[&str]) -> SubFamily {
    let mut s = SubFamily::from_path(parts(&["root", family, name]));
    for d in docs {
        s.add_document(Document::from_path(parts(&["root", family, name, d])));
    }
    s
}

fn workflow() -> Workflow {
    let mut w = Workflow::new();
    let mut f = Family::from_path(parts(&["root", "FamilyA"]));
    f.add_subfamily(subfamily("FamilyA", "S1", &["a_Rev1.docx"]));
    f.add_subfamily(subfamily("FamilyA", "S2", &["b_Rev2.pdf", "b_Rev2.docx"]));
    f.add_subfamily(subfamily("FamilyA", "S3", &["c.xlsx"]));
    w.add_family(f);
    w.add_family(Family::from_path(parts(&["root", "FamilyB"])));
    w.finish_scan();
    w
}

fn names(subs: &[SubFamily]) -> Vec<String> {
    subs.iter().map(|s| s.name.clone()).collect()
}

#[test]
fn new_workflow_is_at_family_select() {
    let w = Workflow::new();
    assert_eq!(w.state, WorkflowState::FamilySelect);
    assert!(w.product_families.is_empty());
    assert!(w.subfamilies_to_file.is_empty());
    assert_eq!(w.family_to_file.name, "Default Product Family");
    assert_eq!(w.family_to_file.path, parts(&["H:\\Development"]));
    let d = Family::default();
    assert!(d.subfamilies.is_empty());
}

#[test]
fn select_toggle_confirm_back_confirm() {
    let mut w = workflow();
    assert_eq!(w.state, WorkflowState::FamilySelect);
    w.select_family(0);
    assert_eq!(w.state, WorkflowState::SubfamilySelect);
    assert_eq!(names(&w.family_to_file.subfamilies), vec!["S1", "S2", "S3"]);

    w.toggle_subfamily(0);
    w.toggle_subfamily(2);
    w.confirm_subfamilies();
    assert_eq!(w.state, WorkflowState::DocumentSelect);
    assert_eq!(names(&w.subfamilies_to_file), vec!["S1", "S3"]);
    assert_eq!(w.subfamilies_to_file[0].documents[0].name, "a_Rev1.docx");
    assert_eq!(w.subfamilies_to_file[1].documents[0].name, "c.xlsx");

    w.go_back();
    assert_eq!(w.state, WorkflowState::SubfamilySelect);
    assert!(w.subfamilies_to_file.is_empty());
    assert!(w.family_to_file.subfamilies[0].to_file);
    assert!(!w.family_to_file.subfamilies[1].to_file);
    assert!(w.family_to_file.subfamilies[2].to_file);

    w.toggle_subfamily(0);
    w.toggle_subfamily(1);
    w.confirm_subfamilies();
    assert_eq!(names(&w.subfamilies_to_file), vec!["S2", "S3"]);
}

#[test]
fn selection_does_not_touch_family_list() {
    let mut w = workflow();
    w.select_family(0);
    w.toggle_subfamily(1);
    assert!(w.family_to_file.subfamilies[1].to_file);
    assert!(!w.product_families[0].subfamilies[1].to_file);
    w.go_back();
    assert_eq!(w.state, WorkflowState::FamilySelect);
    w.select_family(0);
    assert!(!w.family_to_file.subfamilies[1].to_file);
    w.go_back();
    w.select_family(1);
    assert_eq!(w.family_to_file.name, "FamilyB");
    assert!(w.family_to_file.subfamilies.is_empty());
}

#[test]
fn document_add_flag_toggles() {
    let mut w = workflow();
    w.apply(Action::SelectFamily(0));
    w.apply(Action::ToggleSubfamily(1));
    w.apply(Action::ConfirmSubfamilies);
    assert_eq!(names(&w.subfamilies_to_file), vec!["S2"]);
    w.apply(Action::ToggleDocumentAdd(0, 1));
    assert!(w.subfamilies_to_file[0].documents[1].to_add);
    assert!(!w.subfamilies_to_file[0].documents[0].to_add);
    assert!(!w.subfamilies_to_file[0].documents[1].to_update);
    w.apply(Action::ToggleDocumentAdd(0, 1));
    assert!(!w.subfamilies_to_file[0].documents[1].to_add);
    w.apply(Action::ToggleDocumentAdd(3, 0));
    w.apply(Action::ToggleDocumentAdd(0, 9));
    assert_eq!(w.subfamilies_to_file.len(), 1);
}

#[test]
fn actions_out_of_stage_change_nothing() {
    let mut w = workflow();
    w.go_back();
    assert_eq!(w.state, WorkflowState::FamilySelect);
    w.toggle_subfamily(0);
    w.confirm_subfamilies();
    assert_eq!(w.state, WorkflowState::FamilySelect);
    w.select_family(7);
    assert_eq!(w.state, WorkflowState::FamilySelect);
    w.select_family(0);
    w.select_family(1);
    assert_eq!(w.family_to_file.name, "FamilyA");
    w.toggle_subfamily(5);
    assert!(w.family_to_file.subfamilies.iter().all(|s| !s.to_file));
}

#[test]
fn confirm_without_choice_files_nothing() {
    let mut w = workflow();
    w.select_family(0);
    w.confirm_subfamilies();
    assert_eq!(w.state, WorkflowState::DocumentSelect);
    assert!(w.subfamilies_to_file.is_empty());
}

#[test]
fn documents_keep_their_classification() {
    let mut w = workflow();
    w.select_family(0);
    let s2 = &w.family_to_file.subfamilies[1];
    assert_eq!(s2.documents[0].revision, Some(2));
    assert_eq!(s2.documents[0].doc_type.label(), "pdf");
    assert_eq!(s2.documents[1].doc_type.label(), "word doc");
    let copy = s2.duplicate();
    assert_eq!(copy.name, "S2");
    assert_eq!(copy.documents.len(), 2);
    w.go_back();
}

#[test]
fn marked_documents_in_filing_order() {
    let mut w = workflow();
    w.select_family(0);
    w.toggle_subfamily(0);
    w.toggle_subfamily(1);
    w.confirm_subfamilies();
    assert!(w.marked_for_add().is_empty());
    w.toggle_document_add(1, 1);
    w.toggle_document_add(0, 0);
    assert_eq!(
        w.marked_for_add(),
        vec![
            parts(&["root", "FamilyA", "S1", "a_Rev1.docx"]),
            parts(&["root", "FamilyA", "S2", "b_Rev2.docx"]),
        ]
    );
    w.go_back();
    assert!(w.marked_for_add().is_empty());
}

#[test]
fn scan_stage_empties_and_returns() {
    let mut w = workflow();
    w.select_family(0);
    w.start_scan();
    assert_eq!(w.state, WorkflowState::SearchingFolder);
    assert!(w.product_families.is_empty());
    w.select_family(0);
    assert_eq!(w.state, WorkflowState::SearchingFolder);
    w.add_family(Family::from_path(parts(&["root", "FamilyC"])));
    w.finish_scan();
    assert_eq!(w.state, WorkflowState::FamilySelect);
    w.finish_scan();
    assert_eq!(w.state, WorkflowState::FamilySelect);
    w.select_family(0);
    assert_eq!(w.family_to_file.name, "FamilyC");
}
