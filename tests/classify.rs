use dhf_filer::classify::{doc_type_from_string, find_revision, DocType};
use dhf_filer::filters::is_valid_file;

#[test]
fn revision_is_the_number_after_rev() {
    assert_eq!(find_revision("spec_Rev3.docx"), Some(3));
    assert_eq!(find_revision("Rev12"), Some(12));
    assert_eq!(find_revision("plan Rev007 final.pdf"), Some(7));
    assert_eq!(find_revision("Rev0.pdf"), Some(0));
}

#[test]
fn revision_absent_without_marker() {
    assert_eq!(find_revision("spec.docx"), None);
    assert_eq!(find_revision("Revision A.docx"), None);
    assert_eq!(find_revision("rev3.docx"), None);
    assert_eq!(find_revision(""), None);
}

#[test]
fn revision_takes_first_marker() {
    assert_eq!(find_revision("Rev2 of Rev9.docx"), Some(2));
    assert_eq!(find_revision("RevA Rev5.docx"), Some(5));
}

#[test]
fn revision_too_large_is_absent() {
    assert_eq!(find_revision("Rev4294967295.docx"), Some(4294967295));
    assert_eq!(find_revision("Rev4294967296.docx"), None);
    assert_eq!(find_revision("Rev99999999999999999999.pdf"), None);
}

#[test]
fn classify_by_extension_text() {
    assert_eq!(doc_type_from_string("x.docx"), DocType::WordDoc);
    assert_eq!(doc_type_from_string("x.pdf"), DocType::PDF);
    assert_eq!(doc_type_from_string("x.pdf.docx"), DocType::WordDoc);
    assert_eq!(doc_type_from_string("x.docx.pdf"), DocType::WordDoc);
    assert_eq!(doc_type_from_string("x.txt"), DocType::Other);
    assert_eq!(doc_type_from_string("x.xlsx"), DocType::Other);
}

#[test]
fn doc_type_labels() {
    assert_eq!(DocType::PDF.label(), "pdf");
    assert_eq!(DocType::WordDoc.label(), "word doc");
    assert_eq!(DocType::Other.label(), "other");
}

#[test]
fn valid_document_names() {
    assert!(!is_valid_file("~$report.docx"));
    assert!(is_valid_file("report.docx"));
    assert!(is_valid_file("report.pdf"));
    assert!(is_valid_file("report.xlsx"));
    assert!(!is_valid_file("report.txt"));
    assert!(!is_valid_file(""));
}
