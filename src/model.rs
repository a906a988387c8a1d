//! Families, subfamilies and documents, as discovery assembles them.
use vstd::prelude::*;

use crate::classify::{doc_type_from_string, find_revision, spec_doc_type, spec_revision, DocType};
use crate::paths::{copy_parts, parts_view, PathParts};

verus! {

/// A candidate document file.
pub struct Document {
    pub path: PathParts,
    /// The file name, extension included.
    pub name: String,
    /// The number after `Rev` in the name, if any.
    pub revision: Option<u32>,
    pub doc_type: DocType,
    /// The operator wants the document added.
    pub to_add: bool,
    /// The operator wants the document updated.
    pub to_update: bool,
}

pub struct DocumentV {
    pub path: Seq<Seq<char>>,
    pub name: Seq<char>,
    pub revision: Option<u32>,
    pub doc_type: DocType,
    pub to_add: bool,
    pub to_update: bool,
}

impl View for Document {
    type V = DocumentV;

    open spec fn view(&self) -> DocumentV {
        DocumentV {
            path: parts_view(self.path@),
            name: self.name@,
            revision: self.revision,
            doc_type: self.doc_type,
            to_add: self.to_add,
            to_update: self.to_update,
        }
    }
}

/// A working unit of a family, found in its in-progress folder.
pub struct SubFamily {
    pub path: PathParts,
    pub documents: Vec<Document>,
    pub name: String,
    /// The operator has chosen the subfamily for filing.
    pub to_file: bool,
}

pub struct SubFamilyV {
    pub path: Seq<Seq<char>>,
    pub documents: Seq<DocumentV>,
    pub name: Seq<char>,
    pub to_file: bool,
}

pub open spec fn documents_view(v: Seq<Document>) -> Seq<DocumentV> {
    v.map_values(|d: Document| d@)
}

impl View for SubFamily {
    type V = SubFamilyV;

    open spec fn view(&self) -> SubFamilyV {
        SubFamilyV {
            path: parts_view(self.path@),
            documents: documents_view(self.documents@),
            name: self.name@,
            to_file: self.to_file,
        }
    }
}

/// A product line.
pub struct Family {
    pub path: PathParts,
    pub subfamilies: Vec<SubFamily>,
    pub name: String,
}

pub struct FamilyV {
    pub path: Seq<Seq<char>>,
    pub subfamilies: Seq<SubFamilyV>,
    pub name: Seq<char>,
}

pub open spec fn subfamilies_view(v: Seq<SubFamily>) -> Seq<SubFamilyV> {
    v.map_values(|s: SubFamily| s@)
}

pub open spec fn families_view(v: Seq<Family>) -> Seq<FamilyV> {
    v.map_values(|f: Family| f@)
}

impl View for Family {
    type V = FamilyV;

    open spec fn view(&self) -> FamilyV {
        FamilyV {
            path: parts_view(self.path@),
            subfamilies: subfamilies_view(self.subfamilies@),
            name: self.name@,
        }
    }
}

/// A document as discovery creates it: named after the last component of
/// its path, classified and numbered from that name, with no intent marked.
pub open spec fn new_document(path: Seq<Seq<char>>) -> DocumentV {
    DocumentV {
        path: path,
        name: path.last(),
        revision: spec_revision(path.last()),
        doc_type: spec_doc_type(path.last()),
        to_add: false,
        to_update: false,
    }
}

impl Document {
    pub fn from_path(path: PathParts) -> (r: Document)
        requires
            path.len() > 0,
        ensures
            r@ == new_document(parts_view(path@)),
    {
        let last = path.len() - 1;
        let name = path[last].clone();
        let revision = find_revision(name.as_str());
        let doc_type = doc_type_from_string(name.as_str());
        Document { path, name, revision, doc_type, to_add: false, to_update: false }
    }

    /// A copy with the same contents.
    pub fn duplicate(&self) -> (r: Document)
        ensures
            r@ == self@,
    {
        Document {
            path: copy_parts(&self.path),
            name: self.name.clone(),
            revision: self.revision,
            doc_type: self.doc_type,
            to_add: self.to_add,
            to_update: self.to_update,
        }
    }
}

impl SubFamily {
    /// A subfamily with no documents yet, not chosen for filing.
    pub fn from_path(path: PathParts) -> (r: SubFamily)
        requires
            path.len() > 0,
        ensures
            r@ == (SubFamilyV {
                path: parts_view(path@),
                documents: seq![],
                name: parts_view(path@).last(),
                to_file: false,
            }),
    {
        let last = path.len() - 1;
        let name = path[last].clone();
        let r = SubFamily { path, documents: Vec::new(), name, to_file: false };
        assert(r@.documents =~= seq![]);
        r
    }

    pub fn add_document(&mut self, document: Document)
        ensures
            final(self)@ == (SubFamilyV {
                documents: old(self)@.documents.push(document@),
                ..old(self)@
            }),
    {
        let ghost before = self.documents@;
        self.documents.push(document);
        assert(documents_view(self.documents@) =~= documents_view(before).push(document@));
    }

    /// A copy with the same contents.
    pub fn duplicate(&self) -> (r: SubFamily)
        ensures
            r@ == self@,
    {
        let mut documents: Vec<Document> = Vec::new();
        let mut i: usize = 0;
        while i < self.documents.len()
            invariant
                i <= self.documents.len(),
                documents_view(documents@) == documents_view(self.documents@).take(i as int),
            decreases self.documents.len() - i,
        {
            let ghost before = documents@;
            let d = self.documents[i].duplicate();
            documents.push(d);
            assert(documents_view(documents@) =~= documents_view(before).push(d@));
            assert(documents_view(documents@) =~= documents_view(self.documents@).take(i + 1));
            i = i + 1;
        }
        assert(documents_view(self.documents@).take(i as int) =~= documents_view(self.documents@));
        SubFamily {
            path: copy_parts(&self.path),
            documents,
            name: self.name.clone(),
            to_file: self.to_file,
        }
    }
}

impl Family {
    /// A family with no subfamilies yet, named after its folder.
    pub fn from_path(path: PathParts) -> (r: Family)
        requires
            path.len() > 0,
        ensures
            r@ == (FamilyV {
                path: parts_view(path@),
                subfamilies: seq![],
                name: parts_view(path@).last(),
            }),
    {
        let last = path.len() - 1;
        let name = path[last].clone();
        let r = Family { path, subfamilies: Vec::new(), name };
        assert(r@.subfamilies =~= seq![]);
        r
    }

    pub fn add_subfamily(&mut self, subfamily: SubFamily)
        ensures
            final(self)@ == (FamilyV {
                subfamilies: old(self)@.subfamilies.push(subfamily@),
                ..old(self)@
            }),
    {
        let ghost before = self.subfamilies@;
        self.subfamilies.push(subfamily);
        assert(subfamilies_view(self.subfamilies@) =~= subfamilies_view(before).push(subfamily@));
    }

    /// A copy with the same contents.
    pub fn duplicate(&self) -> (r: Family)
        ensures
            r@ == self@,
    {
        let mut subfamilies: Vec<SubFamily> = Vec::new();
        let mut i: usize = 0;
        while i < self.subfamilies.len()
            invariant
                i <= self.subfamilies.len(),
                subfamilies_view(subfamilies@) == subfamilies_view(self.subfamilies@).take(i as int),
            decreases self.subfamilies.len() - i,
        {
            let ghost before = subfamilies@;
            let s = self.subfamilies[i].duplicate();
            subfamilies.push(s);
            assert(subfamilies_view(subfamilies@) =~= subfamilies_view(before).push(s@));
            assert(subfamilies_view(subfamilies@) =~= subfamilies_view(self.subfamilies@).take(
                i + 1,
            ));
            i = i + 1;
        }
        assert(subfamilies_view(self.subfamilies@).take(i as int) =~= subfamilies_view(
            self.subfamilies@,
        ));
        Family { path: copy_parts(&self.path), subfamilies, name: self.name.clone() }
    }
}

/// The placeholder family that stands before the operator picks one.
pub open spec fn default_family() -> FamilyV {
    FamilyV {
        path: seq!["H:\\Development"@],
        subfamilies: seq![],
        name: "Default Product Family"@,
    }
}

impl Default for Family {
    fn default() -> (r: Family)
        ensures
            r@ == default_family(),
    {
        let mut path: PathParts = Vec::new();
        path.push(String::from_str("H:\\Development"));
        let r = Family {
            path,
            subfamilies: Vec::new(),
            name: String::from_str("Default Product Family"),
        };
        assert(r@.path =~= seq!["H:\\Development"@]);
        assert(r@.subfamilies =~= seq![]);
        r
    }
}

} // verus!
