//! The operator's path from the list of families to the documents to file.
use vstd::prelude::*;

use crate::model::{
    default_family, documents_view, families_view, subfamilies_view, DocumentV, Family, FamilyV,
    SubFamily, SubFamilyV,
};
use crate::paths::{copy_parts, parts_view, paths_view, PathParts};

verus! {

/// Where the operator stands.
#[derive(PartialEq, Eq, Structural, Clone, Copy, Debug)]
pub enum WorkflowState {
    /// Discovery is running.
    SearchingFolder,
    FamilySelect,
    SubfamilySelect,
    DocumentSelect,
}

/// An operator action.
#[derive(PartialEq, Eq, Structural, Clone, Copy, Debug)]
pub enum Action {
    /// Pick the family at this index of the family list.
    SelectFamily(usize),
    /// Flip the filing choice of the active family's subfamily at this index.
    ToggleSubfamily(usize),
    /// Take the chosen subfamilies on to document selection.
    ConfirmSubfamilies,
    /// Flip "add" on a document: subfamily index in the filing list, then
    /// document index.
    ToggleDocumentAdd(usize, usize),
    GoBack,
}

/// The families found, the stage, the active family and the subfamilies
/// taken on for filing.
pub struct Workflow {
    pub product_families: Vec<Family>,
    pub subfamilies_to_file: Vec<SubFamily>,
    pub state: WorkflowState,
    pub family_to_file: Family,
}

pub struct WorkflowV {
    pub families: Seq<FamilyV>,
    pub to_file: Seq<SubFamilyV>,
    pub state: WorkflowState,
    pub active: FamilyV,
}

impl View for Workflow {
    type V = WorkflowV;

    open spec fn view(&self) -> WorkflowV {
        WorkflowV {
            families: families_view(self.product_families@),
            to_file: subfamilies_view(self.subfamilies_to_file@),
            state: self.state,
            active: self.family_to_file@,
        }
    }
}

/// The subfamilies chosen for filing, in their order.
pub open spec fn chosen(s: Seq<SubFamilyV>) -> Seq<SubFamilyV>
    decreases s.len(),
{
    if s.len() == 0 {
        seq![]
    } else if s.last().to_file {
        chosen(s.drop_last()).push(s.last())
    } else {
        chosen(s.drop_last())
    }
}

pub open spec fn flip_to_file(s: SubFamilyV) -> SubFamilyV {
    SubFamilyV { to_file: !s.to_file, ..s }
}

pub open spec fn flip_to_add(d: DocumentV) -> DocumentV {
    DocumentV { to_add: !d.to_add, ..d }
}

/// The paths of the documents of `docs` marked for adding, in order.
pub open spec fn marked_docs(docs: Seq<DocumentV>) -> Seq<Seq<Seq<char>>>
    decreases docs.len(),
{
    if docs.len() == 0 {
        seq![]
    } else if docs.last().to_add {
        marked_docs(docs.drop_last()).push(docs.last().path)
    } else {
        marked_docs(docs.drop_last())
    }
}

/// The paths of the documents marked for adding, subfamily by subfamily.
pub open spec fn marked_paths(subs: Seq<SubFamilyV>) -> Seq<Seq<Seq<char>>>
    decreases subs.len(),
{
    if subs.len() == 0 {
        seq![]
    } else {
        marked_paths(subs.drop_last()) + marked_docs(subs.last().documents)
    }
}

/// What an action does. An action that does not belong to the current
/// stage, or names an index out of range, changes nothing.
pub open spec fn step(w: WorkflowV, a: Action) -> WorkflowV {
    match a {
        Action::SelectFamily(i) => {
            if w.state == WorkflowState::FamilySelect && i < w.families.len() {
                WorkflowV { active: w.families[i as int], state: WorkflowState::SubfamilySelect, ..w }
            } else {
                w
            }
        },
        Action::ToggleSubfamily(i) => {
            if w.state == WorkflowState::SubfamilySelect && i < w.active.subfamilies.len() {
                let subs = w.active.subfamilies;
                WorkflowV {
                    active: FamilyV {
                        subfamilies: subs.update(i as int, flip_to_file(subs[i as int])),
                        ..w.active
                    },
                    ..w
                }
            } else {
                w
            }
        },
        Action::ConfirmSubfamilies => {
            if w.state == WorkflowState::SubfamilySelect {
                WorkflowV {
                    to_file: w.to_file + chosen(w.active.subfamilies),
                    state: WorkflowState::DocumentSelect,
                    ..w
                }
            } else {
                w
            }
        },
        Action::ToggleDocumentAdd(s, d) => {
            if w.state == WorkflowState::DocumentSelect && s < w.to_file.len() && d
                < w.to_file[s as int].documents.len() {
                let sub = w.to_file[s as int];
                let docs = sub.documents;
                WorkflowV {
                    to_file: w.to_file.update(
                        s as int,
                        SubFamilyV {
                            documents: docs.update(d as int, flip_to_add(docs[d as int])),
                            ..sub
                        },
                    ),
                    ..w
                }
            } else {
                w
            }
        },
        Action::GoBack => {
            if w.state == WorkflowState::SubfamilySelect {
                WorkflowV { state: WorkflowState::FamilySelect, ..w }
            } else if w.state == WorkflowState::DocumentSelect {
                WorkflowV { to_file: seq![], state: WorkflowState::SubfamilySelect, ..w }
            } else {
                w
            }
        },
    }
}

impl Workflow {
    /// A workflow at family selection, with no families yet.
    pub fn new() -> (r: Workflow)
        ensures
            r@.families == Seq::<FamilyV>::empty(),
            r@.to_file == Seq::<SubFamilyV>::empty(),
            r@.state == WorkflowState::FamilySelect,
            r@.active == default_family(),
    {
        let r = Workflow {
            product_families: Vec::new(),
            subfamilies_to_file: Vec::new(),
            state: WorkflowState::FamilySelect,
            family_to_file: Family::default(),
        };
        assert(r@.families =~= Seq::<FamilyV>::empty());
        assert(r@.to_file =~= Seq::<SubFamilyV>::empty());
        r
    }

    /// Adds a discovered family at the end of the family list.
    pub fn add_family(&mut self, family: Family)
        ensures
            final(self)@ == (WorkflowV { families: old(self)@.families.push(family@), ..old(self)@ }),
    {
        let ghost before = self.product_families@;
        self.product_families.push(family);
        assert(families_view(self.product_families@) =~= families_view(before).push(family@));
    }

    /// Starts a new discovery pass: the family list is emptied and the
    /// stage is discovery until `finish_scan`.
    pub fn start_scan(&mut self)
        ensures
            final(self)@ == (WorkflowV {
                families: seq![],
                state: WorkflowState::SearchingFolder,
                ..old(self)@
            }),
    {
        self.product_families.clear();
        assert(families_view(self.product_families@) =~= seq![]);
        self.state = WorkflowState::SearchingFolder;
    }

    /// Ends discovery: the operator may pick a family.
    pub fn finish_scan(&mut self)
        ensures
            final(self)@ == (WorkflowV {
                state: if old(self)@.state == WorkflowState::SearchingFolder {
                    WorkflowState::FamilySelect
                } else {
                    old(self)@.state
                },
                ..old(self)@
            }),
    {
        if self.state == WorkflowState::SearchingFolder {
            self.state = WorkflowState::FamilySelect;
        }
    }

    /// Makes a copy of the family at `index` the active family.
    pub fn select_family(&mut self, index: usize)
        ensures
            final(self)@ == step(old(self)@, Action::SelectFamily(index)),
    {
        if self.state == WorkflowState::FamilySelect && index < self.product_families.len() {
            self.family_to_file = self.product_families[index].duplicate();
            self.state = WorkflowState::SubfamilySelect;
        }
    }

    /// Flips the filing choice of the active family's subfamily at `index`.
    pub fn toggle_subfamily(&mut self, index: usize)
        ensures
            final(self)@ == step(old(self)@, Action::ToggleSubfamily(index)),
    {
        if self.state == WorkflowState::SubfamilySelect && index
            < self.family_to_file.subfamilies.len() {
            let ghost before = self.family_to_file.subfamilies@;
            let flag = self.family_to_file.subfamilies[index].to_file;
            self.family_to_file.subfamilies[index].to_file = !flag;
            assert(subfamilies_view(self.family_to_file.subfamilies@) =~= subfamilies_view(
                before,
            ).update(index as int, flip_to_file(subfamilies_view(before)[index as int])));
        }
    }

    /// Appends copies of the chosen subfamilies of the active family to the
    /// filing list and moves on to document selection.
    pub fn confirm_subfamilies(&mut self)
        ensures
            final(self)@ == step(old(self)@, Action::ConfirmSubfamilies),
    {
        if self.state != WorkflowState::SubfamilySelect {
            return;
        }
        let ghost start = subfamilies_view(self.subfamilies_to_file@);
        let ghost subs = subfamilies_view(self.family_to_file.subfamilies@);
        let mut i: usize = 0;
        while i < self.family_to_file.subfamilies.len()
            invariant
                i <= self.family_to_file.subfamilies.len(),
                subs == subfamilies_view(self.family_to_file.subfamilies@),
                subfamilies_view(self.subfamilies_to_file@) == start + chosen(subs.take(i as int)),
                self.state == WorkflowState::SubfamilySelect,
                families_view(self.product_families@) == old(self)@.families,
                self.family_to_file@ == old(self)@.active,
                start == old(self)@.to_file,
            decreases self.family_to_file.subfamilies.len() - i,
        {
            assert(subs.take(i + 1).drop_last() =~= subs.take(i as int));
            if self.family_to_file.subfamilies[i].to_file {
                let copy = self.family_to_file.subfamilies[i].duplicate();
                let ghost before = self.subfamilies_to_file@;
                self.subfamilies_to_file.push(copy);
                assert(subfamilies_view(self.subfamilies_to_file@) =~= subfamilies_view(
                    before,
                ).push(copy@));
                assert(subfamilies_view(self.subfamilies_to_file@) =~= start + chosen(
                    subs.take(i + 1),
                ));
            }
            i = i + 1;
        }
        assert(subs.take(i as int) =~= subs);
        self.state = WorkflowState::DocumentSelect;
    }

    /// Flips "add" on document `document` of the filing list's subfamily
    /// `subfamily`.
    pub fn toggle_document_add(&mut self, subfamily: usize, document: usize)
        ensures
            final(self)@ == step(old(self)@, Action::ToggleDocumentAdd(subfamily, document)),
    {
        if self.state == WorkflowState::DocumentSelect && subfamily < self.subfamilies_to_file.len()
            && document < self.subfamilies_to_file[subfamily].documents.len() {
            let ghost before = self.subfamilies_to_file@;
            let ghost docs_before = self.subfamilies_to_file[subfamily as int].documents@;
            let flag = self.subfamilies_to_file[subfamily].documents[document].to_add;
            self.subfamilies_to_file[subfamily].documents[document].to_add = !flag;
            let ghost sub = subfamilies_view(before)[subfamily as int];
            assert(documents_view(self.subfamilies_to_file@[subfamily as int].documents@)
                =~= documents_view(docs_before).update(
                document as int,
                flip_to_add(documents_view(docs_before)[document as int]),
            ));
            assert(subfamilies_view(self.subfamilies_to_file@) =~= subfamilies_view(before).update(
                subfamily as int,
                SubFamilyV {
                    documents: sub.documents.update(
                        document as int,
                        flip_to_add(sub.documents[document as int]),
                    ),
                    ..sub
                },
            ));
        }
    }

    /// Steps back one stage. Leaving document selection empties the filing
    /// list; the active family's choices stay as they were.
    pub fn go_back(&mut self)
        ensures
            final(self)@ == step(old(self)@, Action::GoBack),
    {
        if self.state == WorkflowState::SubfamilySelect {
            self.state = WorkflowState::FamilySelect;
        } else if self.state == WorkflowState::DocumentSelect {
            self.subfamilies_to_file.clear();
            assert(subfamilies_view(self.subfamilies_to_file@) =~= seq![]);
            self.state = WorkflowState::SubfamilySelect;
        }
    }

    /// The documents of the filing list that the operator marked for
    /// adding: what a filing pass moves.
    pub fn marked_for_add(&self) -> (r: Vec<PathParts>)
        ensures
            paths_view(r@) == marked_paths(self@.to_file),
    {
        let ghost subs = subfamilies_view(self.subfamilies_to_file@);
        let mut out: Vec<PathParts> = Vec::new();
        let mut i: usize = 0;
        while i < self.subfamilies_to_file.len()
            invariant
                i <= self.subfamilies_to_file.len(),
                subs == subfamilies_view(self.subfamilies_to_file@),
                paths_view(out@) == marked_paths(subs.take(i as int)),
            decreases self.subfamilies_to_file.len() - i,
        {
            let sub = &self.subfamilies_to_file[i];
            let ghost docs = documents_view(sub.documents@);
            let ghost done = marked_paths(subs.take(i as int));
            assert(subs.take(i + 1).drop_last() =~= subs.take(i as int));
            assert(subs[i as int].documents == docs);
            let mut j: usize = 0;
            while j < sub.documents.len()
                invariant
                    j <= sub.documents.len(),
                    docs == documents_view(sub.documents@),
                    paths_view(out@) == done + marked_docs(docs.take(j as int)),
                decreases sub.documents.len() - j,
            {
                assert(docs.take(j + 1).drop_last() =~= docs.take(j as int));
                if sub.documents[j].to_add {
                    let ghost before = out@;
                    let p = copy_parts(&sub.documents[j].path);
                    out.push(p);
                    assert(paths_view(out@) =~= paths_view(before).push(parts_view(p@)));
                    assert(paths_view(out@) =~= done + marked_docs(docs.take(j + 1)));
                }
                j = j + 1;
            }
            assert(docs.take(j as int) =~= docs);
            i = i + 1;
        }
        assert(subs.take(i as int) =~= subs);
        out
    }

    /// Performs an operator action.
    pub fn apply(&mut self, action: Action)
        ensures
            final(self)@ == step(old(self)@, action),
    {
        match action {
            Action::SelectFamily(i) => self.select_family(i),
            Action::ToggleSubfamily(i) => self.toggle_subfamily(i),
            Action::ConfirmSubfamilies => self.confirm_subfamilies(),
            Action::ToggleDocumentAdd(s, d) => self.toggle_document_add(s, d),
            Action::GoBack => self.go_back(),
        }
    }
}

/// The workflow after the subfamily filing choices are flipped at each
/// index of `indices` in turn.
pub open spec fn toggle_all(w: WorkflowV, indices: Seq<usize>) -> WorkflowV
    decreases indices.len(),
{
    if indices.len() == 0 {
        w
    } else {
        step(toggle_all(w, indices.drop_last()), Action::ToggleSubfamily(indices.last()))
    }
}

/// Picking a family opens subfamily selection on a copy of that family,
/// with its subfamilies in view.
pub proof fn lemma_select_family_opens_subfamilies(w: WorkflowV, i: usize)
    requires
        w.state == WorkflowState::FamilySelect,
        i < w.families.len(),
    ensures
        step(w, Action::SelectFamily(i)).state == WorkflowState::SubfamilySelect,
        step(w, Action::SelectFamily(i)).active == w.families[i as int],
        step(w, Action::SelectFamily(i)).active.subfamilies == w.families[i as int].subfamilies,
{
}

proof fn lemma_chosen_two(s: Seq<SubFamilyV>, i: int, j: int, n: int)
    requires
        0 <= i < j < s.len(),
        0 <= n <= s.len(),
        forall|k: int| 0 <= k < s.len() ==> (#[trigger] s[k].to_file <==> (k == i || k == j)),
    ensures
        chosen(s.take(n)) == if n <= i {
            seq![]
        } else if n <= j {
            seq![s[i]]
        } else {
            seq![s[i], s[j]]
        },
    decreases n,
{
    if n > 0 {
        lemma_chosen_two(s, i, j, n - 1);
        assert(s.take(n).drop_last() =~= s.take(n - 1));
        if n - 1 == i {
            assert(seq![].push(s[i]) =~= seq![s[i]]);
        } else if n - 1 == j {
            assert(seq![s[i]].push(s[j]) =~= seq![s[i], s[j]]);
        }
    }
}

/// With nothing chosen and an empty filing list, choosing two subfamilies
/// and confirming opens document selection on exactly those two, in their
/// order.
pub proof fn lemma_confirm_two_subfamilies(w: WorkflowV, i: usize, j: usize)
    requires
        w.state == WorkflowState::SubfamilySelect,
        w.to_file.len() == 0,
        i < j < w.active.subfamilies.len(),
        forall|k: int| 0 <= k < w.active.subfamilies.len() ==> !(#[trigger] w.active.subfamilies[k]).to_file,
    ensures
        ({
            let w1 = step(step(w, Action::ToggleSubfamily(i)), Action::ToggleSubfamily(j));
            let w2 = step(w1, Action::ConfirmSubfamilies);
            &&& w2.state == WorkflowState::DocumentSelect
            &&& w2.to_file == seq![
                flip_to_file(w.active.subfamilies[i as int]),
                flip_to_file(w.active.subfamilies[j as int]),
            ]
        }),
{
    let w1 = step(step(w, Action::ToggleSubfamily(i)), Action::ToggleSubfamily(j));
    let s = w1.active.subfamilies;
    assert(s[i as int] == flip_to_file(w.active.subfamilies[i as int]));
    assert(forall|k: int| 0 <= k < s.len() ==> (#[trigger] s[k].to_file <==> (k == i || k == j)));
    lemma_chosen_two(s, i as int, j as int, s.len() as int);
    assert(s.take(s.len() as int) =~= s);
    assert(w.to_file + chosen(s) =~= chosen(s));
}

proof fn lemma_toggle_all_stays(w: WorkflowV, indices: Seq<usize>)
    requires
        w.state == WorkflowState::SubfamilySelect,
    ensures
        toggle_all(w, indices).state == WorkflowState::SubfamilySelect,
        toggle_all(w, indices).to_file == w.to_file,
    decreases indices.len(),
{
    if indices.len() > 0 {
        lemma_toggle_all_stays(w, indices.drop_last());
    }
}

/// Stepping back from document selection empties the filing list, so the
/// next confirmation, whatever choices were flipped in between, files
/// exactly the subfamilies chosen then: nothing from the earlier pass
/// remains or comes twice.
pub proof fn lemma_back_then_confirm_files_new_choice(w: WorkflowV, indices: Seq<usize>)
    requires
        w.state == WorkflowState::DocumentSelect,
    ensures
        step(w, Action::GoBack).to_file.len() == 0,
        step(w, Action::GoBack).active == w.active,
        ({
            let w1 = toggle_all(step(w, Action::GoBack), indices);
            let w2 = step(w1, Action::ConfirmSubfamilies);
            &&& w2.state == WorkflowState::DocumentSelect
            &&& w2.to_file == chosen(w1.active.subfamilies)
        }),
{
    let w0 = step(w, Action::GoBack);
    lemma_toggle_all_stays(w0, indices);
    let w1 = toggle_all(w0, indices);
    assert(w1.to_file + chosen(w1.active.subfamilies) =~= chosen(w1.active.subfamilies));
}

} // verus!
