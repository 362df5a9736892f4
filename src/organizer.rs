//! Decides, entry by entry, what becomes of the children of the directory
//! being organized, and counts the files it sends away.

use vstd::prelude::*;
use crate::category::{category_of_extension_bytes, extension_bytes_category, no_extension};
use crate::extension::{extension_of, spec_extension};

verus! {

/// A child of some directory, as the caller saw it when listing.
pub struct Entry {
    /// The bytes of the entry's file name.
    pub name: Vec<u8>,
    /// The entry's parent directory, as path components relative to the root
    /// being organized: empty for a child of the root itself.
    pub parent: Vec<String>,
    /// Whether the entry is a directory.
    pub is_dir: bool,
}

/// What the contracts know of an `Entry`.
pub ghost struct EntryView {
    pub name: Seq<u8>,
    pub parent: Seq<Seq<char>>,
    pub is_dir: bool,
}

/// The text of each path component.
pub open spec fn components_view(cs: Seq<String>) -> Seq<Seq<char>> {
    cs.map_values(|c: String| c@)
}

impl View for Entry {
    type V = EntryView;

    open spec fn view(&self) -> EntryView {
        EntryView {
            name: self.name@,
            parent: components_view(self.parent@),
            is_dir: self.is_dir,
        }
    }
}

/// What to do with one entry.
#[derive(Debug)]
pub enum Action {
    /// A directory: it is neither classified nor moved.
    SkipDirectory,
    /// A file that already sits in its category directory.
    SkipOrganized,
    /// A file to move into the directory `root / category`, created first
    /// where it is missing, under the same file name.
    Move { category: String },
}

/// What the contracts know of an `Action`.
pub ghost enum ActionView {
    SkipDirectory,
    SkipOrganized,
    Move { category: Seq<char> },
}

impl View for Action {
    type V = ActionView;

    open spec fn view(&self) -> ActionView {
        match self {
            Action::SkipDirectory => ActionView::SkipDirectory,
            Action::SkipOrganized => ActionView::SkipOrganized,
            Action::Move { category } => ActionView::Move { category: category@ },
        }
    }
}

/// Why a run stops.
#[derive(Debug, Clone, Copy, PartialEq, Eq, Structural)]
pub enum OrganizeError {
    /// A file's extension is not UTF-8 text.
    ExtensionNotText,
}

/// The category of a file with name `name`, or `None` when its extension is
/// not text.
pub open spec fn name_category(name: Seq<u8>) -> Option<Seq<char>> {
    match spec_extension(name) {
        None => Some(no_extension()),
        Some(ext) => extension_bytes_category(ext),
    }
}

/// What becomes of a file under parent `parent` whose category is `category`.
pub open spec fn placement(parent: Seq<Seq<char>>, category: Seq<char>) -> ActionView {
    if parent == seq![category] {
        ActionView::SkipOrganized
    } else {
        ActionView::Move { category }
    }
}

/// The decision on one entry.
pub open spec fn decision(e: EntryView) -> Result<ActionView, OrganizeError> {
    if e.is_dir {
        Ok(ActionView::SkipDirectory)
    } else {
        match name_category(e.name) {
            None => Err(OrganizeError::ExtensionNotText),
            Some(c) => Ok(placement(e.parent, c)),
        }
    }
}

/// Whether the decision on `e` is to move it.
pub open spec fn moves_entry(e: EntryView) -> bool {
    decision(e) matches Ok(ActionView::Move { .. })
}

/// The number of entries of `es` that are moved.
pub open spec fn moved_count(es: Seq<EntryView>) -> nat
    decreases es.len(),
{
    if es.len() == 0 {
        0
    } else {
        moved_count(es.drop_last()) + if moves_entry(es.last()) {
            1nat
        } else {
            0nat
        }
    }
}

/// Whether every entry of `es` can be decided on.
pub open spec fn all_decided(es: Seq<EntryView>) -> bool {
    forall|i: int| 0 <= i < es.len() ==> (#[trigger] decision(es[i])) is Ok
}

/// The view of a sequence of entries.
pub open spec fn entries_view(es: Seq<Entry>) -> Seq<EntryView> {
    es.map_values(|e: Entry| e@)
}

/// What becomes of a file under `parent` whose category is `category`.
pub fn action_for(parent: &Vec<String>, category: String) -> (r: Action)
    ensures
        r@ == placement(components_view(parent@), category@),
{
    let ghost p = components_view(parent@);
    if parent.len() == 1 && parent[0] == category {
        assert(p =~= seq![category@]);
        Action::SkipOrganized
    } else {
        assert(p != seq![category@]) by {
            if p == seq![category@] {
                assert(p.len() == 1);
                assert(parent@.len() == 1);
                assert(p[0] == parent@[0]@);
                assert(p[0] == category@);
            }
        }
        Action::Move { category }
    }
}

/// Decides on one entry: directories are skipped; a file goes to the
/// category of its extension, unless it already sits there; a file whose
/// extension is not text stops the run.
pub fn decide(entry: &Entry) -> (r: Result<Action, OrganizeError>)
    ensures
        match r {
            Ok(a) => decision(entry@) == Ok::<ActionView, OrganizeError>(a@),
            Err(x) => decision(entry@) == Err::<ActionView, OrganizeError>(x),
        },
{
    if entry.is_dir {
        return Ok(Action::SkipDirectory);
    }
    let category = match extension_of(entry.name.as_slice()) {
        None => String::from_str("No Extension"),
        Some(ext) => match category_of_extension_bytes(ext.as_slice()) {
            Some(c) => c,
            None => return Err(OrganizeError::ExtensionNotText),
        },
    };
    Ok(action_for(&entry.parent, category))
}

/// The state of one run: how many files it has sent to their category so far.
pub struct Organizer {
    processed: usize,
}

impl Organizer {
    /// The number of files moved so far.
    pub closed spec fn count(&self) -> nat {
        self.processed as nat
    }

    /// A run that has not looked at any entry yet.
    pub fn new() -> (r: Organizer)
        ensures
            r.count() == 0,
    {
        Organizer { processed: 0 }
    }

    /// The number of files moved so far.
    pub fn processed(&self) -> (r: usize)
        ensures
            r == self.count(),
    {
        self.processed
    }

    /// Decides on the next entry of the listing and counts it when it is to
    /// be moved. The caller performs the move; on an error it stops the run.
    pub fn step(&mut self, entry: &Entry) -> (r: Result<Action, OrganizeError>)
        requires
            old(self).count() < usize::MAX,
        ensures
            match r {
                Ok(a) => decision(entry@) == Ok::<ActionView, OrganizeError>(a@),
                Err(x) => decision(entry@) == Err::<ActionView, OrganizeError>(x),
            },
            final(self).count() == old(self).count() + if moves_entry(entry@) {
                1nat
            } else {
                0nat
            },
    {
        let r = decide(entry);
        if let Ok(Action::Move { .. }) = &r {
            self.processed = self.processed + 1;
        }
        r
    }
}

/// The decisions of a whole run and the number of files it moves.
pub struct RunReport {
    /// The action for each entry, in the order of the listing.
    pub actions: Vec<Action>,
    /// The number of files moved.
    pub processed: usize,
}

/// The run over a whole listing: one action per entry, in order, and the
/// number of files moved; or the error of the first entry that cannot be
/// decided on.
pub fn organize(entries: &Vec<Entry>) -> (r: Result<RunReport, OrganizeError>)
    ensures
        r is Ok <==> all_decided(entries_view(entries@)),
        r matches Ok(rep) ==> {
            &&& rep.actions@.len() == entries@.len()
            &&& forall|i: int|
                0 <= i < entries@.len() ==> decision(entries@[i]@) == Ok::<
                    ActionView,
                    OrganizeError,
                >(#[trigger] rep.actions@[i]@)
            &&& rep.processed == moved_count(entries_view(entries@))
        },
        r matches Err(x) ==> x == OrganizeError::ExtensionNotText,
{
    let ghost es = entries_view(entries@);
    let mut actions: Vec<Action> = Vec::new();
    let mut run = Organizer::new();
    let mut i: usize = 0;
    while i < entries.len()
        invariant
            i <= entries@.len(),
            es == entries_view(entries@),
            actions@.len() == i,
            forall|j: int|
                0 <= j < i ==> decision(entries@[j]@) == Ok::<ActionView, OrganizeError>(
                    #[trigger] actions@[j]@,
                ),
            run.count() == moved_count(es.subrange(0, i as int)),
            run.count() <= i,
        decreases entries@.len() - i,
    {
        proof {
            let pre = es.subrange(0, i as int + 1);
            assert(pre.drop_last() =~= es.subrange(0, i as int));
            assert(pre.last() == entries@[i as int]@);
        }
        match run.step(&entries[i]) {
            Ok(a) => actions.push(a),
            Err(x) => {
                assert(!all_decided(es)) by {
                    assert(decision(es[i as int]) is Err);
                }
                return Err(x);
            },
        }
        i = i + 1;
    }
    assert(es.subrange(0, i as int) =~= es);
    assert(all_decided(es)) by {
        assert forall|j: int| 0 <= j < es.len() implies (#[trigger] decision(es[j])) is Ok by {
            assert(decision(entries@[j]@) == Ok::<ActionView, OrganizeError>(actions@[j]@));
        }
    }
    Ok(RunReport { actions, processed: run.processed() })
}

} // verus!
