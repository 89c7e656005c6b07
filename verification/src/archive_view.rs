//! The archive page: which note is shown and whether its title or content
//! is being edited, the lines of the note list, and the references of the
//! shown note marked by whether a node of that name exists.

use vstd::prelude::*;
use crate::app::App;
use crate::archive::{find_label, find_references, label_pos, refs_in, words};
use crate::mode::{ArchiveState, Mode};
use crate::models::ArchiveNote;

verus! {

/// The note shown on the archive page and whether its title or its content
/// is being edited; the first note, not edited, outside the archive.
pub open spec fn archive_focus_of(mode: Mode) -> (usize, bool, bool) {
    match mode {
        Mode::ArchivePage { state, .. } => match state {
            ArchiveState::BrowseList { selected } => (selected, false, false),
            ArchiveState::EditTitle { idx, .. } => (idx, true, false),
            ArchiveState::EditContent { idx, .. } => (idx, false, true),
        },
        _ => (0, false, false),
    }
}

/// The note shown and what of it is edited (see `archive_focus_of`).
pub fn archive_focus(mode: &Mode) -> (r: (usize, bool, bool))
    ensures
        r == archive_focus_of(*mode),
{
    match mode {
        Mode::ArchivePage { state, .. } => match state {
            ArchiveState::BrowseList { selected } => (*selected, false, false),
            ArchiveState::EditTitle { idx, .. } => (*idx, true, false),
            ArchiveState::EditContent { idx, .. } => (*idx, false, true),
        },
        _ => (0, false, false),
    }
}

/// The line of the note list for `note`: "> " before the shown one.
pub open spec fn note_item_of(note: ArchiveNote, shown: bool) -> Seq<char> {
    (if shown { "> "@ } else { "  "@ }) + note.title@
}

/// The lines of the note list, the note at `selected` marked.
pub fn note_items(notes: &Vec<ArchiveNote>, selected: usize) -> (r: Vec<String>)
    ensures
        r@.len() == notes@.len(),
        forall|i: int| 0 <= i < notes@.len() ==> #[trigger] r@[i]@ == note_item_of(notes@[i], i == selected),
{
    let mut r: Vec<String> = Vec::new();
    let mut i: usize = 0;
    while i < notes.len()
        invariant
            i <= notes@.len(),
            r@.len() == i,
            forall|j: int| 0 <= j < i ==> #[trigger] r@[j]@ == note_item_of(notes@[j], j == selected),
        decreases notes@.len() - i,
    {
        let mut s = if i == selected { String::from_str("> ") } else { String::from_str("  ") };
        s.append(notes[i].title.as_str());
        r.push(s);
        i = i + 1;
    }
    r
}

impl App {
    /// The node names that `content` refers to with "@name", in order, each
    /// with whether some node carries that label.
    pub fn reference_marks(&self, content: &str) -> (r: Vec<(String, bool)>)
        ensures
            r@.len() == refs_in(words(content@)).len(),
            forall|i: int| 0 <= i < r@.len() ==> {
                &&& (#[trigger] r@[i]).0@ == refs_in(words(content@))[i]
                &&& r@[i].1 == (label_pos(self.nodes@, r@[i].0@) is Some)
            },
    {
        let refs = find_references(content);
        let ghost rv = refs_in(words(content@));
        let mut r: Vec<(String, bool)> = Vec::new();
        let mut i: usize = 0;
        while i < refs.len()
            invariant
                i <= refs@.len(),
                refs@.map_values(|w: String| w@) == rv,
                r@.len() == i,
                forall|j: int| 0 <= j < i ==> {
                    &&& (#[trigger] r@[j]).0@ == rv[j]
                    &&& r@[j].1 == (label_pos(self.nodes@, r@[j].0@) is Some)
                },
            decreases refs@.len() - i,
        {
            let name = refs[i].clone();
            proof {
                assert(rv[i as int] == refs@[i as int]@);
            }
            let found = find_label(&self.nodes, name.as_str()).is_some();
            r.push((name, found));
            i = i + 1;
        }
        r
    }
}

} // verus!
