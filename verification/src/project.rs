//! Opening a project from what was read back, and the settings a save
//! writes.

use vstd::prelude::*;
use crate::app::{App, ProjectSnapshot};
use crate::check::{is_forest, size_fits, times_valid};
use crate::forest::forest;
use crate::managed::{synced, times_ok, times_total};
use crate::mode::{ArrowFidelity, ArrowSettings, CanvasState, Mode};
use crate::models::{ArchiveNote, Node, StatusQuery};
use crate::persistence::{ProjectSettings, SavedArrows, ViewState};
use crate::store::{index_of_id, loaded_ok, rebuild_nodes, ref_pos, NodeRecord, TagRecord, TimeRecord};
use crate::text::eq_lit;

verus! {

/// The arrow fidelity a saved word stands for: "Selected", or the whole
/// tree for anything else.
pub open spec fn fidelity_of(word: Seq<char>) -> ArrowFidelity {
    if word == "Selected"@ {
        ArrowFidelity::Selected
    } else {
        ArrowFidelity::Tree
    }
}

/// The word saved for an arrow fidelity.
pub open spec fn fidelity_word(f: ArrowFidelity) -> Seq<char> {
    match f {
        ArrowFidelity::Tree => "Tree"@,
        ArrowFidelity::Selected => "Selected"@,
    }
}

/// Every state of a history is a forest.
pub open spec fn history_ok(h: Seq<Vec<Node>>) -> bool {
    forall|k: int| 0 <= k < h.len() ==> forest(#[trigger] h[k]@)
}

/// `b` is `a` with the project at `base` open, before its virtual time
/// nodes are built: the nodes `loaded`, the settings, queries and notes
/// read back, the selection at the saved node (the first node when it is
/// gone), the history as the undo stack when it was read and is sound (an
/// empty stack when it is not), and the canvas in front.
pub open spec fn opened(
    a: App,
    b: App,
    base: Seq<char>,
    settings: ProjectSettings,
    recs: Seq<NodeRecord>,
    loaded: Seq<Node>,
    queries: Seq<StatusQuery>,
    notes: Seq<ArchiveNote>,
    history: Option<Seq<Vec<Node>>>,
) -> bool {
    &&& b.nodes@ == loaded
    &&& b.queries@ == queries
    &&& b.notes@ == notes
    &&& b.camera_x == settings.view.camera_x
    &&& b.camera_y == settings.view.camera_y
    &&& b.cursor_x == settings.view.cursor_x
    &&& b.cursor_y == settings.view.cursor_y
    &&& b.show_note_previews == settings.view.show_note_previews
    &&& b.selected == match ref_pos(recs, Some(settings.view.selected_db_id)) {
        Some(k) => k,
        None => 0,
    }
    &&& b.arrow == (ArrowSettings {
        global: settings.arrows.global,
        incoming: fidelity_of(settings.arrows.incoming@),
        outgoing: fidelity_of(settings.arrows.outgoing@),
    })
    &&& b.project_path matches Some(p) && p@ == base
    &&& b.project_name == settings.name
    &&& b.project_created_at == settings.created_at
    &&& b.undo_stack@ == match history {
        Some(h) => if history_ok(h) { h } else { Seq::empty() },
        None => a.undo_stack@,
    }
    &&& b.status_message is None
    &&& b.mode == (Mode::Canvas { state: CanvasState::Browse })
    &&& b == (App {
        nodes: b.nodes,
        queries: b.queries,
        notes: b.notes,
        camera_x: b.camera_x,
        camera_y: b.camera_y,
        cursor_x: b.cursor_x,
        cursor_y: b.cursor_y,
        show_note_previews: b.show_note_previews,
        selected: b.selected,
        arrow: b.arrow,
        project_path: b.project_path,
        project_name: b.project_name,
        project_created_at: b.project_created_at,
        undo_stack: b.undo_stack,
        status_message: None,
        mode: b.mode,
        ..a
    })
}

/// The nodes read back can be worked on: a forest whose time tags are
/// well-formed and few enough.
pub open spec fn loadable(loaded: Seq<Node>) -> bool {
    &&& forest(loaded)
    &&& times_ok(loaded)
    &&& 2 * loaded.len() + times_total(loaded, loaded.len() as int) < usize::MAX
}

/// The arrow fidelity a saved word stands for.
fn fidelity(word: &String) -> (r: ArrowFidelity)
    ensures
        r == fidelity_of(word@),
{
    if eq_lit(word, "Selected") {
        ArrowFidelity::Selected
    } else {
        ArrowFidelity::Tree
    }
}

impl App {
    /// Open the project at `base` from what the host read back: its
    /// settings, its stored nodes, links, tags and time tags, its queries
    /// and notes, and its history when that could be read.  When the nodes
    /// do not form a sound forest the project stays closed and the status
    /// bar says so; otherwise the state is `opened` and the virtual time
    /// nodes are built.
    pub fn load_project(
        &mut self,
        base: String,
        settings: ProjectSettings,
        recs: &Vec<NodeRecord>,
        links: &Vec<(i64, i64)>,
        tags: &Vec<TagRecord>,
        times: &Vec<TimeRecord>,
        queries: Vec<StatusQuery>,
        notes: Vec<ArchiveNote>,
        history: Option<Vec<Vec<Node>>>,
    )
        requires
            old(self).wf(),
        ensures
            final(self).wf(),
            exists|loaded: Seq<Node>|
                #![trigger loadable(loaded)]
                {
                    &&& loaded.len() == recs@.len()
                    &&& forall|i: int| 0 <= i < recs@.len() ==> #[trigger] loaded_ok(loaded[i], recs@, links@, tags@, times@, i)
                    &&& if loadable(loaded) {
                        exists|b: App, mid: Seq<Node>, gone: Set<usize>|
                            #![trigger synced(b, mid, gone, *final(self))]
                            opened(*old(self), b, base@, settings, recs@, loaded, queries@, notes@, match history {
                                Some(h) => Some(h@),
                                None => None,
                            }) && synced(b, mid, gone, *final(self))
                    } else {
                        &&& final(self).status_message matches Some(m) && m@ == "load error: the stored nodes are inconsistent"@
                        &&& *final(self) == (App { status_message: final(self).status_message, ..*old(self) })
                    }
                },
    {
        let nodes = rebuild_nodes(recs, links, tags, times);
        let ghost loaded = nodes@;
        if !is_forest(&nodes) || !times_valid(&nodes) || !size_fits(&nodes) {
            self.status_message = Some(String::from_str("load error: the stored nodes are inconsistent"));
            proof {
                assert(!loadable(loaded));
            }
            return;
        }
        let selected = match index_of_id(recs, settings.view.selected_db_id) {
            Some(k) => k,
            None => 0,
        };
        let incoming = fidelity(&settings.arrows.incoming);
        let outgoing = fidelity(&settings.arrows.outgoing);
        let ghost a = *self;
        self.nodes = nodes;
        self.queries = queries;
        self.notes = notes;
        self.camera_x = settings.view.camera_x;
        self.camera_y = settings.view.camera_y;
        self.cursor_x = settings.view.cursor_x;
        self.cursor_y = settings.view.cursor_y;
        self.show_note_previews = settings.view.show_note_previews;
        self.selected = selected;
        self.arrow = ArrowSettings { global: settings.arrows.global, incoming, outgoing };
        self.project_path = Some(base);
        self.project_name = settings.name;
        self.project_created_at = settings.created_at;
        match history {
            Some(h) => {
                let mut ok = true;
                let mut k: usize = 0;
                while ok && k < h.len()
                    invariant
                        k <= h@.len(),
                        ok ==> forall|q: int| 0 <= q < k ==> forest(#[trigger] h@[q]@),
                        !ok ==> !history_ok(h@),
                    decreases h@.len() - k, if ok { 1int } else { 0int },
                {
                    if !is_forest(&h[k]) {
                        ok = false;
                    } else {
                        k = k + 1;
                    }
                }
                if ok {
                    self.undo_stack = h;
                } else {
                    self.undo_stack = Vec::new();
                }
            },
            None => {},
        }
        self.status_message = None;
        self.mode = Mode::Canvas { state: CanvasState::Browse };
        let ghost b = *self;
        proof {
            assert(forall|i: int| 0 <= i < loaded.len() ==> (#[trigger] loaded[i]).managed is None) by {
                assert forall|i: int| 0 <= i < loaded.len() implies (#[trigger] loaded[i]).managed is None by {
                    assert(loaded_ok(loaded[i], recs@, links@, tags@, times@, i));
                }
            }
            assert(opened(a, b, base@, settings, recs@, loaded, queries@, notes@, match history {
                Some(h) => Some(h@),
                None => None,
            }));
        }
        self.sync_managed_nodes();
        proof {
            let (mid, gone) = choose|mid: Seq<Node>, gone: Set<usize>| #[trigger] synced(b, mid, gone, *self);
            assert(synced(b, mid, gone, *self));
            assert(loadable(loaded));
        }
    }
}

impl ProjectSnapshot {
    /// The settings a save writes for this snapshot, with the stored id of
    /// the selected node.
    pub fn settings(&self, selected_db_id: i64) -> (r: ProjectSettings)
        ensures
            r.name@ == self.name@,
            r.created_at == self.created_at,
            r.view == (ViewState {
                camera_x: self.camera_x,
                camera_y: self.camera_y,
                cursor_x: self.cursor_x,
                cursor_y: self.cursor_y,
                selected_db_id,
                show_note_previews: self.show_note_previews,
            }),
            r.arrows.global == self.arrows.global,
            r.arrows.incoming@ == fidelity_word(self.arrows.incoming),
            r.arrows.outgoing@ == fidelity_word(self.arrows.outgoing),
    {
        let word_in = match self.arrows.incoming {
            ArrowFidelity::Tree => String::from_str("Tree"),
            ArrowFidelity::Selected => String::from_str("Selected"),
        };
        let word_out = match self.arrows.outgoing {
            ArrowFidelity::Tree => String::from_str("Tree"),
            ArrowFidelity::Selected => String::from_str("Selected"),
        };
        ProjectSettings {
            name: self.name.clone(),
            created_at: self.created_at,
            view: ViewState {
                camera_x: self.camera_x,
                camera_y: self.camera_y,
                cursor_x: self.cursor_x,
                cursor_y: self.cursor_y,
                selected_db_id,
                show_note_previews: self.show_note_previews,
            },
            arrows: SavedArrows { global: self.arrows.global, incoming: word_in, outgoing: word_out },
        }
    }
}

} // verus!
