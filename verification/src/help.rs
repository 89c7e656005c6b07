//! The help tree: a read-only canvas listing the commands, shown in place of
//! the current nodes and taken away again.

use vstd::prelude::*;
use crate::app::App;
use crate::forest::{children_ok, forest, links_ok, parents_ok, ranked};
use crate::layout::layout_of;
use crate::menu::{index_run, is_main_menu};
use crate::mode::{CanvasState, Mode};
use crate::models::Node;
use crate::ops::{says, undone, undo_pushed};

verus! {

/// The number of entries of the help tree.
pub open spec fn help_len() -> nat {
    27
}

/// The text of help entry `k`.
pub open spec fn help_label(k: int) -> Seq<char> {
    if k == 0 { "HELP: Commands & Shortcuts"@ }
    else if k == 1 { "Navigation"@ }
    else if k == 2 { "hjkl / Arrows : Move cursor"@ }
    else if k == 3 { "HJKL (Shift)  : Cardinal warp (jump to next node)"@ }
    else if k == 4 { "Tab / S-Tab   : Cycle through outgoing links"@ }
    else if k == 5 { "c             : Center camera on selection"@ }
    else if k == 6 { "g             : Goto (fuzzy search nodes)"@ }
    else if k == 7 { "Operations"@ }
    else if k == 8 { "i             : Insert new child"@ }
    else if k == 9 { "n             : New root node at cursor"@ }
    else if k == 10 { "e             : Edit label (append)"@ }
    else if k == 11 { "E (Shift)     : Edit label (overwrite)"@ }
    else if k == 12 { "x             : Delete node and subtree"@ }
    else if k == 13 { "p             : Pick / Place node (hjkl to move)"@ }
    else if k == 14 { "v             : Interactive Reparent"@ }
    else if k == 15 { "f             : Link (toggle connection)"@ }
    else if k == 16 { "u             : Undo last action"@ }
    else if k == 17 { "Structure"@ }
    else if k == 18 { "d             : Increase depth (nest)"@ }
    else if k == 19 { "D (Shift)     : Decrease depth (promote)"@ }
    else if k == 20 { "z / Space     : Toggle collapse subtree"@ }
    else if k == 21 { "F (Shift)     : Arrow display settings"@ }
    else if k == 22 { "System"@ }
    else if k == 23 { "q             : Return to Main Menu"@ }
    else if k == 24 { "Q (Shift)     : Save and Quit Filament"@ }
    else if k == 25 { "?             : Toggle this help tree"@ }
    else { "Esc           : Cancel / Close modal"@ }
}

/// The parent of help entry `k`: the root holds the four sections, each
/// section its commands.
pub open spec fn help_parent(k: int) -> Option<usize> {
    if k == 0 {
        None
    } else if k == 1 || k == 7 || k == 17 || k == 22 {
        Some(0)
    } else if k < 7 {
        Some(1)
    } else if k < 17 {
        Some(7)
    } else if k < 22 {
        Some(17)
    } else {
        Some(22)
    }
}

/// The children of help entry `k`.
pub open spec fn help_children(k: int) -> Seq<usize> {
    if k == 0 {
        seq![1usize, 7usize, 17usize, 22usize]
    } else if k == 1 {
        index_run(2, 5)
    } else if k == 7 {
        index_run(8, 9)
    } else if k == 17 {
        index_run(18, 4)
    } else if k == 22 {
        index_run(23, 4)
    } else {
        Seq::empty()
    }
}

/// Entry `k` of the help tree, its root drawn at (`cx`, `cy`), is in place
/// in `n`; the layout of the other entries is left to the next layout pass.
pub open spec fn help_node_ok(n: Node, k: int, cx: i32, cy: i32) -> bool {
    &&& n.label@ == help_label(k)
    &&& n.parent == help_parent(k)
    &&& n.children@ == help_children(k)
    &&& n.links@.len() == 0
    &&& !n.collapsed
    &&& n.row == usize::MAX
    &&& n.world_x == (if k == 0 { cx } else { 0 })
    &&& n.world_y == (if k == 0 { cy } else { 0 })
    &&& n.world_x_end == 0
    &&& n.tags@.len() == 0
    &&& n.times@.len() == 0
    &&& !n.is_managed_note
    &&& n.managed is None
}

/// `nodes` is the help tree with its root at (`cx`, `cy`).
pub open spec fn is_help_tree(nodes: Seq<Node>, cx: i32, cy: i32) -> bool {
    &&& nodes.len() == help_len()
    &&& forall|k: int| #![trigger nodes[k]] 0 <= k < nodes.len() ==> help_node_ok(nodes[k], k, cx, cy)
}

/// The help tree is a forest.
pub proof fn lemma_help_forest(nodes: Seq<Node>, cx: i32, cy: i32)
    requires
        is_help_tree(nodes, cx, cy),
    ensures
        forest(nodes),
{
    assert forall|c: int|
        #![trigger nodes[c].parent]
        0 <= c < nodes.len() && nodes[c].parent is Some implies {
            &&& (nodes[c].parent->0 as int) < nodes.len()
            &&& nodes[nodes[c].parent->0 as int].children@.contains(c as usize)
        } by {
        let q = nodes[c].parent->0 as int;
        assert(help_node_ok(nodes[c], c, cx, cy));
        assert(help_node_ok(nodes[q], q, cx, cy));
        let cs = nodes[q].children@;
        if q == 0 {
            if c == 1 { assert(cs[0] == 1); } else if c == 7 { assert(cs[1] == 7); } else if c == 17 { assert(cs[2] == 17); } else { assert(cs[3] == 22); }
        } else if q == 1 {
            assert(cs[c - 2] == c as usize);
        } else if q == 7 {
            assert(cs[c - 8] == c as usize);
        } else if q == 17 {
            assert(cs[c - 18] == c as usize);
        } else {
            assert(cs[c - 23] == c as usize);
        }
    }
    assert(parents_ok(nodes));
    assert forall|q: int|
        #![trigger nodes[q].children]
        0 <= q < nodes.len() implies {
            &&& nodes[q].children@.no_duplicates()
            &&& forall|j: int|
                #![trigger nodes[q].children@[j]]
                0 <= j < nodes[q].children@.len() ==> {
                    &&& (nodes[q].children@[j] as int) < nodes.len()
                    &&& nodes[nodes[q].children@[j] as int].parent == Some(q as usize)
                }
        } by {
        assert(help_node_ok(nodes[q], q, cx, cy));
        let cs = nodes[q].children@;
        assert forall|a: int, b: int| 0 <= a < cs.len() && 0 <= b < cs.len() && a != b implies cs[a] != cs[b] by {
        }
        assert forall|j: int|
            #![trigger nodes[q].children@[j]]
            0 <= j < nodes[q].children@.len() implies {
                &&& (nodes[q].children@[j] as int) < nodes.len()
                &&& nodes[nodes[q].children@[j] as int].parent == Some(q as usize)
            } by {
            let c = cs[j] as int;
            assert(help_node_ok(nodes[c], c, cx, cy));
        }
    }
    assert(children_ok(nodes));
    assert forall|i: int, k: int|
        #![trigger nodes[i].links@[k]]
        0 <= i < nodes.len() && 0 <= k < nodes[i].links@.len() implies (nodes[i].links@[k] as int) < nodes.len() by {
        assert(help_node_ok(nodes[i], i, cx, cy));
    }
    assert(links_ok(nodes));
    let rank = Seq::new(nodes.len(), |k: int| if k == 0 { 0nat } else if k == 1 || k == 7 || k == 17 || k == 22 { 1nat } else { 2nat });
    assert forall|c: int|
        #![trigger nodes[c].parent]
        0 <= c < nodes.len() && nodes[c].parent is Some implies rank[nodes[c].parent->0 as int] < rank[c] by {
        assert(help_node_ok(nodes[c], c, cx, cy));
    }
    assert(ranked(nodes, rank));
}

/// The text of help entry `k`.
fn help_text(k: usize) -> (r: &'static str)
    ensures
        r@ == help_label(k as int),
{
    if k == 0 { "HELP: Commands & Shortcuts" }
    else if k == 1 { "Navigation" }
    else if k == 2 { "hjkl / Arrows : Move cursor" }
    else if k == 3 { "HJKL (Shift)  : Cardinal warp (jump to next node)" }
    else if k == 4 { "Tab / S-Tab   : Cycle through outgoing links" }
    else if k == 5 { "c             : Center camera on selection" }
    else if k == 6 { "g             : Goto (fuzzy search nodes)" }
    else if k == 7 { "Operations" }
    else if k == 8 { "i             : Insert new child" }
    else if k == 9 { "n             : New root node at cursor" }
    else if k == 10 { "e             : Edit label (append)" }
    else if k == 11 { "E (Shift)     : Edit label (overwrite)" }
    else if k == 12 { "x             : Delete node and subtree" }
    else if k == 13 { "p             : Pick / Place node (hjkl to move)" }
    else if k == 14 { "v             : Interactive Reparent" }
    else if k == 15 { "f             : Link (toggle connection)" }
    else if k == 16 { "u             : Undo last action" }
    else if k == 17 { "Structure" }
    else if k == 18 { "d             : Increase depth (nest)" }
    else if k == 19 { "D (Shift)     : Decrease depth (promote)" }
    else if k == 20 { "z / Space     : Toggle collapse subtree" }
    else if k == 21 { "F (Shift)     : Arrow display settings" }
    else if k == 22 { "System" }
    else if k == 23 { "q             : Return to Main Menu" }
    else if k == 24 { "Q (Shift)     : Save and Quit Filament" }
    else if k == 25 { "?             : Toggle this help tree" }
    else { "Esc           : Cancel / Close modal" }
}

/// The children of help entry `k`.
fn help_kids(k: usize) -> (r: Vec<usize>)
    ensures
        r@ == help_children(k as int),
{
    if k == 0 {
        let v = vec![1usize, 7usize, 17usize, 22usize];
        proof {
            assert(v@ =~= seq![1usize, 7usize, 17usize, 22usize]);
        }
        v
    } else if k == 1 {
        crate::menu::index_vec(2, 5)
    } else if k == 7 {
        crate::menu::index_vec(8, 9)
    } else if k == 17 {
        crate::menu::index_vec(18, 4)
    } else if k == 22 {
        crate::menu::index_vec(23, 4)
    } else {
        Vec::new()
    }
}

/// The parent of help entry `k`.
fn help_up(k: usize) -> (r: Option<usize>)
    ensures
        r == help_parent(k as int),
{
    if k == 0 {
        None
    } else if k == 1 || k == 7 || k == 17 || k == 22 {
        Some(0)
    } else if k < 7 {
        Some(1)
    } else if k < 17 {
        Some(7)
    } else if k < 22 {
        Some(17)
    } else {
        Some(22)
    }
}

/// The help tree with its root at (`cx`, `cy`).
pub fn help_tree(cx: i32, cy: i32) -> (nodes: Vec<Node>)
    ensures
        is_help_tree(nodes@, cx, cy),
{
    let mut nodes: Vec<Node> = Vec::new();
    let mut k: usize = 0;
    while k < 27
        invariant
            k <= 27,
            nodes@.len() == k,
            forall|j: int| #![trigger nodes@[j]] 0 <= j < k ==> help_node_ok(nodes@[j], j, cx, cy),
        decreases 27 - k,
    {
        let n = Node {
            label: String::from_str(help_text(k)),
            parent: help_up(k),
            children: help_kids(k),
            links: Vec::new(),
            collapsed: false,
            row: usize::MAX,
            world_x: if k == 0 { cx } else { 0 },
            world_y: if k == 0 { cy } else { 0 },
            world_x_end: 0,
            tags: Vec::new(),
            times: Vec::new(),
            is_managed_note: false,
            managed: None,
        };
        let ghost before = nodes@;
        nodes.push(n);
        proof {
            assert forall|j: int| #![trigger nodes@[j]] 0 <= j < k implies nodes@[j] == before[j] by {}
        }
        k = k + 1;
    }
    nodes
}

/// Where the help tree's root goes on a terminal of the given size (80 by
/// 24 when it is unknown): a 50 by 25 block centred, kept at non-negative
/// coordinates.
pub fn help_origin(size: Option<(u16, u16)>) -> (r: (i32, i32))
    ensures
        ({
            let (tw, th) = match size {
                Some(s) => s,
                None => (80u16, 24u16),
            };
            &&& r.0 == (if tw >= 50 { (tw - 50) / 2 } else { 0 })
            &&& r.1 == (if th >= 25 { (th - 25) / 2 } else { 0 })
        }),
{
    let (tw, th) = match size {
        Some(s) => s,
        None => (80u16, 24u16),
    };
    let cx: i32 = if tw >= 50 { (tw as i32 - 50) / 2 } else { 0 };
    let cy: i32 = if th >= 25 { (th as i32 - 25) / 2 } else { 0 };
    (cx, cy)
}

/// `crossterm::terminal::size`: the columns and rows of the terminal, when
/// they can be read.
#[verifier::external_body]
fn terminal_size() -> (r: Option<(u16, u16)>) {
    crossterm::terminal::size().ok()
}

/// `b` is `a` showing the help tree: the mode of `a` kept to come back to,
/// the nodes of an open project pushed for undo, the tree's root (selected,
/// under the cursor) at (`cx`, `cy`) and the camera at the origin.
pub open spec fn help_opened(a: App, b: App) -> bool {
    exists|pushed: App, cx: i32, cy: i32|
        #![trigger is_help_tree(b.nodes@, cx, cy), pushed.undo_stack]
        {
            &&& (a.project_path is None ==> pushed == a)
            &&& (a.project_path is Some ==> undo_pushed(a, pushed))
            &&& 0 <= cx <= 32767
            &&& 0 <= cy <= 32767
            &&& is_help_tree(b.nodes@, cx, cy)
            &&& b == (App {
                nodes: b.nodes,
                help_previous_mode: Some(a.mode),
                mode: Mode::Help,
                selected: 0,
                cursor_x: cx,
                cursor_y: cy,
                camera_x: 0,
                camera_y: 0,
                ..pushed
            })
        }
}

impl App {
    /// What `canvas_start_help` does: `post` is `pre` after it.
    pub open spec fn canvas_start_help_done(pre: App, post: App) -> bool {
        &&& post.wf()
        &&& post.help_previous_mode == Some(pre.mode)
        &&& post.mode == Mode::Help
        &&& post.selected == 0
        &&& post.camera_x == 0
        &&& post.camera_y == 0
        &&& help_opened(pre, post)
    }

    /// Show the help tree in place of the nodes: the current mode is kept
    /// to come back to, the nodes of an open project are pushed for undo,
    /// and the tree's root (selected, under the cursor) is centred on the
    /// terminal with the camera at the origin.
    pub fn canvas_start_help(&mut self)
        requires
            old(self).wf(),
        ensures
            Self::canvas_start_help_done(*old(self), *final(self)),
    {
        self.push_undo();
        let ghost pushed = *self;
        let (cx, cy) = help_origin(terminal_size());
        let nodes = help_tree(cx, cy);
        proof {
            lemma_help_forest(nodes@, cx, cy);
        }
        self.nodes = nodes;
        self.selected = 0;
        self.cursor_x = cx;
        self.cursor_y = cy;
        self.camera_x = 0;
        self.camera_y = 0;
        let mut prev = Mode::Help;
        std::mem::swap(&mut prev, &mut self.mode);
        self.help_previous_mode = Some(prev);
        proof {
            assert(is_help_tree(self.nodes@, cx, cy));
        }
    }
}

impl App {
    /// What `canvas_close_help` does: `post` is `pre` after it.
    pub open spec fn canvas_close_help_done(pre: App, post: App) -> bool {
        &&& post.wf()
        &&& ({
                let back = match pre.help_previous_mode {
                    Some(m) => m,
                    None => Mode::Canvas { state: CanvasState::Browse },
                };
                let a = App { help_previous_mode: None, ..pre };
                if pre.help_previous_mode matches Some(Mode::StartMenu { .. }) {
                    &&& is_main_menu(post.nodes@, pre.registry.projects@, pre.settings, pre.themes@, pre.palette@)
                    &&& post == (App { nodes: post.nodes, mode: back, ..a })
                } else if pre.undo_stack@.len() == 0 {
                    &&& says(post.status_message, "Nothing to undo"@)
                    &&& post == (App { status_message: post.status_message, mode: back, ..a })
                } else {
                    exists|u: App| #[trigger] undone(a, u) && post == (App { mode: back, ..u })
                }
            })
    }

    /// Take the help tree away: coming from the start menu the menu is
    /// rebuilt, otherwise the nodes come back with an undo; then the mode
    /// from before the help (the canvas when none was kept) returns.
    pub fn canvas_close_help(&mut self)
        requires
            old(self).wf(),
            old(self).registry.projects@.len() + old(self).themes@.len() + 9 <= i32::MAX,
        ensures
            Self::canvas_close_help_done(*old(self), *final(self)),
    {
        let mut prev: Option<Mode> = None;
        std::mem::swap(&mut prev, &mut self.help_previous_mode);
        let to_menu = match &prev {
            Some(Mode::StartMenu { .. }) => true,
            _ => false,
        };
        let ghost a = *self;
        if to_menu {
            self.init_main_menu_nodes();
        } else {
            self.undo();
            proof {
                if a.undo_stack@.len() > 0 {
                    assert(undone(a, *self));
                }
            }
        }
        self.mode = match prev {
            Some(m) => m,
            None => Mode::Canvas { state: CanvasState::Browse },
        };
    }
}


/// Opening the help page and closing it again, in an open project whose
/// undo stack is not full and outside the start menu, brings back the mode,
/// the undo stack and the nodes (their content; recurring time tags may
/// have moved on).
pub proof fn lemma_help_round_trip(a: App, b: App, c: App)
    requires
        App::canvas_start_help_done(a, b),
        App::canvas_close_help_done(b, c),
        a.project_path is Some,
        a.undo_stack@.len() < crate::ops::undo_cap(),
        !(a.mode is StartMenu),
    ensures
        c.mode == a.mode,
        c.help_previous_mode is None,
        c.undo_stack@ == a.undo_stack@,
        crate::ops::same_content_restamped(a.nodes@, c.nodes@),
{
    let (pushed, cx, cy) = choose|pushed: App, cx: i32, cy: i32|
        #![trigger is_help_tree(b.nodes@, cx, cy), pushed.undo_stack]
        {
            &&& (a.project_path is None ==> pushed == a)
            &&& (a.project_path is Some ==> undo_pushed(a, pushed))
            &&& 0 <= cx <= 32767
            &&& 0 <= cy <= 32767
            &&& is_help_tree(b.nodes@, cx, cy)
            &&& b == (App {
                nodes: b.nodes,
                help_previous_mode: Some(a.mode),
                mode: Mode::Help,
                selected: 0,
                cursor_x: cx,
                cursor_y: cy,
                camera_x: 0,
                camera_y: 0,
                ..pushed
            })
        };
    let b2 = App { help_previous_mode: None, ..b };
    assert(b.undo_stack@.len() > 0);
    let u = choose|u: App| #[trigger] undone(b2, u) && c == (App { mode: a.mode, ..u });
    crate::ops::lemma_undo_restores(a, pushed, b2, u);
}

} // verus!
