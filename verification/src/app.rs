use vstd::prelude::*;
use crate::forest::{collect_subtree, forest, in_subtree, is_subtree_listing};
use crate::models::{ArchiveNote, Node, StatusQuery};
use crate::mode::{ArchiveState, ArrowSettings, CanvasState, InputAction, Mode, ProjectListState, StartMenuState};
use crate::buffer::on_boundary;
use crate::persistence::{GlobalSettings, Registry};

verus! {

/// Everything a project save writes, captured when the save was asked for.
pub struct ProjectSnapshot {
    pub nodes: Vec<Node>,
    pub queries: Vec<StatusQuery>,
    pub notes: Vec<ArchiveNote>,
    pub selected: usize,
    pub camera_x: i32,
    pub camera_y: i32,
    pub cursor_x: i32,
    pub cursor_y: i32,
    pub show_note_previews: bool,
    pub name: String,
    pub created_at: u64,
    pub arrows: ArrowSettings,
}

/// Work that the state machine asks its host to carry out, in order.
pub enum Effect {
    /// Write the snapshot to the project at `path` and append it to the history.
    SaveProject { path: String, snapshot: ProjectSnapshot },
    /// Delete the newest `count` history entries of the project at `path`.
    DropHistory { path: String, count: usize },
    /// Write the registry to disk.
    SaveRegistry,
    /// Write the global settings to disk.
    SaveSettings,
    /// Open the project at `path`.
    LoadProject { path: String },
    /// Create the files of a new project called `name` in directory `root`;
    /// on success the host reports back with `project_created`.
    CreateProject { root: String, name: String },
    /// Look for projects under `root` whose path contains `pattern`.
    ScanImport { root: String, pattern: String },
    /// Read the settings of the project at `path`; the host reports back
    /// with `project_imported` or `import_failed`.
    ImportProject { path: String },
    /// Switch the colour palette to the named one.
    UsePalette { name: String },
}

/// The application state.
pub struct App {
    pub arrow: ArrowSettings,
    pub nodes: Vec<Node>,
    /// User defined queries for the status page.
    pub queries: Vec<StatusQuery>,
    /// User defined notes for the archive page.
    pub notes: Vec<ArchiveNote>,
    /// The node under (or nearest to) the world cursor.
    pub selected: usize,
    pub camera_x: i32,
    pub camera_y: i32,
    /// World-space cursor.
    pub cursor_x: i32,
    pub cursor_y: i32,
    pub mode: Mode,
    /// Root directory of the open project.
    pub project_path: Option<String>,
    pub project_name: String,
    pub project_created_at: u64,
    pub registry: Registry,
    pub settings: GlobalSettings,
    /// Name of the active colour palette.
    pub palette: String,
    /// Names of the available colour palettes.
    pub themes: Vec<String>,
    /// Transient message shown in the status bar.
    pub status_message: Option<String>,
    /// Previous node lists, newest last.
    pub undo_stack: Vec<Vec<Node>>,
    /// Last link origin and index, for cycling through links.
    pub last_link_origin: Option<usize>,
    pub last_link_idx: usize,
    /// The mode to return to when the help tree closes.
    pub help_previous_mode: Option<Mode>,
    pub show_note_previews: bool,
    /// Work for the host, oldest first.
    pub effects: Vec<Effect>,
}

/// The node indices of a canvas sub-state are in range and its text
/// cursors sit on character boundaries.
pub open spec fn canvas_ok(state: CanvasState, nodes: Seq<Node>) -> bool
    decreases state,
{
    match state {
        CanvasState::New { buf, text_cursor } => on_boundary(buf@, text_cursor as int),
        CanvasState::Pick { origin_id, buf, cursor, .. } => {
            &&& origin_id < nodes.len()
            &&& on_boundary(buf@, cursor as int)
        },
        CanvasState::Link { origin_id } => origin_id < nodes.len(),
        CanvasState::Goto { buf, cursor, matches, match_idx, previous } => {
            &&& on_boundary(buf@, cursor as int)
            &&& forall|k: int| 0 <= k < matches@.len() ==> (#[trigger] matches@[k] as int) < nodes.len()
            &&& (matches@.len() > 0 ==> match_idx < matches@.len())
            &&& canvas_ok(*previous, nodes)
        },
        _ => true,
    }
}

/// The node indices that a mode refers to are in range, a reparent's
/// original parent lies outside the subtree being moved, and every text
/// cursor sits on a character boundary.
pub open spec fn mode_ok(mode: Mode, nodes: Seq<Node>) -> bool
    decreases mode,
{
    let n = nodes.len();
    match mode {
        Mode::Input { action, buf, cursor } => {
            &&& on_boundary(buf@, cursor as int)
            &&& match action {
                InputAction::InsertChild { parent } => parent < n,
                InputAction::EditLabel { node } => node < n,
                InputAction::Overwrite { node } => node < n,
            }
        },
        Mode::Reparent { subject, orig_parent, cursor, .. } => {
            &&& subject < n
            &&& cursor < n
            &&& (orig_parent matches Some(p) ==> p < n && !in_subtree(nodes, p, subject))
        },
        Mode::Canvas { state } => canvas_ok(state, nodes),
        Mode::StartMenu { state } => match state {
            StartMenuState::NewPath { buf, cursor } => on_boundary(buf@, cursor as int),
            StartMenuState::NewName { buf, cursor, .. } => on_boundary(buf@, cursor as int),
            StartMenuState::EditSetting { buf, cursor, .. } => on_boundary(buf@, cursor as int),
            StartMenuState::Import { buf, cursor, matches, match_idx, .. } => {
                &&& on_boundary(buf@, cursor as int)
                &&& (matches@.len() > 0 ==> match_idx < matches@.len())
            },
            _ => true,
        },
        Mode::ProjectList { state } => match state {
            ProjectListState::NewPath { buf, cursor } => on_boundary(buf@, cursor as int),
            ProjectListState::NewName { buf, cursor, .. } => on_boundary(buf@, cursor as int),
            _ => true,
        },
        Mode::ArchivePage { state, previous } => {
            &&& match state {
                ArchiveState::EditTitle { buf, cursor, .. } => on_boundary(buf@, cursor as int),
                ArchiveState::EditContent { buf, cursor, .. } => on_boundary(buf@, cursor as int),
                _ => true,
            }
            &&& mode_ok(*previous, nodes)
        },
        Mode::Help => true,
    }
}

/// The node is laid out on screen.
pub open spec fn visible(n: Node) -> bool {
    n.row != usize::MAX
}

/// Distance from the cursor to a node: horizontal distance to the node's
/// span plus vertical distance to its row.
pub open spec fn near_dist(n: Node, cx: int, cy: int) -> int {
    let dx = if cx < n.world_x {
        n.world_x - cx
    } else if cx > n.world_x_end {
        cx - n.world_x_end
    } else {
        0
    };
    let dy = if n.world_y >= cy {
        n.world_y - cy
    } else {
        cy - n.world_y
    };
    dx + dy
}

/// A visible node within distance 4 of the cursor.
pub open spec fn near_candidate(nodes: Seq<Node>, i: int, cx: int, cy: int) -> bool {
    0 <= i < nodes.len() && visible(nodes[i]) && near_dist(nodes[i], cx, cy) <= 4
}

/// `r` is the nearest visible node within distance 4, the lowest index among
/// equally near ones, or `None` when there is none.
pub open spec fn nearest_node(nodes: Seq<Node>, cx: int, cy: int, r: Option<usize>) -> bool {
    match r {
        None => forall|i: int| !#[trigger] near_candidate(nodes, i, cx, cy),
        Some(id) => {
            &&& near_candidate(nodes, id as int, cx, cy)
            &&& forall|i: int|
                #[trigger] near_candidate(nodes, i, cx, cy) ==> near_dist(nodes[id as int], cx, cy)
                    <= near_dist(nodes[i], cx, cy) && (near_dist(nodes[i], cx, cy) == near_dist(
                    nodes[id as int],
                    cx,
                    cy,
                ) ==> id <= i)
        },
    }
}

/// Where the camera goes so that the cursor stays at least 6 cells inside
/// a canvas of `extent` cells.
pub open spec fn follow(cam: int, cur: int, extent: int) -> int {
    if cur - cam >= extent - 6 {
        cur - (extent - 7)
    } else if cur - cam < 6 {
        cur - 6
    } else {
        cam
    }
}

/// The camera arithmetic of `follow` stays within `i32`.
pub open spec fn follow_fits(cam: int, cur: int) -> bool {
    &&& i32::MIN <= cur - cam <= i32::MAX
    &&& i32::MIN + 65536 <= cur <= i32::MAX - 7
}

impl App {
    /// The node list and every state on the undo stack are forests.
    pub open spec fn wf(&self) -> bool {
        &&& forest(self.nodes@)
        &&& forall|k: int| 0 <= k < self.undo_stack@.len() ==> forest(#[trigger] self.undo_stack@[k]@)
    }

    /// A node is selected and the cursor is near some node.
    pub open spec fn has_selection_spec(&self) -> bool {
        &&& self.selected < self.nodes@.len()
        &&& exists|i: int| near_candidate(self.nodes@, i, self.cursor_x as int, self.cursor_y as int)
    }

    /// The nodes of the subtree rooted at `root`, breadth first.
    pub fn collect_subtree(&self, root: usize) -> (r: Vec<usize>)
        requires
            forest(self.nodes@),
            root < self.nodes@.len(),
        ensures
            is_subtree_listing(self.nodes@, root, r@),
    {
        collect_subtree(&self.nodes, root)
    }

    /// The closest visible node within Manhattan distance 4 of `(cx, cy)`,
    /// or `None` when the cursor is in empty space.
    pub fn node_near_cursor(&self, cx: i32, cy: i32) -> (r: Option<usize>)
        ensures
            nearest_node(self.nodes@, cx as int, cy as int, r),
    {
        let mut best: Option<usize> = None;
        let mut best_d: i64 = 0;
        let mut i: usize = 0;
        while i < self.nodes.len()
            invariant
                i <= self.nodes@.len(),
                match best {
                    None => forall|k: int| 0 <= k < i ==> !#[trigger] near_candidate(self.nodes@, k, cx as int, cy as int),
                    Some(id) => {
                        &&& id < i
                        &&& near_candidate(self.nodes@, id as int, cx as int, cy as int)
                        &&& best_d == near_dist(self.nodes@[id as int], cx as int, cy as int)
                        &&& forall|k: int|
                            0 <= k < i && #[trigger] near_candidate(self.nodes@, k, cx as int, cy as int) ==> best_d
                                <= near_dist(self.nodes@[k], cx as int, cy as int) && (near_dist(
                                self.nodes@[k],
                                cx as int,
                                cy as int,
                            ) == best_d ==> id <= k)
                    },
                },
            decreases self.nodes@.len() - i,
        {
            let n = &self.nodes[i];
            if n.row != usize::MAX {
                let c = cx as i64;
                let dx: i64 = if c < n.world_x as i64 {
                    n.world_x as i64 - c
                } else if c > n.world_x_end as i64 {
                    c - n.world_x_end as i64
                } else {
                    0
                };
                let dy: i64 = if n.world_y as i64 >= cy as i64 {
                    n.world_y as i64 - cy as i64
                } else {
                    cy as i64 - n.world_y as i64
                };
                let d = dx + dy;
                assert(d == near_dist(self.nodes@[i as int], cx as int, cy as int));
                if d <= 4 {
                    match best {
                        None => {
                            best = Some(i);
                            best_d = d;
                        },
                        Some(_) => {
                            if d < best_d {
                                best = Some(i);
                                best_d = d;
                            }
                        },
                    }
                }
            }
            i = i + 1;
        }
        best
    }

    /// A node is selected and the cursor is near some node.
    pub fn has_selection(&self) -> (r: bool)
        ensures
            r == self.has_selection_spec(),
    {
        if self.selected < self.nodes.len() {
            let near = self.node_near_cursor(self.cursor_x, self.cursor_y);
            match near {
                Some(id) => {
                    assert(near_candidate(self.nodes@, id as int, self.cursor_x as int, self.cursor_y as int));
                    true
                },
                None => false,
            }
        } else {
            false
        }
    }

    /// What `cursor_move` does: `post` is `pre` after it.
    pub open spec fn cursor_move_done(pre: App, post: App, dx: i32, dy: i32, canvas_w: u16, canvas_h: u16) -> bool {
        &&& post.cursor_x == pre.cursor_x + dx
        &&& post.cursor_y == pre.cursor_y + dy
        &&& ({
                let near = choose|r: Option<usize>| nearest_node(pre.nodes@, post.cursor_x as int, post.cursor_y as int, r);
                match near {
                    Some(id) => post.selected == id,
                    None => post.selected == pre.selected,
                }
            })
        &&& post.camera_x == follow(pre.camera_x as int, post.cursor_x as int, canvas_w as int)
        &&& post.camera_y == follow(pre.camera_y as int, post.cursor_y as int, canvas_h as int)
        &&& post == (App {
                cursor_x: post.cursor_x,
                cursor_y: post.cursor_y,
                camera_x: post.camera_x,
                camera_y: post.camera_y,
                selected: post.selected,
                ..pre
            })
    }

    /// Move the world cursor by `(dx, dy)`; the selection snaps to the
    /// nearest node and the camera follows when the cursor nears an edge.
    pub fn cursor_move(&mut self, dx: i32, dy: i32, canvas_w: u16, canvas_h: u16)
        requires
            i32::MIN <= old(self).cursor_x + dx <= i32::MAX,
            i32::MIN <= old(self).cursor_y + dy <= i32::MAX,
            follow_fits(old(self).camera_x as int, old(self).cursor_x + dx),
            follow_fits(old(self).camera_y as int, old(self).cursor_y + dy),
        ensures
            Self::cursor_move_done(*old(self), *final(self), dx, dy, canvas_w, canvas_h),
    {
        self.cursor_x = self.cursor_x + dx;
        self.cursor_y = self.cursor_y + dy;
        let near = self.node_near_cursor(self.cursor_x, self.cursor_y);
        proof {
            lemma_nearest_unique(self.nodes@, self.cursor_x as int, self.cursor_y as int, near);
        }
        if let Some(id) = near {
            self.selected = id;
        }
        self.follow_cursor(canvas_w, canvas_h);
    }

    /// Scroll the camera lazily so that the cursor keeps a margin of 6 cells.
    pub(crate) fn follow_cursor(&mut self, canvas_w: u16, canvas_h: u16)
        requires
            follow_fits(old(self).camera_x as int, old(self).cursor_x as int),
            follow_fits(old(self).camera_y as int, old(self).cursor_y as int),
        ensures
            final(self).camera_x == follow(old(self).camera_x as int, old(self).cursor_x as int, canvas_w as int),
            final(self).camera_y == follow(old(self).camera_y as int, old(self).cursor_y as int, canvas_h as int),
            *final(self) == (App { camera_x: final(self).camera_x, camera_y: final(self).camera_y, ..*old(self) }),
    {
        let margin: i32 = 6;
        let cw = canvas_w as i32;
        let ch = canvas_h as i32;
        let sx = self.cursor_x - self.camera_x;
        let sy = self.cursor_y - self.camera_y;
        if sx < margin {
            self.camera_x = self.cursor_x - margin;
        }
        if sx >= cw - margin {
            self.camera_x = self.cursor_x - (cw - margin - 1);
        }
        if sy < margin {
            self.camera_y = self.cursor_y - margin;
        }
        if sy >= ch - margin {
            self.camera_y = self.cursor_y - (ch - margin - 1);
        }
    }

    /// What `center_on_selected` does: `post` is `pre` after it.
    pub open spec fn center_on_selected_done(pre: App, post: App, canvas_w: u16, canvas_h: u16) -> bool {
        &&& pre.selected >= pre.nodes@.len() ==> post == pre
        &&& pre.selected < pre.nodes@.len() ==> {
                let n = pre.nodes@[pre.selected as int];
                post == (App {
                    cursor_x: n.world_x,
                    cursor_y: n.world_y,
                    camera_x: (n.world_x - canvas_w / 2) as i32,
                    camera_y: (n.world_y - canvas_h / 2) as i32,
                    ..pre
                })
            }
    }

    /// Warp the cursor to the selected node and centre the camera on it.
    pub fn center_on_selected(&mut self, canvas_w: u16, canvas_h: u16)
        requires
            old(self).selected < old(self).nodes@.len() ==> {
                &&& i32::MIN <= old(self).nodes@[old(self).selected as int].world_x - canvas_w / 2
                &&& i32::MIN <= old(self).nodes@[old(self).selected as int].world_y - canvas_h / 2
            },
        ensures
            Self::center_on_selected_done(*old(self), *final(self), canvas_w, canvas_h),
    {
        if self.selected >= self.nodes.len() {
            return;
        }
        self.cursor_x = self.nodes[self.selected].world_x;
        self.cursor_y = self.nodes[self.selected].world_y;
        self.camera_x = self.cursor_x - (canvas_w / 2) as i32;
        self.camera_y = self.cursor_y - (canvas_h / 2) as i32;
    }

    /// What `scroll_to_selected` does: `post` is `pre` after it.
    pub open spec fn scroll_to_selected_done(pre: App, post: App, canvas_h: usize) -> bool {
        &&& pre.selected >= pre.nodes@.len() || canvas_h == 0 ==> post == pre
        &&& pre.selected < pre.nodes@.len() && canvas_h != 0 ==> {
                let wy = pre.nodes@[pre.selected as int].world_y;
                let sy = wy - pre.camera_y;
                post == (App {
                    camera_y: if sy < 0 {
                        wy
                    } else if sy >= canvas_h {
                        (wy - (canvas_h - 1)) as i32
                    } else {
                        pre.camera_y
                    },
                    ..pre
                })
            }
    }

    /// Scroll the camera vertically so that the selected node is on screen.
    pub fn scroll_to_selected(&mut self, canvas_h: usize)
        requires
            old(self).selected < old(self).nodes@.len() && canvas_h != 0 ==> {
                &&& i32::MIN <= old(self).nodes@[old(self).selected as int].world_y - old(self).camera_y <= i32::MAX
                &&& canvas_h <= i32::MAX
                &&& i32::MIN <= old(self).nodes@[old(self).selected as int].world_y - (canvas_h - 1)
            },
        ensures
            Self::scroll_to_selected_done(*old(self), *final(self), canvas_h),
    {
        if self.selected >= self.nodes.len() || canvas_h == 0 {
            return;
        }
        let wy = self.nodes[self.selected].world_y;
        let sy = wy - self.camera_y;
        if sy < 0 {
            self.camera_y = wy;
        } else if sy >= canvas_h as i32 {
            self.camera_y = wy - (canvas_h as i32 - 1);
        }
    }

    /// What `toggle_collapse` does: `post` is `pre` after it.
    pub open spec fn toggle_collapse_done(pre: App, post: App) -> bool {
        &&& ({
                let sel = pre.selected as int;
                if pre.selected < pre.nodes@.len() && (exists|i: int| near_candidate(
                    pre.nodes@,
                    i,
                    pre.cursor_x as int,
                    pre.cursor_y as int,
                )) && pre.nodes@[sel].children@.len() > 0 {
                    &&& post.nodes@ == pre.nodes@.update(
                        sel,
                        Node { collapsed: !pre.nodes@[sel].collapsed, ..pre.nodes@[sel] },
                    )
                    &&& post == (App { nodes: post.nodes, ..pre })
                } else {
                    post == pre
                }
            })
    }

    /// Collapse or expand the selected node, when it has children.
    pub fn toggle_collapse(&mut self)
        ensures
            Self::toggle_collapse_done(*old(self), *final(self)),
    {
        if !self.has_selection() {
            return;
        }
        if self.nodes[self.selected].children.len() > 0 {
            let c = self.nodes[self.selected].collapsed;
            self.nodes[self.selected].collapsed = !c;
        }
    }
}

/// There is exactly one nearest node answer.
pub proof fn lemma_nearest_unique(nodes: Seq<Node>, cx: int, cy: int, r: Option<usize>)
    requires
        nearest_node(nodes, cx, cy, r),
    ensures
        forall|q: Option<usize>| #[trigger] nearest_node(nodes, cx, cy, q) ==> q == r,
{
    assert forall|q: Option<usize>| #[trigger] nearest_node(nodes, cx, cy, q) implies q == r by {
        match (q, r) {
            (Some(a), Some(b)) => {
                assert(near_candidate(nodes, a as int, cx, cy));
                assert(near_candidate(nodes, b as int, cx, cy));
            },
            (Some(a), None) => {
                assert(near_candidate(nodes, a as int, cx, cy));
            },
            (None, Some(b)) => {
                assert(near_candidate(nodes, b as int, cx, cy));
            },
            (None, None) => {},
        }
    }
}

} // verus!
