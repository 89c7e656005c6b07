//! The one-line status bar under the canvas: what the current mode is doing,
//! in words.

use vstd::prelude::*;
use crate::app::{lemma_nearest_unique, mode_ok, nearest_node, App};
use crate::duration::{decimal, decimal_string};
use crate::forest::forest;
use crate::mode::{ArrowFidelity, CanvasState, InputAction, Mode, StartMenuState};
use crate::prefix::{depth_of, node_depth};
use crate::query::{contains_str, has_substring};
use crate::text::{lowercase, replace_all, replaced, to_lowercase};

verus! {

/// `v` in decimal, with a leading "-" when negative.
pub open spec fn signed_decimal(v: int) -> Seq<char> {
    if v < 0 {
        seq!['-'] + decimal((-v) as nat)
    } else {
        decimal(v as nat)
    }
}

/// `v` in decimal, with a leading "-" when negative.
pub fn i32_string(v: i32) -> (r: String)
    ensures
        r@ == signed_decimal(v as int),
{
    proof {
        reveal_strlit("-");
    }
    let w = v as i64;
    if w < 0 {
        let d = decimal_string((-w) as u64);
        let mut s = String::from_str("-");
        s.append(d.as_str());
        s
    } else {
        decimal_string(w as u64)
    }
}

/// How the status bar names an arrow fidelity.
pub open spec fn fidelity_name(f: ArrowFidelity) -> Seq<char> {
    match f {
        ArrowFidelity::Tree => "tree"@,
        ArrowFidelity::Selected => "selected"@,
    }
}

/// How the status bar names a switch.
pub open spec fn switch_name(b: bool) -> Seq<char> {
    if b {
        "ON"@
    } else {
        "off"@
    }
}

/// The node nearest to the world cursor, if any (see `nearest_node`).
pub open spec fn cursor_target(app: App) -> Option<usize> {
    choose|r: Option<usize>| nearest_node(app.nodes@, app.cursor_x as int, app.cursor_y as int, r)
}

/// "(x,y)" for a pair of coordinates.
pub open spec fn coords_text(x: i32, y: i32) -> Seq<char> {
    "("@ + signed_decimal(x as int) + ","@ + signed_decimal(y as int) + ")"@
}

/// The status bar on the start menu.
pub open spec fn start_status(app: App, state: StartMenuState) -> Seq<char> {
    let ns = app.nodes@;
    match state {
        StartMenuState::Main { selected } => if (selected as int) < ns.len() {
            let n = ns[selected as int];
            if n.parent matches Some(p) && has_substring(lowercase(ns[p as int].label@), "open"@) {
                " "@ + n.label@ + " │ Enter:select  e:name  p:path  d:remove  o/f/s/n/?:jump  j/k:nav  q/Q:quit "@
            } else {
                " "@ + n.label@ + " │ Enter:select  e:edit  o/f/s/n/?:jump  j/k:nav  q/Q:quit "@
            }
        } else {
            " FILAMENT │ Enter:select  e:edit  o/f/s/n/?:jump  j/k:nav  q/Q:quit "@
        },
        StartMenuState::NewPath { buf, .. } => " new project location: \""@ + buf@ + "\" "@,
        StartMenuState::NewName { path, buf, .. } => " new project \""@ + buf@ + "\" at "@ + path@ + " "@,
        StartMenuState::EditSetting { key, buf, .. } => " editing "@ + replaced(key@, "_"@, " "@) + ": \""@ + buf@
            + "\" "@,
        StartMenuState::Import { root, buf, matches, editing_root, .. } => " import from "@ + root@ + " │ "@ + (if editing_root {
            "editing location"@
        } else {
            "fuzzy search"@
        }) + ": \""@ + buf@ + "\" │ "@ + decimal(matches@.len())
            + " matches │ up/down:nav  Tab:change location  Enter:import  Esc:cancel "@,
    }
}

/// The status bar on the canvas.
pub open spec fn canvas_status(app: App, state: CanvasState) -> Seq<char> {
    let ns = app.nodes@;
    let cursor = coords_text(app.cursor_x, app.cursor_y);
    let camera = coords_text(app.camera_x, app.camera_y);
    match state {
        CanvasState::Menu | CanvasState::MenuIncoming | CanvasState::MenuOutgoing => " arrow display │ global "@
            + switch_name(app.arrow.global) + " │ incoming "@ + fidelity_name(app.arrow.incoming) + " │ outgoing "@
            + fidelity_name(app.arrow.outgoing) + " "@,
        CanvasState::Browse => if app.has_selection_spec() {
            " "@ + ns[app.selected as int].label@ + " │ depth "@ + decimal(depth_of(ns, app.selected)) + " │ cursor "@
                + cursor + " │ camera "@ + camera + " │ "@ + decimal(ns.len()) + " nodes "@
        } else {
            " cursor "@ + cursor + " │ camera "@ + camera + " │ "@ + decimal(ns.len()) + " nodes "@
        },
        CanvasState::New { buf, .. } => " new node at "@ + cursor + " │ \""@ + buf@ + "\" "@,
        CanvasState::Pick { origin_id, .. } => " picking \""@ + ns[origin_id as int].label@ + "\" → "@ + cursor
            + " "@,
        CanvasState::Link { origin_id } => {
            let target = match cursor_target(app) {
                Some(t) => if t != origin_id {
                    "\""@ + ns[t as int].label@ + "\""@
                } else {
                    "(none)"@
                },
                None => "(none)"@,
            };
            " linking from \""@ + ns[origin_id as int].label@ + "\"  →  "@ + target + "  │  "@ + decimal(
                ns[origin_id as int].links@.len(),
            ) + " outgoing links "@
        },
        CanvasState::Goto { buf, .. } => " finding node: \""@ + buf@ + "\" "@,
        CanvasState::TagStatus => " status tag │ t:todo  p:progress  c:done  b:blocked  x:clear  Esc:cancel "@,
    }
}

/// The status bar for the current mode of `app`.  The project list and the
/// archive show none.
pub open spec fn status_text(app: App) -> Seq<char> {
    let ns = app.nodes@;
    match app.mode {
        Mode::StartMenu { state } => start_status(app, state),
        Mode::Input { action, buf, .. } => match action {
            InputAction::InsertChild { parent } => " inserting under \""@ + ns[parent as int].label@ + "\" │ \""@
                + buf@ + "\" "@,
            InputAction::EditLabel { node } => " editing \""@ + ns[node as int].label@ + "\" → \""@ + buf@ + "\" "@,
            InputAction::Overwrite { node } => " editing \""@ + ns[node as int].label@ + "\" → \""@ + buf@ + "\" "@,
        },
        Mode::Reparent { subject, cursor, .. } => " reparenting \""@ + ns[subject as int].label@ + "\" → child of \""@
            + ns[cursor as int].label@ + "\" "@,
        Mode::Canvas { state } => canvas_status(app, state),
        Mode::Help => " Browsing Help tree │ hjkl:navigate  z:toggle  Esc/?:close "@,
        Mode::ProjectList { .. } => Seq::empty(),
        Mode::ArchivePage { .. } => Seq::empty(),
    }
}

/// "(x,y)" for a pair of coordinates.
fn coords_string(x: i32, y: i32) -> (r: String)
    ensures
        r@ == coords_text(x, y),
{
    let mut s = String::from_str("(");
    let a = i32_string(x);
    let b = i32_string(y);
    s.append(a.as_str());
    s.append(",");
    s.append(b.as_str());
    s.append(")");
    proof {
        assert(s@ =~= coords_text(x, y));
    }
    s
}

impl App {
    /// The status bar on the start menu.
    fn start_status(&self) -> (r: String)
        requires
            forest(self.nodes@),
            self.mode matches Mode::StartMenu { .. },
        ensures
            self.mode matches Mode::StartMenu { state } && r@ == start_status(*self, state),
    {
        match &self.mode {
            Mode::StartMenu { state } => match state {
                StartMenuState::Main { selected } => {
                    if *selected < self.nodes.len() {
                        let n = &self.nodes[*selected];
                        let mut open_child = false;
                        if let Some(p) = n.parent {
                            let low = to_lowercase(self.nodes[p].label.as_str());
                            open_child = contains_str(low.as_str(), "open");
                        }
                        let mut s = String::from_str(" ");
                        s.append(n.label.as_str());
                        if open_child {
                            s.append(" │ Enter:select  e:name  p:path  d:remove  o/f/s/n/?:jump  j/k:nav  q/Q:quit ");
                        } else {
                            s.append(" │ Enter:select  e:edit  o/f/s/n/?:jump  j/k:nav  q/Q:quit ");
                        }
                        s
                    } else {
                        String::from_str(" FILAMENT │ Enter:select  e:edit  o/f/s/n/?:jump  j/k:nav  q/Q:quit ")
                    }
                },
                StartMenuState::NewPath { buf, .. } => {
                    let mut s = String::from_str(" new project location: \"");
                    s.append(buf.as_str());
                    s.append("\" ");
                    s
                },
                StartMenuState::NewName { path, buf, .. } => {
                    let mut s = String::from_str(" new project \"");
                    s.append(buf.as_str());
                    s.append("\" at ");
                    s.append(path.as_str());
                    s.append(" ");
                    s
                },
                StartMenuState::EditSetting { key, buf, .. } => {
                    proof {
                        reveal_strlit("_");
                    }
                    let k = replace_all(key.as_str(), "_", " ");
                    let mut s = String::from_str(" editing ");
                    s.append(k.as_str());
                    s.append(": \"");
                    s.append(buf.as_str());
                    s.append("\" ");
                    s
                },
                StartMenuState::Import { root, buf, matches, editing_root, .. } => {
                    let mut s = String::from_str(" import from ");
                    s.append(root.as_str());
                    s.append(" │ ");
                    if *editing_root {
                        s.append("editing location");
                    } else {
                        s.append("fuzzy search");
                    }
                    s.append(": \"");
                    s.append(buf.as_str());
                    s.append("\" │ ");
                    let c = decimal_string(matches.len() as u64);
                    s.append(c.as_str());
                    s.append(" matches │ up/down:nav  Tab:change location  Enter:import  Esc:cancel ");
                    s
                },
            },
            _ => String::new(),
        }
    }

    /// The status bar on the canvas.
    #[verifier::rlimit(40)]
    fn canvas_status(&self) -> (r: String)
        requires
            forest(self.nodes@),
            mode_ok(self.mode, self.nodes@),
            self.mode matches Mode::Canvas { .. },
        ensures
            self.mode matches Mode::Canvas { state } && r@ == canvas_status(*self, state),
    {
        let cursor = coords_string(self.cursor_x, self.cursor_y);
        match &self.mode {
            Mode::Canvas { state } => match state {
                CanvasState::Menu | CanvasState::MenuIncoming | CanvasState::MenuOutgoing => {
                    let mut s = String::from_str(" arrow display │ global ");
                    s.append(if self.arrow.global { "ON" } else { "off" });
                    s.append(" │ incoming ");
                    s.append(
                        match self.arrow.incoming {
                            ArrowFidelity::Tree => "tree",
                            ArrowFidelity::Selected => "selected",
                        },
                    );
                    s.append(" │ outgoing ");
                    s.append(
                        match self.arrow.outgoing {
                            ArrowFidelity::Tree => "tree",
                            ArrowFidelity::Selected => "selected",
                        },
                    );
                    s.append(" ");
                    s
                },
                CanvasState::Browse => {
                    let camera = coords_string(self.camera_x, self.camera_y);
                    let count = decimal_string(self.nodes.len() as u64);
                    let mut s = String::new();
                    if self.has_selection() {
                        let (d, _) = node_depth(self.nodes.as_slice(), self.selected);
                        let dd = decimal_string(d as u64);
                        s.append(" ");
                        s.append(self.nodes[self.selected].label.as_str());
                        s.append(" │ depth ");
                        s.append(dd.as_str());
                        s.append(" │ cursor ");
                    } else {
                        s.append(" cursor ");
                    }
                    s.append(cursor.as_str());
                    s.append(" │ camera ");
                    s.append(camera.as_str());
                    s.append(" │ ");
                    s.append(count.as_str());
                    s.append(" nodes ");
                    s
                },
                CanvasState::New { buf, .. } => {
                    let mut s = String::from_str(" new node at ");
                    s.append(cursor.as_str());
                    s.append(" │ \"");
                    s.append(buf.as_str());
                    s.append("\" ");
                    s
                },
                CanvasState::Pick { origin_id, .. } => {
                    let mut s = String::from_str(" picking \"");
                    s.append(self.nodes[*origin_id].label.as_str());
                    s.append("\" → ");
                    s.append(cursor.as_str());
                    s.append(" ");
                    s
                },
                CanvasState::Link { origin_id } => {
                    let near = self.node_near_cursor(self.cursor_x, self.cursor_y);
                    proof {
                        lemma_nearest_unique(self.nodes@, self.cursor_x as int, self.cursor_y as int, near);
                        assert(near == cursor_target(*self));
                    }
                    let mut target = String::from_str("(none)");
                    if let Some(t) = near {
                        if t != *origin_id {
                            target = String::from_str("\"");
                            target.append(self.nodes[t].label.as_str());
                            target.append("\"");
                        }
                    }
                    let links = decimal_string(self.nodes[*origin_id].links.len() as u64);
                    let mut s = String::from_str(" linking from \"");
                    s.append(self.nodes[*origin_id].label.as_str());
                    s.append("\"  →  ");
                    s.append(target.as_str());
                    s.append("  │  ");
                    s.append(links.as_str());
                    s.append(" outgoing links ");
                    s
                },
                CanvasState::Goto { buf, .. } => {
                    let mut s = String::from_str(" finding node: \"");
                    s.append(buf.as_str());
                    s.append("\" ");
                    s
                },
                CanvasState::TagStatus => String::from_str(
                    " status tag │ t:todo  p:progress  c:done  b:blocked  x:clear  Esc:cancel ",
                ),
            },
            _ => String::new(),
        }
    }

    /// The status bar for the current mode.
    pub fn build_status(&self) -> (r: String)
        requires
            forest(self.nodes@),
            mode_ok(self.mode, self.nodes@),
        ensures
            r@ == status_text(*self),
    {
        match &self.mode {
            Mode::StartMenu { .. } => self.start_status(),
            Mode::Canvas { .. } => self.canvas_status(),
            Mode::Input { action, buf, .. } => match action {
                InputAction::InsertChild { parent } => {
                    let mut s = String::from_str(" inserting under \"");
                    s.append(self.nodes[*parent].label.as_str());
                    s.append("\" │ \"");
                    s.append(buf.as_str());
                    s.append("\" ");
                    s
                },
                InputAction::EditLabel { node } | InputAction::Overwrite { node } => {
                    let mut s = String::from_str(" editing \"");
                    s.append(self.nodes[*node].label.as_str());
                    s.append("\" → \"");
                    s.append(buf.as_str());
                    s.append("\" ");
                    s
                },
            },
            Mode::Reparent { subject, cursor, .. } => {
                let mut s = String::from_str(" reparenting \"");
                s.append(self.nodes[*subject].label.as_str());
                s.append("\" → child of \"");
                s.append(self.nodes[*cursor].label.as_str());
                s.append("\" ");
                s
            },
            Mode::Help => String::from_str(" Browsing Help tree │ hjkl:navigate  z:toggle  Esc/?:close "),
            Mode::ProjectList { .. } => String::new(),
            Mode::ArchivePage { .. } => String::new(),
        }
    }
}

} // verus!
