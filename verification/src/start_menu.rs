//! The start menu's actions: editing settings and registry entries,
//! starting a new project, importing one, and the text fields they use.

use vstd::prelude::*;
use vstd::string::{StrSliceExecFns, StringExecFns};
use crate::app::{mode_ok, App, Effect};
use crate::buffer::{at_char, buf_backspace, buf_insert, buf_ok, byte_len, char_index, char_width, move_cursor_in_buf, utf8_len};
use crate::duration::{decimal, decimal_string};
use crate::forest::{forest, position_of};
use crate::menu::{is_main_menu};
use crate::mode::{CanvasState, Mode, StartMenuState};
use crate::models::Node;
use crate::query::{contains_str, has_substring};
use crate::text::{lowercase, to_lowercase};

verus! {

/// The registry index of the project that menu node `s` stands for: `s`
/// hangs under a node whose label mentions "open" (in any case), and its
/// position there is an index of the registry.
pub open spec fn project_of(a: App, s: usize) -> Option<int> {
    let nodes = a.nodes@;
    match nodes[s as int].parent {
        Some(q) => if has_substring(lowercase(nodes[q as int].label@), "open"@) {
            let k = nodes[q as int].children@.index_of(s);
            if k < a.registry.projects@.len() {
                Some(k)
            } else {
                None
            }
        } else {
            None
        },
        None => None,
    }
}

/// `s` hangs under a node whose label mentions "open".
pub open spec fn under_open(a: App, s: usize) -> bool {
    a.nodes@[s as int].parent matches Some(q) && has_substring(lowercase(a.nodes@[q as int].label@), "open"@)
}

/// The setting (key and current value) that editing menu node `s` opens:
/// the default path, the user name, or the name of a project.
pub open spec fn edit_target(a: App, s: usize) -> Option<(Seq<char>, Seq<char>)> {
    let l = lowercase(a.nodes@[s as int].label@);
    if has_substring(l, "default filaments path"@) {
        Some(("default_projects_path"@, a.settings.default_projects_path@))
    } else if has_substring(l, "username"@) {
        Some(("username"@, a.settings.username@))
    } else {
        match project_of(a, s) {
            Some(k) => Some(("rename_project:"@ + decimal(k as nat), a.registry.projects@[k].name@)),
            None => None,
        }
    }
}

/// `b` is `a` editing setting `key` from the text `value`, the cursor at
/// its end.
pub open spec fn editing(a: App, b: App, key: Seq<char>, value: Seq<char>) -> bool {
    &&& b.mode matches Mode::StartMenu { state: StartMenuState::EditSetting { key: k, buf, cursor } }
        && k@ == key && buf@ == value && at_char(value, cursor as int, value.len() as int)
    &&& b == (App { mode: b.mode, ..a })
}

impl App {
    /// What `start_menu_edit` does: `post` is `pre` after it.
    pub open spec fn start_menu_edit_done(pre: App, post: App) -> bool {
        &&& match edit_target(pre, pre.selected) {
                Some((key, value)) => editing(pre, post, key, value),
                None => post == pre,
            }
    }

    /// Start editing the selected menu entry: the default path, the user
    /// name, or the name of a project.  Nothing happens for other entries.
    pub fn start_menu_edit(&mut self)
        requires
            (old(self).selected as int) < old(self).nodes@.len(),
            forest(old(self).nodes@),
        ensures
            Self::start_menu_edit_done(*old(self), *final(self)),
    {
        let node_id = self.selected;
        let label = to_lowercase(self.nodes[node_id].label.as_str());
        proof {
            reveal_strlit("default filaments path");
            reveal_strlit("username");
        }
        if contains_str(label.as_str(), "default filaments path") {
            let buf = self.settings.default_projects_path.clone();
            let cursor = byte_len(&buf);
            self.mode = Mode::StartMenu { state: StartMenuState::EditSetting { key: String::from_str("default_projects_path"), buf, cursor } };
        } else if contains_str(label.as_str(), "username") {
            let buf = self.settings.username.clone();
            let cursor = byte_len(&buf);
            self.mode = Mode::StartMenu { state: StartMenuState::EditSetting { key: String::from_str("username"), buf, cursor } };
        } else {
            match self.project_index(node_id) {
                Some(k) => {
                    let buf = self.registry.projects[k].name.clone();
                    let cursor = byte_len(&buf);
                    let mut key = String::from_str("rename_project:");
                    key.append(decimal_string(k as u64).as_str());
                    self.mode = Mode::StartMenu { state: StartMenuState::EditSetting { key, buf, cursor } };
                },
                None => {},
            }
        }
    }

    /// The registry index of the project that menu node `s` stands for.
    pub fn project_index(&self, s: usize) -> (r: Option<usize>)
        requires
            (s as int) < self.nodes@.len(),
            forest(self.nodes@),
        ensures
            r matches Some(k) ==> project_of(*self, s) == Some(k as int) && (k as int) < self.registry.projects@.len(),
            r is None ==> project_of(*self, s) is None,
    {
        proof {
            reveal_strlit("open");
        }
        match self.nodes[s].parent {
            Some(q) => {
                let pl = to_lowercase(self.nodes[q].label.as_str());
                if !contains_str(pl.as_str(), "open") {
                    return None;
                }
                proof {
                    assert(self.nodes@[s as int].parent == Some(q));
                }
                match position_of(&self.nodes[q].children, s) {
                    Some(k) => {
                        proof {
                            let cs = self.nodes@[q as int].children@;
                            assert(cs.no_duplicates());
                            assert(cs.contains(s));
                            let i = cs.index_of(s);
                            assert(cs[i] == s);
                            assert(i == k as int);
                        }
                        if k < self.registry.projects.len() {
                            Some(k)
                        } else {
                            None
                        }
                    },
                    None => {
                        proof {
                            assert(self.nodes@[q as int].children@.contains(s));
                        }
                        None
                    },
                }
            },
            None => None,
        }
    }
}

/// The text field of a start-menu state, with its cursor.
pub open spec fn menu_field(mode: Mode) -> Option<(Seq<char>, usize)> {
    match mode {
        Mode::StartMenu { state } => match state {
            StartMenuState::NewPath { buf, cursor } => Some((buf@, cursor)),
            StartMenuState::NewName { buf, cursor, .. } => Some((buf@, cursor)),
            StartMenuState::EditSetting { buf, cursor, .. } => Some((buf@, cursor)),
            StartMenuState::Import { buf, cursor, .. } => Some((buf@, cursor)),
            StartMenuState::Main { .. } => None,
        },
        _ => None,
    }
}

/// The text field of the state fits the editing functions.
pub open spec fn field_ready(mode: Mode) -> bool {
    menu_field(mode) matches Some((b, c)) ==> buf_ok(b, c as int)
}

/// The state is the import dialog.
pub open spec fn is_import(mode: Mode) -> bool {
    mode matches Mode::StartMenu { state: StartMenuState::Import { .. } }
}

/// `b` is the start-menu state `a` with its text field set to `buf` and
/// `cursor`, everything else kept.
pub open spec fn with_field(a: Mode, b: Mode, buf: Seq<char>, cursor: int) -> bool {
    match a {
        Mode::StartMenu { state: StartMenuState::NewPath { .. } } => b matches Mode::StartMenu {
            state: StartMenuState::NewPath { buf: b2, cursor: c2 },
        } && b2@ == buf && c2 == cursor,
        Mode::StartMenu { state: StartMenuState::NewName { path, .. } } => b matches Mode::StartMenu {
            state: StartMenuState::NewName { path: p2, buf: b2, cursor: c2 },
        } && p2 == path && b2@ == buf && c2 == cursor,
        Mode::StartMenu { state: StartMenuState::EditSetting { key, .. } } => b matches Mode::StartMenu {
            state: StartMenuState::EditSetting { key: k2, buf: b2, cursor: c2 },
        } && k2 == key && b2@ == buf && c2 == cursor,
        Mode::StartMenu { state: StartMenuState::Import { root, matches, match_idx, editing_root, .. } } => b matches Mode::StartMenu {
            state: StartMenuState::Import { root: r2, buf: b2, cursor: c2, matches: m2, match_idx: i2, editing_root: e2 },
        } && r2 == root && b2@ == buf && c2 == cursor && m2 == matches && i2 == match_idx && e2 == editing_root,
        _ => false,
    }
}

/// `b` is the import dialog `a` asking its host for a fresh scan: in
/// root-editing mode the typed text becomes the root and every project
/// under it is wanted; otherwise the typed text filters the projects under
/// the root.  The old matches are dropped until the scan reports back.
pub open spec fn rescanned(a: App, b: App) -> bool {
    &&& a.mode matches Mode::StartMenu { state: StartMenuState::Import { root, buf, cursor, editing_root, .. } }
    &&& b.mode matches Mode::StartMenu { state: StartMenuState::Import { root: r2, buf: b2, cursor: c2, matches: m2, match_idx: i2, editing_root: e2 } } && {
        let ar = a.mode->StartMenu_state->Import_root;
        let ab = a.mode->StartMenu_state->Import_buf;
        let ae = a.mode->StartMenu_state->Import_editing_root;
        &&& b2@ == ab@
        &&& c2 == a.mode->StartMenu_state->Import_cursor
        &&& e2 == ae
        &&& m2@.len() == 0
        &&& i2 == 0
        &&& r2@ == (if ae { ab@ } else { ar@ })
        &&& b.effects@.len() == a.effects@.len() + 1
        &&& b.effects@.take(a.effects@.len() as int) == a.effects@
        &&& b.effects@.last() matches Effect::ScanImport { root: er, pattern: ep } && er@ == r2@ && ep@ == (if ae {
            Seq::<char>::empty()
        } else {
            ab@
        })
    }
    &&& b == (App { mode: b.mode, effects: b.effects, ..a })
}

/// The project folders among `found` whose path contains `pattern` (in any
/// case; every folder when `pattern` is empty), in order.
pub open spec fn import_hits(found: Seq<Seq<char>>, pattern: Seq<char>) -> Seq<Seq<char>>
    decreases found.len(),
{
    if found.len() == 0 {
        Seq::empty()
    } else {
        let r = import_hits(found.drop_last(), pattern);
        let f = found.last();
        if pattern.len() == 0 || has_substring(lowercase(f), lowercase(pattern)) {
            r.push(f)
        } else {
            r
        }
    }
}

/// The import dialog lists at most this many projects.
pub open spec fn import_cap() -> nat {
    20
}

/// The hits of a prefix of `found` start the hits of a longer prefix.
proof fn lemma_hits_prefix(found: Seq<Seq<char>>, pattern: Seq<char>, i: int, j: int)
    requires
        0 <= i <= j <= found.len(),
    ensures
        import_hits(found.take(i), pattern).len() <= import_hits(found.take(j), pattern).len(),
        import_hits(found.take(j), pattern).take(import_hits(found.take(i), pattern).len() as int) == import_hits(found.take(i), pattern),
    decreases j - i,
{
    if i < j {
        lemma_hits_prefix(found, pattern, i, j - 1);
        assert(found.take(j).drop_last() =~= found.take(j - 1));
        let a = import_hits(found.take(i), pattern);
        let b = import_hits(found.take(j - 1), pattern);
        let c = import_hits(found.take(j), pattern);
        assert(c.take(a.len() as int) =~= b.take(a.len() as int));
    } else {
        let a = import_hits(found.take(i), pattern);
        assert(a.take(a.len() as int) =~= a);
    }
}

/// The folders `found` by a scan that the import dialog lists for
/// `pattern`: the first twenty hits.
pub fn import_matches(found: &Vec<String>, pattern: &str) -> (r: Vec<String>)
    ensures
        ({
            let hits = import_hits(found@.map_values(|f: String| f@), pattern@);
            r@.map_values(|m: String| m@) == hits.take(if hits.len() < import_cap() { hits.len() as int } else { import_cap() as int })
        }),
{
    let ghost fv = found@.map_values(|f: String| f@);
    let lp = to_lowercase(pattern);
    let empty = pattern.unicode_len() == 0;
    let mut out: Vec<String> = Vec::new();
    let mut i: usize = 0;
    while i < found.len() && out.len() < 20
        invariant
            i <= found@.len(),
            fv == found@.map_values(|f: String| f@),
            lp@ == lowercase(pattern@),
            empty == (pattern@.len() == 0),
            out@.map_values(|m: String| m@) == import_hits(fv.take(i as int), pattern@),
            out@.len() <= 20,
        decreases found@.len() - i,
    {
        let f = found[i].as_str();
        let lf = to_lowercase(f);
        let hit = empty || contains_str(lf.as_str(), lp.as_str());
        proof {
            assert(fv[i as int] == found@[i as int]@);
            assert(fv.take(i as int + 1).drop_last() =~= fv.take(i as int));
            assert(fv.take(i as int + 1).last() == fv[i as int]);
        }
        if hit {
            out.push(found[i].clone());
            proof {
                assert(out@.map_values(|m: String| m@) =~= import_hits(fv.take(i as int), pattern@).push(fv[i as int]));
            }
        }
        i = i + 1;
    }
    proof {
        let hits = import_hits(fv, pattern@);
        let got = import_hits(fv.take(i as int), pattern@);
        assert(fv.take(fv.len() as int) =~= fv);
        lemma_hits_prefix(fv, pattern@, i as int, fv.len() as int);
        if i < found@.len() {
            assert(got.len() == 20);
            assert(hits.take(20) == got);
        } else {
            assert(got == hits);
            assert(hits.take(hits.len() as int) =~= hits);
        }
    }
    out
}

impl App {
    /// Ask the host for a fresh scan of the import dialog.
    fn import_rescan(&mut self)
        requires
            is_import(old(self).mode),
        ensures
            rescanned(*old(self), *final(self)),
    {
        let (root, pattern) = match &mut self.mode {
            Mode::StartMenu { state: StartMenuState::Import { root, buf, matches, match_idx, editing_root, .. } } => {
                *matches = Vec::new();
                *match_idx = 0;
                if *editing_root {
                    *root = buf.clone();
                    (buf.clone(), String::new())
                } else {
                    (root.clone(), buf.clone())
                }
            },
            _ => {
                return;
            },
        };
        let ghost e0 = self.effects@;
        self.effects.push(Effect::ScanImport { root, pattern });
        proof {
            assert(self.effects@.take(e0.len() as int) =~= e0);
        }
    }

    /// What `start_menu_input_char` does: `post` is `pre` after it.
    pub open spec fn start_menu_input_char_done(pre: App, post: App, c: char) -> bool {
        &&& match menu_field(pre.mode) {
                Some((buf, cursor)) => {
                    let k = char_index(buf, cursor as int);
                    let nb = buf.insert(k, c);
                    let nc = cursor + char_width(c);
                    &&& at_char(nb, nc, k + 1)
                    &&& if is_import(pre.mode) {
                        exists|mid: App|
                            #![trigger rescanned(mid, post)]
                            with_field(pre.mode, mid.mode, nb, nc) && mid == (App { mode: mid.mode, ..pre }) && rescanned(mid, post)
                    } else {
                        with_field(pre.mode, post.mode, nb, nc) && post == (App { mode: post.mode, ..pre })
                    }
                },
                None => post == pre,
            }
    }

    /// Type `c` into the text field of the start menu; in the import dialog
    /// a fresh scan is asked for.
    pub fn start_menu_input_char(&mut self, c: char)
        requires
            field_ready(old(self).mode),
        ensures
            Self::start_menu_input_char_done(*old(self), *final(self), c),
    {
        let import = is_import_state(&self.mode);
        match &mut self.mode {
            Mode::StartMenu { state: StartMenuState::NewPath { buf, cursor } } => {
                buf_insert(buf, cursor, c);
            },
            Mode::StartMenu { state: StartMenuState::NewName { buf, cursor, .. } } => {
                buf_insert(buf, cursor, c);
            },
            Mode::StartMenu { state: StartMenuState::EditSetting { buf, cursor, .. } } => {
                buf_insert(buf, cursor, c);
            },
            Mode::StartMenu { state: StartMenuState::Import { buf, cursor, .. } } => {
                buf_insert(buf, cursor, c);
            },
            _ => {
                return;
            },
        }
        if import {
            let ghost mid = *self;
            self.import_rescan();
            proof {
                assert(rescanned(mid, *self));
            }
        }
    }

    /// What `start_menu_backspace` does: `post` is `pre` after it.
    pub open spec fn start_menu_backspace_done(pre: App, post: App) -> bool {
        &&& match menu_field(pre.mode) {
                Some((buf, cursor)) => {
                    let k = char_index(buf, cursor as int);
                    if k == 0 {
                        with_field(pre.mode, post.mode, buf, cursor as int) && post == (App { mode: post.mode, ..pre })
                    } else {
                        let nb = buf.remove(k - 1);
                        let nc = cursor - char_width(buf[k - 1]);
                        &&& at_char(nb, nc, k - 1)
                        &&& if is_import(pre.mode) {
                            exists|mid: App|
                                #![trigger rescanned(mid, post)]
                                with_field(pre.mode, mid.mode, nb, nc) && mid == (App { mode: mid.mode, ..pre }) && rescanned(mid, post)
                        } else {
                            with_field(pre.mode, post.mode, nb, nc) && post == (App { mode: post.mode, ..pre })
                        }
                    }
                },
                None => post == pre,
            }
    }

    /// Delete the character before the cursor in the text field of the
    /// start menu; in the import dialog a fresh scan is asked for when a
    /// character went.
    pub fn start_menu_backspace(&mut self)
        requires
            field_ready(old(self).mode),
        ensures
            Self::start_menu_backspace_done(*old(self), *final(self)),
    {
        let import = is_import_state(&self.mode);
        let moved = match &mut self.mode {
            Mode::StartMenu { state: StartMenuState::NewPath { buf, cursor } } => {
                let before = *cursor;
                buf_backspace(buf, cursor);
                *cursor != before
            },
            Mode::StartMenu { state: StartMenuState::NewName { buf, cursor, .. } } => {
                let before = *cursor;
                buf_backspace(buf, cursor);
                *cursor != before
            },
            Mode::StartMenu { state: StartMenuState::EditSetting { buf, cursor, .. } } => {
                let before = *cursor;
                buf_backspace(buf, cursor);
                *cursor != before
            },
            Mode::StartMenu { state: StartMenuState::Import { buf, cursor, .. } } => {
                let before = *cursor;
                buf_backspace(buf, cursor);
                *cursor != before
            },
            _ => {
                return;
            },
        };
        proof {
            if let Some((b, c)) = menu_field(old(self).mode) {
                let k = char_index(b, c as int);
                if k > 0 {
                    crate::buffer::lemma_char_width(b[k - 1]);
                }
            }
        }
        if import && moved {
            let ghost mid = *self;
            self.import_rescan();
            proof {
                assert(rescanned(mid, *self));
            }
        }
    }

    /// What `start_menu_move_cursor` does: `post` is `pre` after it.
    pub open spec fn start_menu_move_cursor_done(pre: App, post: App, delta: i32) -> bool {
        &&& field_ready(post.mode)
        &&& match menu_field(pre.mode) {
                Some((buf, cursor)) => {
                    let k = char_index(buf, cursor as int);
                    let k2 = if delta < 0 {
                        if k > 0 { k - 1 } else { k }
                    } else {
                        if k < buf.len() { k + 1 } else { k }
                    };
                    &&& menu_field(post.mode) matches Some((b2, c2)) && at_char(buf, c2 as int, k2)
                        && with_field(pre.mode, post.mode, buf, c2 as int)
                    &&& post == (App { mode: post.mode, ..pre })
                },
                None => post == pre,
            }
    }

    /// Move the cursor of the start menu's text field one character left
    /// (`delta < 0`) or right.
    pub fn start_menu_move_cursor(&mut self, delta: i32)
        requires
            field_ready(old(self).mode),
        ensures
            Self::start_menu_move_cursor_done(*old(self), *final(self), delta),
    {
        match &mut self.mode {
            Mode::StartMenu { state: StartMenuState::NewPath { buf, cursor } } => {
                move_cursor_in_buf(buf.as_str(), cursor, delta);
            },
            Mode::StartMenu { state: StartMenuState::NewName { buf, cursor, .. } } => {
                move_cursor_in_buf(buf.as_str(), cursor, delta);
            },
            Mode::StartMenu { state: StartMenuState::EditSetting { buf, cursor, .. } } => {
                move_cursor_in_buf(buf.as_str(), cursor, delta);
            },
            Mode::StartMenu { state: StartMenuState::Import { buf, cursor, .. } } => {
                move_cursor_in_buf(buf.as_str(), cursor, delta);
            },
            _ => {},
        }
    }
}

/// Whether the state is the import dialog.
fn is_import_state(mode: &Mode) -> (r: bool)
    ensures
        r == is_import(*mode),
{
    match mode {
        Mode::StartMenu { state: StartMenuState::Import { .. } } => true,
        _ => false,
    }
}

/// `b` is `a` with the import dialog open on the default projects folder,
/// a scan of it asked of the host.
pub open spec fn import_opened(a: App, b: App) -> bool {
    &&& b.mode matches Mode::StartMenu { state: StartMenuState::Import { root, buf, cursor, matches, match_idx, editing_root } }
        && root@ == a.settings.default_projects_path@ && buf@.len() == 0 && cursor == 0
        && matches@.len() == 0 && match_idx == 0 && !editing_root
    &&& b.effects@.len() == a.effects@.len() + 1
    &&& b.effects@.take(a.effects@.len() as int) == a.effects@
    &&& b.effects@.last() matches Effect::ScanImport { root, pattern }
        && root@ == a.settings.default_projects_path@ && pattern@.len() == 0
    &&& b == (App { mode: b.mode, effects: b.effects, ..a })
}

/// The start-menu state with its "Main" selection set to `sel`; other
/// states unchanged.
pub open spec fn main_selected(mode: Mode, sel: usize) -> Mode {
    match mode {
        Mode::StartMenu { state: StartMenuState::Main { .. } } => Mode::StartMenu { state: StartMenuState::Main { selected: sel } },
        _ => mode,
    }
}

/// The first node whose label contains `pat` (case-sensitive), or 0.
pub open spec fn first_labelled(nodes: Seq<Node>, pat: Seq<char>) -> int {
    if exists|i: int| 0 <= i < nodes.len() && has_substring((#[trigger] nodes[i]).label@, pat) {
        choose|i: int| 0 <= i < nodes.len() && has_substring((#[trigger] nodes[i]).label@, pat)
            && forall|j: int| 0 <= j < i ==> !has_substring((#[trigger] nodes[j]).label@, pat)
    } else {
        0
    }
}

/// `n` is the placeholder "location: <path>" node under `p`.
pub open spec fn location_node(n: Node, p: usize, path: Seq<char>) -> bool {
    &&& n.label@ == "location: "@ + path
    &&& n.parent == Some(p)
    &&& n.children@.len() == 0
    &&& n.links@.len() == 0
    &&& !n.collapsed
    &&& n.row == 0
    &&& n.world_x == 0
    &&& n.world_y == 0
    &&& n.world_x_end == 0
    &&& n.tags@.len() == 0
    &&& n.times@.len() == 0
    &&& !n.is_managed_note
    &&& n.managed is None
}

/// `b` is `a` with the registry `reg` saved and the start menu rebuilt for
/// it, the selection at `sel` (also in the "Main" state).
pub open spec fn menu_rebuilt(a: App, b: App, reg: Seq<crate::persistence::ProjectEntry>, sel: usize) -> bool {
    &&& b.registry.projects@ == reg
    &&& is_main_menu(b.nodes@, reg, a.settings, a.themes@, a.palette@)
    &&& b.effects@ == a.effects@.push(Effect::SaveRegistry)
    &&& b.selected == sel
    &&& b.mode == main_selected(a.mode, sel)
    &&& b == (App { nodes: b.nodes, registry: b.registry, effects: b.effects, selected: sel, mode: b.mode, ..a })
}

/// Where the selection lands after project `k` is removed from a registry
/// that then holds `count` projects: the project now at `k` (or the last
/// one), or the first menu node when none is left.
pub open spec fn after_removal(k: int, count: int) -> usize {
    if count > 0 {
        (1 + if k < count - 1 { k } else { count - 1 }) as usize
    } else {
        0
    }
}

impl App {
    /// What `start_menu_cancel` does: `post` is `pre` after it.
    pub open spec fn start_menu_cancel_done(pre: App, post: App) -> bool {
        &&& pre.project_path is Some ==> post == (App { mode: Mode::Canvas { state: CanvasState::Browse }, ..pre })
        &&& pre.project_path is None ==> {
                &&& is_main_menu(post.nodes@, pre.registry.projects@, pre.settings, pre.themes@, pre.palette@)
                &&& post == (App {
                    nodes: post.nodes,
                    mode: Mode::StartMenu { state: StartMenuState::Main { selected: 0 } },
                    ..pre
                })
            }
        &&& forest(post.nodes@) || post.nodes == pre.nodes
    }

    /// Leave the start menu's dialog: back to the open project's canvas, or
    /// to a fresh start menu when none is open.
    pub fn start_menu_cancel(&mut self)
        requires
            old(self).registry.projects@.len() + old(self).themes@.len() + 9 <= i32::MAX,
        ensures
            Self::start_menu_cancel_done(*old(self), *final(self)),
    {
        if self.project_path.is_some() {
            self.mode = Mode::Canvas { state: CanvasState::Browse };
        } else {
            self.init_main_menu_nodes();
            self.mode = Mode::StartMenu { state: StartMenuState::Main { selected: 0 } };
        }
    }

    /// Start editing the path of the selected project.
    pub fn start_menu_edit_path(&mut self)
        requires
            (old(self).selected as int) < old(self).nodes@.len(),
            forest(old(self).nodes@),
        ensures
            match project_of(*old(self), old(self).selected) {
                Some(k) => editing(*old(self), *final(self), "repath_project:"@ + decimal(k as nat), old(self).registry.projects@[k].path@),
                None => *final(self) == *old(self),
            },
    {
        match self.project_index(self.selected) {
            Some(k) => {
                let buf = self.registry.projects[k].path.clone();
                let cursor = byte_len(&buf);
                let mut key = String::from_str("repath_project:");
                key.append(decimal_string(k as u64).as_str());
                self.mode = Mode::StartMenu { state: StartMenuState::EditSetting { key, buf, cursor } };
            },
            None => {},
        }
    }

    /// Open the import dialog on the default projects folder and ask the
    /// host for every project under it.
    pub fn start_menu_import(&mut self)
        ensures
            import_opened(*old(self), *final(self)),
    {
        let root = self.settings.default_projects_path.clone();
        let ghost e0 = self.effects@;
        self.effects.push(Effect::ScanImport { root: root.clone(), pattern: String::new() });
        self.mode = Mode::StartMenu {
            state: StartMenuState::Import { root, buf: String::new(), cursor: 0, matches: Vec::new(), match_idx: 0, editing_root: false },
        };
        proof {
            assert(self.effects@.take(e0.len() as int) =~= e0);
        }
    }

    /// The host's answer to a scan of the import dialog: the project
    /// folders it found, in walk order.  The dialog lists those that match
    /// what was typed (all of them while the root is being edited).
    pub fn start_menu_import_found(&mut self, found: Vec<String>)
        ensures
            match old(self).mode {
                Mode::StartMenu { state: StartMenuState::Import { root, buf, cursor, editing_root, .. } } => {
                    let pattern = if editing_root { Seq::<char>::empty() } else { buf@ };
                    let hits = import_hits(found@.map_values(|f: String| f@), pattern);
                    &&& final(self).mode matches Mode::StartMenu { state: StartMenuState::Import { root: r2, buf: b2, cursor: c2, matches, match_idx, editing_root: e2 } }
                        && r2 == root && b2 == buf && c2 == cursor && e2 == editing_root && match_idx == 0
                        && matches@.map_values(|m: String| m@) == hits.take(if hits.len() < import_cap() { hits.len() as int } else { import_cap() as int })
                    &&& *final(self) == (App { mode: final(self).mode, ..*old(self) })
                },
                _ => *final(self) == *old(self),
            },
    {
        let m = match &self.mode {
            Mode::StartMenu { state: StartMenuState::Import { buf, editing_root, .. } } => {
                if *editing_root {
                    import_matches(&found, "")
                } else {
                    import_matches(&found, buf.as_str())
                }
            },
            _ => {
                return;
            },
        };
        proof {
            reveal_strlit("");
            assert(""@ =~= Seq::<char>::empty());
        }
        match &mut self.mode {
            Mode::StartMenu { state: StartMenuState::Import { matches, match_idx, .. } } => {
                *matches = m;
                *match_idx = 0;
            },
            _ => {},
        }
    }

    /// What `start_menu_import_toggle_root` does: `post` is `pre` after it.
    pub open spec fn start_menu_import_toggle_root_done(pre: App, post: App) -> bool {
        &&& match pre.mode {
                Mode::StartMenu { state: StartMenuState::Import { root, matches, match_idx, editing_root, .. } } => {
                    let text = if !editing_root { root@ } else { Seq::<char>::empty() };
                    &&& post.mode matches Mode::StartMenu { state: StartMenuState::Import { root: r2, buf, cursor, matches: m2, match_idx: i2, editing_root: e2 } }
                        && r2 == root && m2 == matches && i2 == match_idx && e2 == !editing_root
                        && buf@ == text && at_char(text, cursor as int, text.len() as int)
                    &&& post == (App { mode: post.mode, ..pre })
                },
                _ => post == pre,
            }
    }

    /// Switch the import dialog between filtering by name and editing the
    /// root folder; the text field starts from the root when editing it and
    /// empty otherwise.
    pub fn start_menu_import_toggle_root(&mut self)
        ensures
            Self::start_menu_import_toggle_root_done(*old(self), *final(self)),
    {
        match &mut self.mode {
            Mode::StartMenu { state: StartMenuState::Import { root, buf, cursor, editing_root, .. } } => {
                *editing_root = !*editing_root;
                if *editing_root {
                    *buf = root.clone();
                } else {
                    *buf = String::new();
                }
                proof {
                    assert(Seq::<char>::empty().take(0) =~= Seq::<char>::empty());
                }
                *cursor = byte_len(buf);
            },
            _ => {},
        }
    }

    /// What `start_menu_import_next` does: `post` is `pre` after it.
    pub open spec fn start_menu_import_next_done(pre: App, post: App) -> bool {
        &&& match pre.mode {
                Mode::StartMenu { state: StartMenuState::Import { root, buf, cursor, matches, match_idx, editing_root } } => {
                    &&& matches@.len() > 0 ==> post.mode == (Mode::StartMenu {
                        state: StartMenuState::Import { root, buf, cursor, matches, match_idx: ((match_idx + 1) % (matches@.len() as int)) as usize, editing_root },
                    })
                    &&& matches@.len() == 0 ==> post.mode == pre.mode
                    &&& post == (App { mode: post.mode, ..pre })
                },
                _ => post == pre,
            }
    }

    /// Select the next match of the import dialog, wrapping around.
    pub fn start_menu_import_next(&mut self)
        requires
            mode_ok(old(self).mode, old(self).nodes@),
        ensures
            Self::start_menu_import_next_done(*old(self), *final(self)),
    {
        match &mut self.mode {
            Mode::StartMenu { state: StartMenuState::Import { matches, match_idx, .. } } => {
                if matches.len() > 0 {
                    let n = matches.len();
                    proof {
                        if *match_idx + 1 < n {
                            vstd::arithmetic::div_mod::lemma_small_mod((*match_idx + 1) as nat, n as nat);
                        } else {
                            vstd::arithmetic::div_mod::lemma_mod_self_0(n as int);
                        }
                    }
                    *match_idx = if *match_idx + 1 < n { *match_idx + 1 } else { 0 };
                }
            },
            _ => {},
        }
    }

    /// What `start_menu_import_prev` does: `post` is `pre` after it.
    pub open spec fn start_menu_import_prev_done(pre: App, post: App) -> bool {
        &&& match pre.mode {
                Mode::StartMenu { state: StartMenuState::Import { root, buf, cursor, matches, match_idx, editing_root } } => {
                    &&& matches@.len() > 0 ==> post.mode == (Mode::StartMenu {
                        state: StartMenuState::Import {
                            root,
                            buf,
                            cursor,
                            matches,
                            match_idx: ((match_idx + matches@.len() - 1) % (matches@.len() as int)) as usize,
                            editing_root,
                        },
                    })
                    &&& matches@.len() == 0 ==> post.mode == pre.mode
                    &&& post == (App { mode: post.mode, ..pre })
                },
                _ => post == pre,
            }
    }

    /// Select the previous match of the import dialog, wrapping around.
    pub fn start_menu_import_prev(&mut self)
        requires
            mode_ok(old(self).mode, old(self).nodes@),
        ensures
            Self::start_menu_import_prev_done(*old(self), *final(self)),
    {
        match &mut self.mode {
            Mode::StartMenu { state: StartMenuState::Import { matches, match_idx, .. } } => {
                if matches.len() > 0 {
                    let n = matches.len();
                    proof {
                        assert(*match_idx < n);
                        if *match_idx > 0 {
                            assert((*match_idx + n - 1) % (n as int) == *match_idx - 1) by {
                                vstd::arithmetic::div_mod::lemma_mod_multiples_vanish(1, (*match_idx - 1) as int, n as int);
                                vstd::arithmetic::div_mod::lemma_small_mod((*match_idx - 1) as nat, n as nat);
                            }
                        } else {
                            vstd::arithmetic::div_mod::lemma_small_mod((n - 1) as nat, n as nat);
                        }
                    }
                    *match_idx = if *match_idx > 0 { *match_idx - 1 } else { n - 1 };
                }
            },
            _ => {},
        }
    }
}

/// `b` is `a` after starting a new project from the start menu: a
/// "location: <path>" entry appears under the first "+ New" node (which
/// unfolds) and becomes the selection, and the path is being edited from
/// the default projects folder.
pub open spec fn new_started(a: App, b: App) -> bool {
    let t = first_labelled(a.nodes@, "+ New"@);
    let id = a.nodes@.len() as int;
    let path = a.settings.default_projects_path@;
    &&& b.nodes@.len() == id + 1
    &&& location_node(b.nodes@[id], t as usize, path)
    &&& b.nodes@[t] == (Node { children: b.nodes@[t].children, collapsed: false, ..a.nodes@[t] })
    &&& b.nodes@[t].children@ == a.nodes@[t].children@.push(id as usize)
    &&& forall|i: int| 0 <= i < id && i != t ==> #[trigger] b.nodes@[i] == a.nodes@[i]
    &&& b.mode matches Mode::StartMenu { state: StartMenuState::NewPath { buf, cursor } } && buf@ == path
        && at_char(path, cursor as int, path.len() as int)
    &&& b == (App { nodes: b.nodes, selected: id as usize, mode: b.mode, ..a })
}

/// The first node whose label contains `pat`, or 0.
fn find_labelled(nodes: &Vec<Node>, pat: &str) -> (r: usize)
    ensures
        r as int == first_labelled(nodes@, pat@),
        nodes@.len() > 0 ==> (r as int) < nodes@.len(),
{
    let mut i: usize = 0;
    while i < nodes.len()
        invariant
            i <= nodes@.len(),
            forall|j: int| 0 <= j < i ==> !has_substring((#[trigger] nodes@[j]).label@, pat@),
        decreases nodes@.len() - i,
    {
        if contains_str(nodes[i].label.as_str(), pat) {
            proof {
                let m = choose|m: int| 0 <= m < nodes@.len() && has_substring((#[trigger] nodes@[m]).label@, pat@)
                    && forall|j: int| 0 <= j < m ==> !has_substring((#[trigger] nodes@[j]).label@, pat@);
                if m < i {
                    assert(!has_substring(nodes@[m].label@, pat@));
                } else if m > i {
                    assert(!has_substring(nodes@[i as int].label@, pat@));
                }
            }
            return i;
        }
        i = i + 1;
    }
    proof {
        if exists|j: int| 0 <= j < nodes@.len() && has_substring((#[trigger] nodes@[j]).label@, pat@) {
            let m = choose|j: int| 0 <= j < nodes@.len() && has_substring((#[trigger] nodes@[j]).label@, pat@);
            assert(!has_substring(nodes@[m].label@, pat@));
        }
    }
    0
}

impl App {
    /// Start a new project from the start menu: a "location: <path>" entry
    /// appears under "+ New" (which unfolds) and becomes the selection, and
    /// the path is edited, starting from the default projects folder.
    #[verifier::rlimit(40)]
    pub fn start_menu_start_new(&mut self)
        requires
            old(self).wf(),
            old(self).nodes@.len() > 0,
            old(self).nodes@.len() < usize::MAX,
        ensures
            final(self).wf(),
            new_started(*old(self), *final(self)),
    {
        proof {
            reveal_strlit("+ New");
            reveal_strlit("location: ");
        }
        let t = find_labelled(&self.nodes, "+ New");
        let mut label = String::from_str("location: ");
        label.append(self.settings.default_projects_path.as_str());
        let node = Node {
            label,
            parent: Some(t),
            children: Vec::new(),
            links: Vec::new(),
            collapsed: false,
            row: 0,
            world_x: 0,
            world_y: 0,
            world_x_end: 0,
            tags: Vec::new(),
            times: Vec::new(),
            is_managed_note: false,
            managed: None,
        };
        let ghost before = self.nodes@;
        let id = crate::forest::push_child(&mut self.nodes, node, t);
        let ghost pushed = self.nodes@;
        self.nodes[t].collapsed = false;
        proof {
            crate::layout::lemma_forest_same_shape(pushed, self.nodes@);
        }
        self.selected = id;
        let buf = self.settings.default_projects_path.clone();
        let cursor = byte_len(&buf);
        self.mode = Mode::StartMenu { state: StartMenuState::NewPath { buf, cursor } };
    }

    /// What `start_menu_remove_selected` does: `post` is `pre` after it.
    pub open spec fn start_menu_remove_selected_done(pre: App, post: App) -> bool {
        &&& post.wf()
        &&& !under_open(pre, pre.selected) ==> post == pre
        &&& under_open(pre, pre.selected) ==> {
                let q = pre.nodes@[pre.selected as int].parent->0;
                let k = pre.nodes@[q as int].children@.index_of(pre.selected);
                let ps = pre.registry.projects@;
                let reg = if k < ps.len() { ps.remove(k) } else { ps };
                menu_rebuilt(pre, post, reg, after_removal(k, reg.len() as int))
            }
    }

    /// Forget the selected project of the start menu: it leaves the
    /// registry (which is saved), the menu is rebuilt and the selection
    /// moves to the project now in its place (or the last one, or the top).
    /// Nothing happens when the selection is no project.
    pub fn start_menu_remove_selected(&mut self)
        requires
            old(self).wf(),
            (old(self).selected as int) < old(self).nodes@.len(),
            old(self).registry.projects@.len() + old(self).themes@.len() + 9 <= i32::MAX,
        ensures
            Self::start_menu_remove_selected_done(*old(self), *final(self)),
    {
        let node_id = self.selected;
        let q = match self.nodes[node_id].parent {
            Some(q) => q,
            None => {
                return;
            },
        };
        let pl = to_lowercase(self.nodes[q].label.as_str());
        proof {
            reveal_strlit("open");
        }
        if !contains_str(pl.as_str(), "open") {
            return;
        }
        let k = match position_of(&self.nodes[q].children, node_id) {
            Some(k) => k,
            None => {
                proof {
                    assert(self.nodes@[q as int].children@.contains(node_id));
                }
                return;
            },
        };
        proof {
            let cs = self.nodes@[q as int].children@;
            assert(cs.no_duplicates());
            assert(cs[cs.index_of(node_id)] == node_id);
        }
        self.registry.remove_at(k);
        self.effects.push(Effect::SaveRegistry);
        self.init_main_menu_nodes();
        let count = self.registry.projects.len();
        let sel = if count > 0 {
            let j = if k < count - 1 { k } else { count - 1 };
            proof {
                let m = self.nodes@[0];
                assert(m.children@[j as int] == (1 + j) as usize);
            }
            self.nodes[0].children[j]
        } else {
            0
        };
        self.selected = sel;
        match &mut self.mode {
            Mode::StartMenu { state: StartMenuState::Main { selected } } => {
                *selected = sel;
            },
            _ => {},
        }
    }
}

} // verus!
