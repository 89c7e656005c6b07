//! The canvas sub-states: new root nodes, carrying nodes around, links,
//! status tags and jumping along links.

use vstd::prelude::*;
use crate::app::{canvas_ok, mode_ok, nearest_node, App};
use crate::buffer::{at_char, buf_backspace, buf_insert, move_cursor_in_buf, buf_ok, char_index, char_width};
use crate::forest::{forest, move_node, moved_to, position_of};
use crate::managed::pushed_then;
use crate::mode::{CanvasState, InputAction, Mode};
use crate::models::Node;
use crate::layout::contains_index;

verus! {

/// The buffer and cursor of the canvas sub-state that edits text (a new
/// node's label, a carried node's target coordinates or a search).
pub open spec fn canvas_buf(mode: Mode) -> Option<(Seq<char>, usize)> {
    match mode {
        Mode::Canvas { state: CanvasState::New { buf, text_cursor } } => Some((buf@, text_cursor)),
        Mode::Canvas { state: CanvasState::Pick { buf, cursor, .. } } => Some((buf@, cursor)),
        Mode::Canvas { state: CanvasState::Goto { buf, cursor, .. } } => Some((buf@, cursor)),
        _ => None,
    }
}

/// The canvas text buffer fits the editing functions.
pub open spec fn canvas_buf_ready(mode: Mode) -> bool {
    match canvas_buf(mode) {
        Some((buf, cursor)) => buf_ok(buf, cursor as int),
        None => true,
    }
}

/// `b` is `a` with its canvas text buffer and cursor replaced, everything
/// else of the sub-state kept.
pub open spec fn canvas_buf_now(a: Mode, b: Mode, buf: Seq<char>, cursor: int) -> bool {
    match (a, b) {
        (
            Mode::Canvas { state: CanvasState::New { .. } },
            Mode::Canvas { state: CanvasState::New { buf: b2, text_cursor: c2 } },
        ) => b2@ == buf && c2 == cursor,
        (
            Mode::Canvas { state: CanvasState::Pick { origin_id, origin_x, origin_y, .. } },
            Mode::Canvas { state: CanvasState::Pick { origin_id: o2, origin_x: x2, origin_y: y2, buf: b2, cursor: c2 } },
        ) => o2 == origin_id && x2 == origin_x && y2 == origin_y && b2@ == buf && c2 == cursor,
        _ => false,
    }
}

/// Whether `links` holds `t`.
pub open spec fn links_to(links: Seq<usize>, t: usize) -> bool {
    links.contains(t)
}

/// `s` with every occurrence of `t` taken out.
pub open spec fn without(s: Seq<usize>, t: usize) -> Seq<usize>
    decreases s.len(),
{
    if s.len() == 0 {
        s
    } else {
        let r = without(s.drop_last(), t);
        if s.last() == t {
            r
        } else {
            r.push(s.last())
        }
    }
}

/// `links` with `t` toggled: taken out when present, added last otherwise.
pub open spec fn toggled(links: Seq<usize>, t: usize) -> Seq<usize> {
    if links.contains(t) {
        without(links, t)
    } else {
        links.push(t)
    }
}

proof fn lemma_without_absent(s: Seq<usize>, t: usize)
    requires
        !s.contains(t),
    ensures
        without(s, t) == s,
    decreases s.len(),
{
    if s.len() > 0 {
        assert(!s.drop_last().contains(t)) by {
            if s.drop_last().contains(t) {
                let j = choose|j: int| 0 <= j < s.drop_last().len() && s.drop_last()[j] == t;
                assert(s[j] == t);
            }
        }
        lemma_without_absent(s.drop_last(), t);
        assert(s.last() != t) by {
            assert(s[s.len() - 1] == s.last());
        }
        assert(s.drop_last().push(s.last()) =~= s);
    }
}

proof fn lemma_without_members(s: Seq<usize>, t: usize)
    ensures
        forall|x: usize| #[trigger] without(s, t).contains(x) ==> s.contains(x) && x != t,
    decreases s.len(),
{
    if s.len() > 0 {
        lemma_without_members(s.drop_last(), t);
        assert forall|x: usize| #[trigger] without(s, t).contains(x) implies s.contains(x) && x != t by {
            let r = without(s.drop_last(), t);
            if r.contains(x) {
                let j = choose|j: int| 0 <= j < s.drop_last().len() && s.drop_last()[j] == x;
                assert(s[j] == x);
            } else {
                assert(x == s.last());
                assert(s[s.len() - 1] == x);
            }
        }
    }
}

/// Toggling a link twice gives the links back, provided the list holds no
/// target twice.
pub proof fn lemma_toggle_twice(links: Seq<usize>, t: usize)
    requires
        links.no_duplicates(),
        !links.contains(t),
    ensures
        toggled(toggled(links, t), t) == links,
{
    let p = links.push(t);
    assert(p.contains(t)) by {
        assert(p[links.len() as int] == t);
    }
    assert(p.drop_last() =~= links);
    lemma_without_absent(links, t);
}

impl App {
    /// What `canvas_start_new` does: `post` is `pre` after it.
    pub open spec fn canvas_start_new_done(pre: App, post: App) -> bool {
        &&& pre.mode == (Mode::Canvas { state: CanvasState::Browse }) ==> {
                &&& post.mode matches Mode::Canvas { state: CanvasState::New { buf, text_cursor } } && buf@.len()
                    == 0 && text_cursor == 0
                &&& post == (App { mode: post.mode, ..pre })
                &&& canvas_ok(post.mode->Canvas_state, post.nodes@)
            }
        &&& pre.mode != (Mode::Canvas { state: CanvasState::Browse }) ==> post == pre
    }

    /// From browsing: start typing a new root node at the cursor.
    pub fn canvas_start_new(&mut self)
        ensures
            Self::canvas_start_new_done(*old(self), *final(self)),
    {
        if let Mode::Canvas { state: CanvasState::Browse } = self.mode {
            self.mode = Mode::Canvas { state: CanvasState::New { buf: String::new(), text_cursor: 0 } };
            proof {
                assert(Seq::<char>::empty().take(0) =~= Seq::<char>::empty());
                assert(at_char(Seq::<char>::empty(), 0, 0)) by {
                    assert(vstd::utf8::encode_utf8(Seq::<char>::empty()) =~= Seq::<u8>::empty());
                }
            }
        }
    }

    /// What `canvas_new_char` does: `post` is `pre` after it.
    pub open spec fn canvas_new_char_done(pre: App, post: App, c: char) -> bool {
        &&& match pre.mode {
                Mode::Canvas { state: CanvasState::New { buf, text_cursor } } => {
                    let k = char_index(buf@, text_cursor as int);
                    &&& canvas_buf_now(pre.mode, post.mode, buf@.insert(k, c), text_cursor + char_width(c))
                    &&& at_char(buf@.insert(k, c), text_cursor + char_width(c), k + 1)
                    &&& post == (App { mode: post.mode, ..pre })
                },
                _ => post == pre,
            }
    }

    /// Type `c` into the new node's label.
    pub fn canvas_new_char(&mut self, c: char)
        requires
            canvas_buf_ready(old(self).mode),
        ensures
            Self::canvas_new_char_done(*old(self), *final(self), c),
    {
        match &mut self.mode {
            Mode::Canvas { state: CanvasState::New { buf, text_cursor } } => {
                buf_insert(buf, text_cursor, c);
            },
            _ => {},
        }
    }

    /// What `canvas_new_backspace` does: `post` is `pre` after it.
    pub open spec fn canvas_new_backspace_done(pre: App, post: App) -> bool {
        &&& canvas_buf_ready(post.mode)
        &&& match pre.mode {
                Mode::Canvas { state: CanvasState::New { buf, text_cursor } } => {
                    let k = char_index(buf@, text_cursor as int);
                    &&& k == 0 ==> canvas_buf_now(pre.mode, post.mode, buf@, text_cursor as int)
                    &&& k > 0 ==> canvas_buf_now(pre.mode, post.mode, buf@.remove(k - 1), text_cursor - char_width(buf@[k - 1]))
                    &&& post == (App { mode: post.mode, ..pre })
                },
                _ => post == pre,
            }
    }

    /// Delete the character before the cursor of the new node's label.
    pub fn canvas_new_backspace(&mut self)
        requires
            canvas_buf_ready(old(self).mode),
        ensures
            Self::canvas_new_backspace_done(*old(self), *final(self)),
    {
        match &mut self.mode {
            Mode::Canvas { state: CanvasState::New { buf, text_cursor } } => {
                buf_backspace(buf, text_cursor);
            },
            _ => {},
        }
    }

    /// What `canvas_new_move_cursor` does: `post` is `pre` after it.
    pub open spec fn canvas_new_move_cursor_done(pre: App, post: App, delta: i32) -> bool {
        &&& canvas_buf_ready(post.mode)
        &&& match pre.mode {
                Mode::Canvas { state: CanvasState::New { buf, text_cursor } } => {
                    let k = char_index(buf@, text_cursor as int);
                    let k2 = if delta < 0 {
                        if k > 0 { k - 1 } else { k }
                    } else {
                        if k < buf@.len() { k + 1 } else { k }
                    };
                    &&& post.mode matches Mode::Canvas { state: CanvasState::New { buf: b2, text_cursor: c2 } }
                    &&& post.mode->Canvas_state->New_buf@ == buf@
                    &&& at_char(buf@, post.mode->Canvas_state->New_text_cursor as int, k2)
                    &&& post == (App { mode: post.mode, ..pre })
                },
                _ => post == pre,
            }
    }

    /// Move the cursor of the new node's label one character left
    /// (`delta < 0`) or right.
    pub fn canvas_new_move_cursor(&mut self, delta: i32)
        requires
            canvas_buf_ready(old(self).mode),
        ensures
            Self::canvas_new_move_cursor_done(*old(self), *final(self), delta),
    {
        match &mut self.mode {
            Mode::Canvas { state: CanvasState::New { buf, text_cursor } } => {
                move_cursor_in_buf(buf.as_str(), text_cursor, delta);
            },
            _ => {},
        }
    }

    /// What `canvas_pick_char` does: `post` is `pre` after it.
    pub open spec fn canvas_pick_char_done(pre: App, post: App, c: char) -> bool {
        &&& match pre.mode {
                Mode::Canvas { state: CanvasState::Pick { buf, cursor, .. } } => {
                    let k = char_index(buf@, cursor as int);
                    &&& canvas_buf_now(pre.mode, post.mode, buf@.insert(k, c), cursor + char_width(c))
                    &&& at_char(buf@.insert(k, c), cursor + char_width(c), k + 1)
                    &&& post == (App { mode: post.mode, ..pre })
                },
                _ => post == pre,
            }
    }

    /// Type `c` into the coordinates typed while carrying a node.
    pub fn canvas_pick_char(&mut self, c: char)
        requires
            canvas_buf_ready(old(self).mode),
        ensures
            Self::canvas_pick_char_done(*old(self), *final(self), c),
    {
        match &mut self.mode {
            Mode::Canvas { state: CanvasState::Pick { buf, cursor, .. } } => {
                buf_insert(buf, cursor, c);
            },
            _ => {},
        }
    }

    /// What `canvas_pick_backspace` does: `post` is `pre` after it.
    pub open spec fn canvas_pick_backspace_done(pre: App, post: App) -> bool {
        &&& canvas_buf_ready(post.mode)
        &&& match pre.mode {
                Mode::Canvas { state: CanvasState::Pick { buf, cursor, .. } } => {
                    let k = char_index(buf@, cursor as int);
                    &&& k == 0 ==> canvas_buf_now(pre.mode, post.mode, buf@, cursor as int)
                    &&& k > 0 ==> canvas_buf_now(pre.mode, post.mode, buf@.remove(k - 1), cursor - char_width(buf@[k - 1]))
                    &&& post == (App { mode: post.mode, ..pre })
                },
                _ => post == pre,
            }
    }

    /// Delete the character before the cursor of the typed coordinates.
    pub fn canvas_pick_backspace(&mut self)
        requires
            canvas_buf_ready(old(self).mode),
        ensures
            Self::canvas_pick_backspace_done(*old(self), *final(self)),
    {
        match &mut self.mode {
            Mode::Canvas { state: CanvasState::Pick { buf, cursor, .. } } => {
                buf_backspace(buf, cursor);
            },
            _ => {},
        }
    }

    /// What `canvas_start_link` does: `post` is `pre` after it.
    pub open spec fn canvas_start_link_done(pre: App, post: App) -> bool {
        &&& pre.has_selection_spec() ==> post == (App {
                mode: Mode::Canvas { state: CanvasState::Link { origin_id: pre.selected } },
                ..pre
            })
        &&& !pre.has_selection_spec() ==> post == pre
    }

    /// Start linking from the selected node.
    pub fn canvas_start_link(&mut self)
        ensures
            Self::canvas_start_link_done(*old(self), *final(self)),
    {
        if !self.has_selection() {
            return;
        }
        self.mode = Mode::Canvas { state: CanvasState::Link { origin_id: self.selected } };
    }

    /// What `canvas_start_status_tagging` does: `post` is `pre` after it.
    pub open spec fn canvas_start_status_tagging_done(pre: App, post: App) -> bool {
        &&& pre.has_selection_spec() ==> post == (App {
                mode: Mode::Canvas { state: CanvasState::TagStatus },
                ..pre
            })
        &&& !pre.has_selection_spec() ==> post == pre
    }

    /// Start choosing a status tag for the selected node.
    pub fn canvas_start_status_tagging(&mut self)
        ensures
            Self::canvas_start_status_tagging_done(*old(self), *final(self)),
    {
        if !self.has_selection() {
            return;
        }
        self.mode = Mode::Canvas { state: CanvasState::TagStatus };
    }

    /// What `canvas_confirm_link` does: `post` is `pre` after it.
    pub open spec fn canvas_confirm_link_done(pre: App, post: App) -> bool {
        &&& post.wf()
        &&& match pre.mode {
                Mode::Canvas { state: CanvasState::Link { origin_id } } => {
                    let near = choose|r: Option<usize>| nearest_node(
                        pre.nodes@,
                        pre.cursor_x as int,
                        pre.cursor_y as int,
                        r,
                    );
                    match near {
                        Some(t) => if t != origin_id {
                            exists|b: App|
                                #[trigger] pushed_then(pre, b) && {
                                    let on = b.nodes@;
                                    &&& post.nodes@ == on.update(
                                        origin_id as int,
                                        Node { links: post.nodes@[origin_id as int].links, ..on[origin_id as int] },
                                    )
                                    &&& post.nodes@[origin_id as int].links@ == toggled(on[origin_id as int].links@, t)
                                    &&& post == (App {
                                        nodes: post.nodes,
                                        mode: Mode::Canvas { state: CanvasState::Browse },
                                        ..b
                                    })
                                }
                        } else {
                            post == (App { mode: Mode::Canvas { state: CanvasState::Browse }, ..pre })
                        },
                        None => post == (App { mode: Mode::Canvas { state: CanvasState::Browse }, ..pre }),
                    }
                },
                _ => post == pre,
            }
    }

    /// Toggle the link from the link origin to the node nearest the cursor
    /// (added when absent, removed when present), then browse again.  The
    /// state is pushed for undo first; nothing changes when the cursor is on
    /// the origin itself or in empty space.
    pub fn canvas_confirm_link(&mut self)
        requires
            old(self).wf(),
            mode_ok(old(self).mode, old(self).nodes@),
        ensures
            Self::canvas_confirm_link_done(*old(self), *final(self)),
    {
        let origin_id = match self.mode {
            Mode::Canvas { state: CanvasState::Link { origin_id } } => origin_id,
            _ => return,
        };
        let near = self.node_near_cursor(self.cursor_x, self.cursor_y);
        proof {
            crate::app::lemma_nearest_unique(self.nodes@, self.cursor_x as int, self.cursor_y as int, near);
        }
        if let Some(t) = near {
            if t != origin_id {
                self.push_undo();
                let ghost b = *self;
                proof {
                    assert(pushed_then(*old(self), b));
                }
                let links = toggle_link(&self.nodes[origin_id].links, t);
                proof {
                    let ol = b.nodes@[origin_id as int].links@;
                    lemma_without_members(ol, t);
                    assert forall|k: int| 0 <= k < links@.len() implies (#[trigger] links@[k] as int) < b.nodes@.len() by {
                        let x = links@[k];
                        assert(links@.contains(x));
                        if ol.contains(t) {
                            assert(ol.contains(x));
                        } else if k < ol.len() {
                            assert(links@[k] == ol[k]);
                        }
                        if ol.contains(x) {
                            let j = choose|j: int| 0 <= j < ol.len() && ol[j] == x;
                            assert(b.nodes@[origin_id as int].links@[j] == x);
                        }
                    }
                }
                self.nodes[origin_id].links = links;
                proof {
                    assert(self.nodes@ == b.nodes@.update(origin_id as int, self.nodes@[origin_id as int]));
                    assert(forest(self.nodes@)) by {
                        lemma_links_edit_forest(b.nodes@, self.nodes@, origin_id as int);
                    }
                }
            }
        }
        self.mode = Mode::Canvas { state: CanvasState::Browse };
    }

    /// What `canvas_cancel_sub` does: `post` is `pre` after it.
    pub open spec fn canvas_cancel_sub_done(pre: App, post: App) -> bool {
        &&& post.wf()
        &&& match pre.mode {
                Mode::Canvas { state: CanvasState::Pick { origin_id, origin_x, origin_y, .. } } => post == (App {
                    nodes: post.nodes,
                    mode: Mode::Canvas { state: CanvasState::Browse },
                    ..pre
                }) && post.nodes@ == pre.nodes@.update(
                    origin_id as int,
                    Node { world_x: origin_x, world_y: origin_y, ..pre.nodes@[origin_id as int] },
                ),
                _ => post == (App { mode: Mode::Canvas { state: CanvasState::Browse }, ..pre }),
            }
    }

    /// Leave a sub-state for browsing; a carried node goes back to where it
    /// was picked up.
    pub fn canvas_cancel_sub(&mut self)
        requires
            old(self).wf(),
            mode_ok(old(self).mode, old(self).nodes@),
        ensures
            Self::canvas_cancel_sub_done(*old(self), *final(self)),
    {
        if let Mode::Canvas { state: CanvasState::Pick { origin_id, origin_x, origin_y, .. } } = self.mode {
            let ghost before = self.nodes@;
            self.nodes[origin_id].world_x = origin_x;
            self.nodes[origin_id].world_y = origin_y;
            proof {
                crate::layout::lemma_forest_same_shape(before, self.nodes@);
                assert(self.nodes@ =~= before.update(
                    origin_id as int,
                    Node { world_x: origin_x, world_y: origin_y, ..before[origin_id as int] },
                ));
            }
        }
        self.mode = Mode::Canvas { state: CanvasState::Browse };
    }

    /// What `canvas_jump_link` does: `post` is `pre` after it.
    pub open spec fn canvas_jump_link_done(pre: App, post: App, delta: i32, canvas_w: u16, canvas_h: u16) -> bool {
        &&& !pre.has_selection_spec() ==> post == pre
        &&& pre.has_selection_spec() ==> {
                let sel = pre.selected;
                let origin = match pre.last_link_origin {
                    Some(o) => if pre.nodes@[o as int].links@.contains(sel) { o } else { sel },
                    None => sel,
                };
                let links = pre.nodes@[origin as int].links@;
                if links.len() == 0 {
                    post == pre
                } else {
                    let idx: int = if Some(origin) != pre.last_link_origin {
                        if delta > 0 { 0 } else { links.len() - 1 }
                    } else if delta > 0 {
                        (pre.last_link_idx + 1) % (links.len() as int)
                    } else {
                        (pre.last_link_idx + links.len() - 1) % (links.len() as int)
                    };
                    let t = links[idx];
                    let n = pre.nodes@[t as int];
                    &&& post.last_link_origin == Some(origin)
                    &&& post.last_link_idx == idx
                    &&& post.selected == t
                    &&& post == (App {
                        last_link_origin: post.last_link_origin,
                        last_link_idx: post.last_link_idx,
                        selected: t,
                        cursor_x: n.world_x,
                        cursor_y: n.world_y,
                        camera_x: (n.world_x - canvas_w / 2) as i32,
                        camera_y: (n.world_y - canvas_h / 2) as i32,
                        ..pre
                    })
                }
            }
    }

    /// Jump along the links of the selected node (Tab forwards, Shift-Tab
    /// backwards), cycling; while the selection is a target of the last
    /// origin, the cycle goes on through that origin's links.
    pub fn canvas_jump_link(&mut self, delta: i32, canvas_w: u16, canvas_h: u16)
        requires
            forest(old(self).nodes@),
            old(self).last_link_origin matches Some(o) ==> (o as int) < old(self).nodes@.len(),
            forall|i: int| #![trigger old(self).nodes@[i]] 0 <= i < old(self).nodes@.len() ==> {
                &&& i32::MIN <= old(self).nodes@[i].world_x - canvas_w / 2
                &&& i32::MIN <= old(self).nodes@[i].world_y - canvas_h / 2
            },
        ensures
            Self::canvas_jump_link_done(*old(self), *final(self), delta, canvas_w, canvas_h),
    {
        if !self.has_selection() {
            return;
        }
        let sel = self.selected;
        let origin = match self.last_link_origin {
            Some(o) => if contains_index(&self.nodes[o].links, sel) {
                o
            } else {
                sel
            },
            None => sel,
        };
        let len = self.nodes[origin].links.len();
        if len == 0 {
            return;
        }
        let same = match self.last_link_origin {
            Some(o) => o == origin,
            None => false,
        };
        if !same {
            self.last_link_origin = Some(origin);
            self.last_link_idx = if delta > 0 { 0 } else { len - 1 };
        } else {
            if delta > 0 {
                self.last_link_idx = ((self.last_link_idx as u128 + 1) % (len as u128)) as usize;
            } else {
                self.last_link_idx = ((self.last_link_idx as u128 + len as u128 - 1) % (len as u128)) as usize;
            }
        }
        let t = self.nodes[origin].links[self.last_link_idx];
        proof {
            assert(self.nodes@[origin as int].links@[self.last_link_idx as int] == t);
        }
        self.selected = t;
        self.center_on_selected(canvas_w, canvas_h);
    }
}

/// A link list with `t` toggled.
fn toggle_link(links: &Vec<usize>, t: usize) -> (r: Vec<usize>)
    ensures
        r@ == toggled(links@, t),
{
    let mut r: Vec<usize> = Vec::new();
    let present = contains_index(links, t);
    let mut k: usize = 0;
    while k < links.len()
        invariant
            k <= links@.len(),
            present == links@.contains(t),
            present ==> r@ == without(links@.take(k as int), t),
            !present ==> r@ == links@.take(k as int),
        decreases links@.len() - k,
    {
        let x = links[k];
        proof {
            assert(links@.take(k as int + 1).drop_last() =~= links@.take(k as int));
            assert(links@.take(k as int + 1) =~= links@.take(k as int).push(x));
        }
        if !present || x != t {
            r.push(x);
        }
        k = k + 1;
    }
    proof {
        assert(links@.take(links@.len() as int) =~= links@);
    }
    if !present {
        r.push(t);
    }
    r
}

/// Changing the links of one node to targets that are in range keeps a
/// forest a forest.
proof fn lemma_links_edit_forest(a: Seq<Node>, b: Seq<Node>, o: int)
    requires
        forest(a),
        0 <= o < a.len(),
        b == a.update(o, b[o]),
        b[o] == (Node { links: b[o].links, ..a[o] }),
        forall|k: int| 0 <= k < b[o].links@.len() ==> (#[trigger] b[o].links@[k] as int) < a.len(),
    ensures
        forest(b),
{
    assert forall|i: int| 0 <= i < a.len() implies (#[trigger] b[i]).parent == a[i].parent && b[i].children@ == a[i].children@ by {
        if i != o {
            assert(b[i] == a[i]);
        }
    }
    let rank = choose|rank: Seq<nat>| crate::forest::ranked(a, rank);
    assert(crate::forest::ranked(b, rank)) by {
        assert forall|c: int| #![trigger b[c].parent] 0 <= c < b.len() && b[c].parent is Some implies rank[b[c].parent->0 as int] < rank[c] by {
            assert(b[c].parent == a[c].parent);
        }
    }
    assert forall|c: int|
        #![trigger b[c].parent]
        0 <= c < b.len() && b[c].parent is Some implies {
            &&& (b[c].parent->0 as int) < b.len()
            &&& b[b[c].parent->0 as int].children@.contains(c as usize)
        } by {
        assert(b[c].parent == a[c].parent);
        let p = a[c].parent->0 as int;
        assert(b[p].children@ == a[p].children@);
    }
    assert forall|p: int|
        #![trigger b[p].children]
        0 <= p < b.len() implies {
            &&& b[p].children@.no_duplicates()
            &&& forall|j: int|
                #![trigger b[p].children@[j]]
                0 <= j < b[p].children@.len() ==> {
                    &&& (b[p].children@[j] as int) < b.len()
                    &&& b[b[p].children@[j] as int].parent == Some(p as usize)
                }
        } by {
        assert(b[p].children@ == a[p].children@);
        assert forall|j: int|
            #![trigger b[p].children@[j]]
            0 <= j < b[p].children@.len() implies {
                &&& (b[p].children@[j] as int) < b.len()
                &&& b[b[p].children@[j] as int].parent == Some(p as usize)
            } by {
            assert(a[p].children@[j] == b[p].children@[j]);
            let c = a[p].children@[j] as int;
            assert(b[c].parent == a[c].parent);
        }
    }
    assert forall|i: int, k: int|
        #![trigger b[i].links@[k]]
        0 <= i < b.len() && 0 <= k < b[i].links@.len() implies (b[i].links@[k] as int) < b.len() by {
        if i != o {
            assert(b[i] == a[i]);
            assert(a[i].links@[k] == b[i].links@[k]);
        }
    }
}

/// `mid` is `nodes` with node `id` detached from its parent (made a root);
/// unchanged when it already is one.
pub open spec fn detached_root(nodes: Seq<Node>, mid: Seq<Node>, id: usize) -> bool {
    if nodes[id as int].parent is Some {
        moved_to(nodes, mid, id, None, None)
    } else {
        mid == nodes
    }
}

/// Carrying node `id`, picked up from the position of `n`, with no
/// coordinates typed yet.
pub open spec fn picked(mode: Mode, id: usize, n: Node) -> bool {
    &&& mode matches Mode::Canvas { state: CanvasState::Pick { origin_id, origin_x, origin_y, buf, cursor } }
    &&& mode->Canvas_state->Pick_origin_id == id
    &&& mode->Canvas_state->Pick_origin_x == n.world_x
    &&& mode->Canvas_state->Pick_origin_y == n.world_y
    &&& mode->Canvas_state->Pick_buf@.len() == 0
    &&& mode->Canvas_state->Pick_cursor == 0
}

/// The tags of a node as text pairs.
pub open spec fn tags_view(t: Seq<(String, String)>) -> Seq<(Seq<char>, Seq<char>)> {
    t.map_values(|p: (String, String)| (p.0@, p.1@))
}

/// The index of the tag with key `key`, if any.
pub open spec fn tag_pos(t: Seq<(Seq<char>, Seq<char>)>, key: Seq<char>) -> Option<int> {
    if exists|j: int| 0 <= j < t.len() && (#[trigger] t[j]).0 == key {
        Some(choose|j: int| 0 <= j < t.len() && (#[trigger] t[j]).0 == key && forall|i: int| 0 <= i < j ==> (#[trigger] t[i]).0 != key)
    } else {
        None
    }
}

/// Tag `key` set to `value`: the first tag with that key gets the value, or
/// the tag is added last.
pub open spec fn with_tag(t: Seq<(Seq<char>, Seq<char>)>, key: Seq<char>, value: Seq<char>) -> Seq<(Seq<char>, Seq<char>)> {
    match tag_pos(t, key) {
        Some(j) => t.update(j, (key, value)),
        None => t.push((key, value)),
    }
}

/// Tag `key` removed (its first occurrence).
pub open spec fn without_tag(t: Seq<(Seq<char>, Seq<char>)>, key: Seq<char>) -> Seq<(Seq<char>, Seq<char>)> {
    match tag_pos(t, key) {
        Some(j) => t.remove(j),
        None => t,
    }
}

/// The first index of a tag with key `key`.
pub(crate) fn find_tag_key(tags: &Vec<(String, String)>, key: &str) -> (r: Option<usize>)
    ensures
        r matches Some(j) ==> tag_pos(tags_view(tags@), key@) == Some(j as int) && (j as int) < tags@.len()
            && tags_view(tags@)[j as int].0 == key@,
        r is None ==> tag_pos(tags_view(tags@), key@) is None,
{
    let mut j: usize = 0;
    while j < tags.len()
        invariant
            j <= tags@.len(),
            forall|i: int| 0 <= i < j ==> (#[trigger] tags_view(tags@)[i]).0 != key@,
        decreases tags@.len() - j,
    {
        let k = String::from_str(key);
        if tags[j].0 == k {
            proof {
                let t = tags_view(tags@);
                assert(t[j as int].0 == key@);
                let c = choose|c: int| 0 <= c < t.len() && (#[trigger] t[c]).0 == key@ && forall|i: int| 0 <= i < c ==> (#[trigger] t[i]).0 != key@;
                if c < j {
                    assert(t[c].0 != key@);
                } else if c > j {
                    assert(t[j as int].0 != key@);
                }
            }
            return Some(j);
        }
        j = j + 1;
    }
    None
}

/// Set (`Some`) or clear (`None`) the "status" tag of a tag list.
#[verifier::spinoff_prover]
#[verifier::rlimit(40)]
fn edit_status_tag(tags: &mut Vec<(String, String)>, status: Option<&str>)
    ensures
        tags_view(final(tags)@) == match status {
            Some(v) => with_tag(tags_view(old(tags)@), "status"@, v@),
            None => without_tag(tags_view(old(tags)@), "status"@),
        },
{
    let pos = find_tag_key(tags, "status");
    proof {
        reveal_strlit("status");
    }
    let ghost tv = tags_view(tags@);
    match status {
        Some(v) => {
            match pos {
                Some(j) => {
                    let k = tags[j].0.clone();
                    proof {
                        assert(tv[j as int].0 == "status"@);
                        assert(k@ == "status"@);
                    }
                    tags.set(j, (k, String::from_str(v)));
                    proof {
                        assert(tags_view(tags@) =~= tv.update(j as int, ("status"@, v@)));
                    }
                },
                None => {
                    tags.push((String::from_str("status"), String::from_str(v)));
                    proof {
                        assert(tags_view(tags@) =~= tv.push(("status"@, v@)));
                    }
                },
            }
        },
        None => {
            match pos {
                Some(j) => {
                    tags.remove(j);
                    proof {
                        assert(tags_view(tags@) =~= tv.remove(j as int));
                    }
                },
                None => {},
            }
        },
    }
}

impl App {
    /// What `canvas_set_status` does: `post` is `pre` after it.
    pub open spec fn canvas_set_status_done(pre: App, post: App, status: Option<&str>) -> bool {
        &&& post.wf()
        &&& !pre.has_selection_spec() ==> post == (App { mode: Mode::Canvas { state: CanvasState::Browse }, ..pre })
        &&& pre.has_selection_spec() ==> exists|b: App, c: App|
                #![trigger pushed_then(pre, b), crate::ops::saved(c, post)]
                pushed_then(pre, b) && crate::ops::saved(c, post) && {
                    let s = pre.selected as int;
                    let tv = tags_view(b.nodes@[s].tags@);
                    &&& c == (App { nodes: c.nodes, mode: Mode::Canvas { state: CanvasState::Browse }, ..b })
                    &&& c.nodes@ == b.nodes@.update(s, Node { tags: c.nodes@[s].tags, ..b.nodes@[s] })
                    &&& tags_view(c.nodes@[s].tags@) == match status {
                        Some(v) => with_tag(tv, "status"@, v@),
                        None => without_tag(tv, "status"@),
                    }
                }
    }

    /// Set (`Some`) or clear (`None`) the "status" tag of the selected node,
    /// pushing the state for undo first and saving afterwards; browsing
    /// resumes in every case.
    pub fn canvas_set_status(&mut self, status: Option<&str>)
        requires
            old(self).wf(),
        ensures
            Self::canvas_set_status_done(*old(self), *final(self), status),
    {
        if !self.has_selection() {
            self.mode = Mode::Canvas { state: CanvasState::Browse };
            return;
        }
        let id = self.selected;
        self.push_undo();
        let ghost b = *self;
        proof {
            assert(pushed_then(*old(self), b));
            crate::forest::lemma_same_nodes_forest(b.nodes@, old(self).nodes@);
        }
        let mut tags = crate::models::clone_tags(&self.nodes[id].tags);
        edit_status_tag(&mut tags, status);
        self.nodes[id].tags = tags;
        self.mode = Mode::Canvas { state: CanvasState::Browse };
        proof {
            crate::layout::lemma_forest_same_shape(b.nodes@, self.nodes@);
            assert(self.nodes@ == b.nodes@.update(id as int, self.nodes@[id as int]));
        }
        let ghost c = *self;
        self.save_project();
    }

    /// What `canvas_confirm_new` does: `post` is `pre` after it.
    pub open spec fn canvas_confirm_new_done(pre: App, post: App) -> bool {
        &&& post.wf()
        &&& mode_ok(post.mode, post.nodes@) || post == pre
        &&& match pre.mode {
                Mode::Canvas { state: CanvasState::New { buf, .. } } => if buf@.len() == 0 {
                    post == (App { mode: Mode::Canvas { state: CanvasState::Browse }, ..pre })
                } else {
                    exists|b: App|
                        #[trigger] pushed_then(pre, b) && {
                            let id = b.nodes@.len();
                            &&& post.nodes@.len() == id + 1
                            &&& post.nodes@.take(id as int) == b.nodes@
                            &&& post.nodes@[id as int].label@ == buf@
                            &&& post.nodes@[id as int].parent is None
                            &&& post.nodes@[id as int].children@.len() == 0
                            &&& post.nodes@[id as int].links@.len() == 0
                            &&& post.nodes@[id as int].tags@.len() == 0
                            &&& post.nodes@[id as int].times@.len() == 0
                            &&& post.nodes@[id as int].world_x == pre.cursor_x
                            &&& post.nodes@[id as int].world_y == pre.cursor_y
                            &&& post.nodes@[id as int].row == usize::MAX
                            &&& !post.nodes@[id as int].collapsed
                            &&& !post.nodes@[id as int].is_managed_note
                            &&& post.nodes@[id as int].managed is None
                            &&& post.selected == id
                            &&& post.mode matches Mode::Input { action, buf: b2, cursor } && action
                                == (InputAction::InsertChild { parent: id as usize }) && b2@.len() == 0 && cursor == 0
                            &&& post == (App { nodes: post.nodes, selected: post.selected, mode: post.mode, ..b })
                        }
                },
                _ => post == pre,
            }
    }

    /// Create the typed root node at the cursor (pushing the state for undo
    /// first), select it and go on inserting children under it; an empty
    /// label just returns to browsing.
    pub fn canvas_confirm_new(&mut self)
        requires
            old(self).wf(),
            old(self).nodes@.len() < usize::MAX,
        ensures
            Self::canvas_confirm_new_done(*old(self), *final(self)),
    {
        let buf = match &self.mode {
            Mode::Canvas { state: CanvasState::New { buf, .. } } => buf.clone(),
            _ => return,
        };
        if buf.as_str().is_empty() {
            self.mode = Mode::Canvas { state: CanvasState::Browse };
            return;
        }
        self.push_undo();
        let ghost b = *self;
        proof {
            assert(pushed_then(*old(self), b));
            crate::forest::lemma_same_nodes_forest(b.nodes@, old(self).nodes@);
        }
        let node = Node {
            label: buf,
            parent: None,
            children: Vec::new(),
            links: Vec::new(),
            collapsed: false,
            row: usize::MAX,
            world_x: self.cursor_x,
            world_y: self.cursor_y,
            world_x_end: 0,
            tags: Vec::new(),
            times: Vec::new(),
            is_managed_note: false,
            managed: None,
        };
        let id = crate::forest::push_root(&mut self.nodes, node);
        self.selected = id;
        self.mode = Mode::Input { action: InputAction::InsertChild { parent: id }, buf: String::new(), cursor: 0 };
        proof {
            assert(self.nodes@.take(id as int) =~= b.nodes@);
            assert(Seq::<char>::empty().take(0) =~= Seq::<char>::empty());
            assert(at_char(Seq::<char>::empty(), 0, 0)) by {
                assert(vstd::utf8::encode_utf8(Seq::<char>::empty()) =~= Seq::<u8>::empty());
            }
        }
    }

    /// What `canvas_pick_or_place` does: `post` is `pre` after it.
    pub open spec fn canvas_pick_or_place_done(pre: App, post: App) -> bool {
        &&& post.wf()
        &&& match pre.mode {
                Mode::Canvas { state: CanvasState::Browse } => {
                    let near = choose|r: Option<usize>| nearest_node(
                        pre.nodes@,
                        pre.cursor_x as int,
                        pre.cursor_y as int,
                        r,
                    );
                    match near {
                        Some(id) => exists|b: App|
                            #[trigger] pushed_then(pre, b) && picked(post.mode, id, pre.nodes@[id as int])
                                && post == (App { mode: post.mode, ..b }),
                        None => post == pre,
                    }
                },
                Mode::Canvas { state: CanvasState::Pick { origin_id, buf, .. } } => {
                    let (tx, ty) = match crate::text::coords_of(buf@) {
                        Some(xy) => xy,
                        None => (pre.cursor_x, pre.cursor_y),
                    };
                    exists|b: App, mid: Seq<Node>|
                        #![trigger pushed_then(pre, b), detached_root(b.nodes@, mid, origin_id)]
                        pushed_then(pre, b) && detached_root(b.nodes@, mid, origin_id) && post.nodes@ == mid.update(
                            origin_id as int,
                            Node { world_x: tx, world_y: ty, ..mid[origin_id as int] },
                        ) && post == (App {
                            nodes: post.nodes,
                            cursor_x: tx,
                            cursor_y: ty,
                            selected: origin_id,
                            mode: Mode::Canvas { state: CanvasState::Browse },
                            ..b
                        })
                },
                _ => post == pre,
            }
    }

    /// Pick up the node nearest the cursor (pushing the state for undo), or,
    /// while carrying one, put it down: at the typed coordinates "x,y" when
    /// they read as two `i32`s, otherwise at the cursor.  The node leaves its
    /// parent and becomes a root there; the cursor follows it, it becomes the
    /// selection, and browsing resumes.
    pub fn canvas_pick_or_place(&mut self)
        requires
            old(self).wf(),
            mode_ok(old(self).mode, old(self).nodes@),
        ensures
            Self::canvas_pick_or_place_done(*old(self), *final(self)),
    {
        let is_browse = match &self.mode {
            Mode::Canvas { state: CanvasState::Browse } => true,
            _ => false,
        };
        if is_browse {
            let near = self.node_near_cursor(self.cursor_x, self.cursor_y);
            proof {
                crate::app::lemma_nearest_unique(self.nodes@, self.cursor_x as int, self.cursor_y as int, near);
            }
            if let Some(id) = near {
                self.push_undo();
                let ghost b = *self;
                proof {
                    assert(pushed_then(*old(self), b));
                }
                let ox = self.nodes[id].world_x;
                let oy = self.nodes[id].world_y;
                self.mode = Mode::Canvas {
                    state: CanvasState::Pick { origin_id: id, origin_x: ox, origin_y: oy, buf: String::new(), cursor: 0 },
                };
            }
            return;
        }
        let (id, target) = match &self.mode {
            Mode::Canvas { state: CanvasState::Pick { origin_id, buf, .. } } => (*origin_id, crate::text::parse_coords(buf)),
            _ => return,
        };
        let (tx, ty) = match target {
            Some(xy) => xy,
            None => (self.cursor_x, self.cursor_y),
        };
        self.push_undo();
        let ghost b = *self;
        proof {
            assert(pushed_then(*old(self), b));
            crate::forest::lemma_same_nodes_forest(b.nodes@, old(self).nodes@);
        }
        if self.nodes[id].parent.is_some() {
            move_node(&mut self.nodes, id, None, None);
        }
        let ghost mid = self.nodes@;
        self.nodes[id].world_x = tx;
        self.nodes[id].world_y = ty;
        proof {
            crate::layout::lemma_forest_same_shape(mid, self.nodes@);
            assert(detached_root(b.nodes@, mid, id));
        }
        self.cursor_x = tx;
        self.cursor_y = ty;
        self.selected = id;
        self.mode = Mode::Canvas { state: CanvasState::Browse };
        proof {
            assert(self.nodes@ == mid.update(id as int, Node { world_x: tx, world_y: ty, ..mid[id as int] }));
        }
    }
}

} // verus!
