//! Typing node labels: inserting children, editing and overwriting labels.

use vstd::prelude::*;
use crate::app::{mode_ok, App};
use crate::buffer::{at_char, buf_backspace, buf_insert, move_cursor_in_buf, buf_ok, byte_len, char_index, char_width, utf8_len};
use crate::forest::{forest, is_subtree_listing, push_child};
use crate::mode::{CanvasState, InputAction, Mode};
use crate::models::Node;

verus! {

/// The buffer and cursor of an input mode.
pub open spec fn input_buf(mode: Mode) -> Option<(Seq<char>, usize)> {
    match mode {
        Mode::Input { buf, cursor, .. } => Some((buf@, cursor)),
        _ => None,
    }
}

/// The buffer of an input mode fits the editing functions.
pub open spec fn input_ready(mode: Mode) -> bool {
    match mode {
        Mode::Input { buf, cursor, .. } => buf_ok(buf@, cursor as int),
        _ => true,
    }
}

/// `b` is input mode `a` with the buffer and cursor replaced by `buf` and
/// `cursor` and the action kept.
pub open spec fn input_now(a: Mode, b: Mode, buf: Seq<char>, cursor: int) -> bool {
    &&& a matches Mode::Input { action, .. }
    &&& b matches Mode::Input { action: action2, buf: buf2, cursor: cursor2 }
    &&& action2 == a->action
    &&& buf2@ == buf
    &&& cursor2 == cursor
}

/// Input mode `b` keeps the action of `a`, holds `buf` and has its cursor
/// before character `k`.
pub open spec fn input_moved(a: Mode, b: Mode, buf: Seq<char>, k: int) -> bool {
    &&& a matches Mode::Input { action, .. }
    &&& b matches Mode::Input { action: action2, buf: buf2, cursor: cursor2 }
    &&& action2 == a->action
    &&& buf2@ == buf
    &&& at_char(buf, cursor2 as int, k)
}

/// Input mode `mode` with its action replaced.
pub open spec fn with_action(mode: Mode, action: InputAction) -> Mode {
    match mode {
        Mode::Input { buf, cursor, .. } => Mode::Input { action, buf, cursor },
        _ => mode,
    }
}

/// The number of nodes in `ids` that are on screen.
pub open spec fn visible_count(nodes: Seq<Node>, ids: Seq<usize>) -> int
    decreases ids.len(),
{
    if ids.len() == 0 {
        0
    } else {
        visible_count(nodes, ids.drop_last()) + if nodes[ids.last() as int].row != usize::MAX {
            1int
        } else {
            0int
        }
    }
}

impl App {
    /// What `enter_insert` does: `post` is `pre` after it.
    pub open spec fn enter_insert_done(pre: App, post: App) -> bool {
        &&& !pre.has_selection_spec() ==> post == pre
        &&& pre.has_selection_spec() ==> {
                &&& post.mode matches Mode::Input { action, buf, cursor } && action == (InputAction::InsertChild {
                    parent: pre.selected,
                }) && buf@.len() == 0 && cursor == 0
                &&& post == (App { mode: post.mode, ..pre })
                &&& mode_ok(post.mode, post.nodes@)
            }
    }

    /// Start inserting a child under the selected node.
    pub fn enter_insert(&mut self)
        ensures
            Self::enter_insert_done(*old(self), *final(self)),
    {
        if !self.has_selection() {
            return;
        }
        self.mode = Mode::Input {
            action: InputAction::InsertChild { parent: self.selected },
            buf: String::new(),
            cursor: 0,
        };
        proof {
            assert(Seq::<char>::empty().take(0) =~= Seq::<char>::empty());
            assert(at_char(Seq::<char>::empty(), 0, 0)) by {
                assert(vstd::utf8::encode_utf8(Seq::<char>::empty()) =~= Seq::<u8>::empty());
            }
        }
    }

    /// What `enter_edit` does: `post` is `pre` after it.
    pub open spec fn enter_edit_done(pre: App, post: App) -> bool {
        &&& !pre.has_selection_spec() ==> post == pre
        &&& pre.has_selection_spec() ==> {
                let label = pre.nodes@[pre.selected as int].label@;
                &&& post.mode matches Mode::Input { action, buf, cursor } && action == (InputAction::EditLabel {
                    node: pre.selected,
                }) && buf@ == label && at_char(label, cursor as int, label.len() as int)
                &&& post == (App { mode: post.mode, ..pre })
                &&& mode_ok(post.mode, post.nodes@)
            }
    }

    /// Start editing the selected node's label, with the cursor at its end.
    pub fn enter_edit(&mut self)
        ensures
            Self::enter_edit_done(*old(self), *final(self)),
    {
        if !self.has_selection() {
            return;
        }
        let buf = self.nodes[self.selected].label.clone();
        let cursor = byte_len(&buf);
        self.mode = Mode::Input { action: InputAction::EditLabel { node: self.selected }, buf, cursor };
    }

    /// What `enter_overwrite` does: `post` is `pre` after it.
    pub open spec fn enter_overwrite_done(pre: App, post: App) -> bool {
        &&& !pre.has_selection_spec() ==> post == pre
        &&& pre.has_selection_spec() ==> {
                &&& post.mode matches Mode::Input { action, buf, cursor } && action == (InputAction::Overwrite {
                    node: pre.selected,
                }) && buf@.len() == 0 && cursor == 0
                &&& post == (App { mode: post.mode, ..pre })
                &&& mode_ok(post.mode, post.nodes@)
            }
    }

    /// Start overwriting the selected node's label, from an empty buffer.
    pub fn enter_overwrite(&mut self)
        ensures
            Self::enter_overwrite_done(*old(self), *final(self)),
    {
        if !self.has_selection() {
            return;
        }
        self.mode = Mode::Input {
            action: InputAction::Overwrite { node: self.selected },
            buf: String::new(),
            cursor: 0,
        };
        proof {
            assert(Seq::<char>::empty().take(0) =~= Seq::<char>::empty());
            assert(at_char(Seq::<char>::empty(), 0, 0)) by {
                assert(vstd::utf8::encode_utf8(Seq::<char>::empty()) =~= Seq::<u8>::empty());
            }
        }
    }

    /// What `input_char` does: `post` is `pre` after it.
    pub open spec fn input_char_done(pre: App, post: App, c: char) -> bool {
        &&& match input_buf(pre.mode) {
                Some((buf, cursor)) => {
                    let k = char_index(buf, cursor as int);
                    &&& input_now(pre.mode, post.mode, buf.insert(k, c), cursor + char_width(c))
                    &&& at_char(buf.insert(k, c), cursor + char_width(c), k + 1)
                    &&& post == (App { mode: post.mode, ..pre })
                },
                None => post == pre,
            }
    }

    /// Type `c` at the input cursor.
    pub fn input_char(&mut self, c: char)
        requires
            input_ready(old(self).mode),
        ensures
            Self::input_char_done(*old(self), *final(self), c),
    {
        match &mut self.mode {
            Mode::Input { buf, cursor, .. } => {
                buf_insert(buf, cursor, c);
            },
            _ => {},
        }
    }

    /// What `input_backspace` does: `post` is `pre` after it.
    pub open spec fn input_backspace_done(pre: App, post: App) -> bool {
        &&& input_ready(post.mode)
        &&& match input_buf(pre.mode) {
                Some((buf, cursor)) => {
                    let k = char_index(buf, cursor as int);
                    &&& k == 0 ==> post == pre || input_now(pre.mode, post.mode, buf, cursor as int)
                    &&& k > 0 ==> input_now(pre.mode, post.mode, buf.remove(k - 1), cursor - char_width(buf[k - 1]))
                    &&& post == (App { mode: post.mode, ..pre })
                },
                None => post == pre,
            }
    }

    /// Delete the character before the input cursor.
    pub fn input_backspace(&mut self)
        requires
            input_ready(old(self).mode),
        ensures
            Self::input_backspace_done(*old(self), *final(self)),
    {
        match &mut self.mode {
            Mode::Input { buf, cursor, .. } => {
                buf_backspace(buf, cursor);
            },
            _ => {},
        }
    }

    /// What `input_move_cursor` does: `post` is `pre` after it.
    pub open spec fn input_move_cursor_done(pre: App, post: App, delta: i32) -> bool {
        &&& input_ready(post.mode)
        &&& match input_buf(pre.mode) {
                Some((buf, cursor)) => {
                    let k = char_index(buf, cursor as int);
                    let k2 = if delta < 0 {
                        if k > 0 { k - 1 } else { k }
                    } else {
                        if k < buf.len() { k + 1 } else { k }
                    };
                    &&& input_moved(pre.mode, post.mode, buf, k2)
                    &&& post == (App { mode: post.mode, ..pre })
                },
                None => post == pre,
            }
    }

    /// Move the input cursor one character left (`delta < 0`) or right.
    pub fn input_move_cursor(&mut self, delta: i32)
        requires
            input_ready(old(self).mode),
        ensures
            Self::input_move_cursor_done(*old(self), *final(self), delta),
    {
        match &mut self.mode {
            Mode::Input { buf, cursor, .. } => {
                move_cursor_in_buf(buf.as_str(), cursor, delta);
            },
            _ => {},
        }
    }

    /// What `input_indent` does: `post` is `pre` after it.
    pub open spec fn input_indent_done(pre: App, post: App) -> bool {
        &&& mode_ok(post.mode, post.nodes@)
        &&& match pre.mode {
                Mode::Input { action: InputAction::InsertChild { parent }, .. } => {
                    let cs = pre.nodes@[parent as int].children@;
                    if cs.len() > 0 {
                        &&& post.mode == with_action(pre.mode, InputAction::InsertChild { parent: cs.last() })
                        &&& post == (App { mode: post.mode, ..pre })
                    } else {
                        post == pre
                    }
                },
                _ => post == pre,
            }
    }

    /// While inserting a child: nest the insertion under the target's last
    /// child.
    pub fn input_indent(&mut self)
        requires
            forest(old(self).nodes@),
            mode_ok(old(self).mode, old(self).nodes@),
        ensures
            Self::input_indent_done(*old(self), *final(self)),
    {
        match &mut self.mode {
            Mode::Input { action: InputAction::InsertChild { parent }, .. } => {
                let n = self.nodes[*parent].children.len();
                if n > 0 {
                    let last = self.nodes[*parent].children[n - 1];
                    proof {
                        assert(self.nodes@[*parent as int].children@[n - 1] == last);
                    }
                    *parent = last;
                }
            },
            _ => {},
        }
    }

    /// What `input_dedent` does: `post` is `pre` after it.
    pub open spec fn input_dedent_done(pre: App, post: App) -> bool {
        &&& mode_ok(post.mode, post.nodes@)
        &&& match pre.mode {
                Mode::Input { action: InputAction::InsertChild { parent }, .. } => match pre.nodes@[parent as int].parent {
                    Some(gp) => {
                        &&& post.mode == with_action(pre.mode, InputAction::InsertChild { parent: gp })
                        &&& post == (App { mode: post.mode, ..pre })
                    },
                    None => post == pre,
                },
                _ => post == pre,
            }
    }

    /// While inserting a child: move the insertion up to the target's
    /// parent.
    pub fn input_dedent(&mut self)
        requires
            forest(old(self).nodes@),
            mode_ok(old(self).mode, old(self).nodes@),
        ensures
            Self::input_dedent_done(*old(self), *final(self)),
    {
        match &mut self.mode {
            Mode::Input { action: InputAction::InsertChild { parent }, .. } => {
                if let Some(gp) = self.nodes[*parent].parent {
                    *parent = gp;
                }
            },
            _ => {},
        }
    }

    /// What `cancel_input` does: `post` is `pre` after it.
    pub open spec fn cancel_input_done(pre: App, post: App) -> bool {
        &&& post == (App { mode: Mode::Canvas { state: CanvasState::Browse }, ..pre })
    }

    /// Leave input mode without applying the buffer.
    pub fn cancel_input(&mut self)
        ensures
            Self::cancel_input_done(*old(self), *final(self)),
    {
        self.mode = Mode::Canvas { state: CanvasState::Browse };
    }

    /// What `confirm_input` does: `post` is `pre` after it.
    pub open spec fn confirm_input_done(pre: App, post: App) -> bool {
        &&& post.wf()
        &&& mode_ok(post.mode, post.nodes@)
        &&& match pre.mode {
                Mode::Input { action, buf, .. } => match action {
                    InputAction::InsertChild { parent } => if buf@.len() == 0 {
                        post == (App { mode: Mode::Canvas { state: CanvasState::Browse }, ..pre })
                    } else {
                        let id = pre.nodes@.len();
                        let on = pre.nodes@;
                        &&& post.nodes@.len() == id + 1
                        &&& post.nodes@[id as int] == (Node {
                            label: buf,
                            parent: Some(parent),
                            children: post.nodes@[id as int].children,
                            links: post.nodes@[id as int].links,
                            collapsed: false,
                            row: usize::MAX,
                            world_x: 0,
                            world_y: 0,
                            world_x_end: 0,
                            tags: post.nodes@[id as int].tags,
                            times: post.nodes@[id as int].times,
                            is_managed_note: false,
                            managed: None,
                        })
                        &&& post.nodes@[id as int].children@.len() == 0
                        &&& post.nodes@[id as int].links@.len() == 0
                        &&& post.nodes@[id as int].tags@.len() == 0
                        &&& post.nodes@[id as int].times@.len() == 0
                        &&& post.nodes@[parent as int] == (Node {
                            children: post.nodes@[parent as int].children,
                            collapsed: false,
                            ..on[parent as int]
                        })
                        &&& post.nodes@[parent as int].children@ == on[parent as int].children@.push(id as usize)
                        &&& forall|i: int| 0 <= i < on.len() && i != parent ==> #[trigger] post.nodes@[i] == on[i]
                        &&& post.selected == id
                        &&& post.mode matches Mode::Input { action: a2, buf: b2, cursor: c2 } && a2 == action
                            && b2@.len() == 0 && c2 == 0
                        &&& post == (App {
                            nodes: post.nodes,
                            selected: post.selected,
                            mode: post.mode,
                            ..pre
                        })
                    },
                    InputAction::EditLabel { node } | InputAction::Overwrite { node } => {
                        &&& post.mode == (Mode::Canvas { state: CanvasState::Browse })
                        &&& buf@.len() == 0 ==> post.nodes == pre.nodes
                        &&& buf@.len() > 0 ==> post.nodes@ == pre.nodes@.update(
                            node as int,
                            Node { label: buf, ..pre.nodes@[node as int] },
                        )
                        &&& post == (App { nodes: post.nodes, mode: post.mode, ..pre })
                    },
                },
                _ => post == pre,
            }
    }

    /// Apply the input buffer.  Inserting: a nonempty buffer becomes a new
    /// last child of the target (which is expanded), the child is selected
    /// and input continues with an empty buffer for its next sibling; an
    /// empty buffer ends the insertion.  Editing or overwriting: a nonempty
    /// buffer becomes the node's label.  Both of these end in browsing.
    pub fn confirm_input(&mut self)
        requires
            old(self).wf(),
            mode_ok(old(self).mode, old(self).nodes@),
            old(self).nodes@.len() < usize::MAX,
        ensures
            Self::confirm_input_done(*old(self), *final(self)),
    {
        let (action, buf) = match &self.mode {
            Mode::Input { action, buf, .. } => (*action, buf.clone()),
            _ => return,
        };
        proof {
            assert(Seq::<char>::empty().take(0) =~= Seq::<char>::empty());
            assert(at_char(Seq::<char>::empty(), 0, 0)) by {
                assert(vstd::utf8::encode_utf8(Seq::<char>::empty()) =~= Seq::<u8>::empty());
            }
        }
        match action {
            InputAction::InsertChild { parent } => {
                if buf.as_str().is_empty() {
                    self.mode = Mode::Canvas { state: CanvasState::Browse };
                    return;
                }
                let node = Node {
                    label: buf,
                    parent: Some(parent),
                    children: Vec::new(),
                    links: Vec::new(),
                    collapsed: false,
                    row: usize::MAX,
                    world_x: 0,
                    world_y: 0,
                    world_x_end: 0,
                    tags: Vec::new(),
                    times: Vec::new(),
                    is_managed_note: false,
                    managed: None,
                };
                let id = push_child(&mut self.nodes, node, parent);
                let ghost mid = self.nodes@;
                self.nodes[parent].collapsed = false;
                proof {
                    crate::layout::lemma_forest_same_shape(mid, self.nodes@);
                }
                self.selected = id;
                self.mode = Mode::Input {
                    action: InputAction::InsertChild { parent },
                    buf: String::new(),
                    cursor: 0,
                };
            },
            InputAction::EditLabel { node } | InputAction::Overwrite { node } => {
                if !buf.as_str().is_empty() {
                    let ghost before = self.nodes@;
                    self.nodes[node].label = buf;
                    proof {
                        crate::layout::lemma_forest_same_shape(before, self.nodes@);
                    }
                }
                self.mode = Mode::Canvas { state: CanvasState::Browse };
            },
        }
    }

    /// What `scroll_to_input` does: `post` is `pre` after it.
    pub open spec fn scroll_to_input_done(pre: App, post: App, canvas_h: usize) -> bool {
        &&& match pre.mode {
                Mode::Input { action: InputAction::InsertChild { parent }, .. } => exists|sub: Seq<usize>|
                    #[trigger] is_subtree_listing(pre.nodes@, parent, sub) && {
                        let y = pre.nodes@[parent as int].world_y + visible_count(pre.nodes@, sub);
                        let sy = y - pre.camera_y;
                        post == (App {
                            camera_y: if sy < 0 {
                                y as i32
                            } else if canvas_h > 0 && sy >= canvas_h {
                                (y - (canvas_h - 1)) as i32
                            } else {
                                pre.camera_y
                            },
                            ..pre
                        })
                    },
                _ => post == pre,
            }
    }

    /// While inserting a child: scroll so that the row where the child will
    /// appear (below the visible part of the target's subtree) is on screen.
    pub fn scroll_to_input(&mut self, canvas_h: usize)
        requires
            forest(old(self).nodes@),
            mode_ok(old(self).mode, old(self).nodes@),
            canvas_h <= i32::MAX,
            old(self).nodes@.len() <= i32::MAX,
            old(self).mode matches Mode::Input { action: InputAction::InsertChild { parent }, .. } ==> {
                let wy = old(self).nodes@[parent as int].world_y as int;
                &&& wy + old(self).nodes@.len() <= i32::MAX
                &&& i32::MIN <= wy + old(self).nodes@.len() - old(self).camera_y <= i32::MAX
                &&& i32::MIN <= wy - old(self).camera_y
                &&& i32::MIN <= wy - canvas_h
            },
        ensures
            Self::scroll_to_input_done(*old(self), *final(self), canvas_h),
    {
        let parent = match &self.mode {
            Mode::Input { action: InputAction::InsertChild { parent }, .. } => *parent,
            _ => return,
        };
        let sub = self.collect_subtree(parent);
        proof {
            crate::forest::lemma_distinct_bounded(sub@, self.nodes@.len());
        }
        let mut count: usize = 0;
        let mut k: usize = 0;
        while k < sub.len()
            invariant
                k <= sub@.len(),
                sub@.len() <= self.nodes@.len(),
                is_subtree_listing(self.nodes@, parent, sub@),
                count == visible_count(self.nodes@, sub@.take(k as int)),
                count <= k,
            decreases sub@.len() - k,
        {
            let id = sub[k];
            proof {
                assert(sub@.take(k as int + 1).drop_last() =~= sub@.take(k as int));
            }
            if self.nodes[id].row != usize::MAX {
                count = count + 1;
            }
            k = k + 1;
        }
        proof {
            assert(sub@.take(sub@.len() as int) =~= sub@);
        }
        let insert_wy = self.nodes[parent].world_y + count as i32;
        let sy = insert_wy - self.camera_y;
        if sy < 0 {
            self.camera_y = insert_wy;
        } else if canvas_h > 0 && sy >= canvas_h as i32 {
            self.camera_y = insert_wy - (canvas_h as i32 - 1);
        }
    }
}

} // verus!
