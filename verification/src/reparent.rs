use vstd::prelude::*;
use crate::app::{mode_ok, App};
use crate::forest::{
    forest, in_subtree, lemma_listing_members, lemma_reparent_keeps_subtree, move_node, moved_to,
    position_of,
};
use crate::layout::contains_index;
use crate::mode::{CanvasState, Mode};
use crate::models::Node;

verus! {

/// A node that reparent navigation may land on: laid out on screen and
/// outside the subtree being moved.
pub open spec fn nav_cand(nodes: Seq<Node>, s: usize, i: int) -> bool {
    &&& 0 <= i < nodes.len()
    &&& nodes[i].row != usize::MAX
    &&& !in_subtree(nodes, i as usize, s)
}

/// Node `b` comes after node `a` in screen order (by row, then by index).
pub open spec fn after(nodes: Seq<Node>, a: int, b: int) -> bool {
    nodes[a].row < nodes[b].row || (nodes[a].row == nodes[b].row && a < b)
}

/// `r` is the first candidate after `lo` (the first candidate of all when
/// `lo` is `None`).
pub open spec fn first_after(nodes: Seq<Node>, s: usize, lo: Option<int>, r: int) -> bool {
    &&& nav_cand(nodes, s, r)
    &&& (lo matches Some(l) ==> after(nodes, l, r))
    &&& forall|j: int|
        #[trigger] nav_cand(nodes, s, j) && (lo matches Some(l) ==> after(nodes, l, j)) ==> (j == r
            || after(nodes, r, j))
}

/// `r` is the last candidate before `hi`.
pub open spec fn last_before(nodes: Seq<Node>, s: usize, hi: int, r: int) -> bool {
    &&& nav_cand(nodes, s, r)
    &&& after(nodes, r, hi)
    &&& forall|j: int| #[trigger] nav_cand(nodes, s, j) && after(nodes, j, hi) ==> (j == r || after(nodes, j, r))
}

/// Where a step up (`delta <= 0`) or down the candidates in screen order
/// leads from `cursor`: the neighbouring candidate, or `cursor` itself at
/// either end; from a cursor that is not a candidate, the first candidate
/// (the second one when stepping down).
pub open spec fn nav_step(nodes: Seq<Node>, s: usize, cursor: int, delta: int, t: int) -> bool {
    if nav_cand(nodes, s, cursor) {
        if delta > 0 {
            first_after(nodes, s, Some(cursor), t) || (t == cursor && !exists|j: int|
                first_after(nodes, s, Some(cursor), j))
        } else {
            last_before(nodes, s, cursor, t) || (t == cursor && !exists|j: int|
                last_before(nodes, s, cursor, j))
        }
    } else {
        exists|f: int|
            #[trigger] first_after(nodes, s, None, f) && if delta > 0 {
                first_after(nodes, s, Some(f), t) || (t == f && !exists|j: int|
                    first_after(nodes, s, Some(f), j))
            } else {
                t == f
            }
    }
}

/// `after` is `before` once the reparent cursor has been moved to `t`: the
/// subject now hangs last under `t`.
pub open spec fn navigated(before: App, after: App, t: usize) -> bool {
    match before.mode {
        Mode::Reparent { subject, orig_parent, orig_pos, cursor } => if t == cursor {
            after == before
        } else {
            &&& moved_to(before.nodes@, after.nodes@, subject, Some(t), None)
            &&& after == (App {
                nodes: after.nodes,
                mode: Mode::Reparent { subject, orig_parent, orig_pos, cursor: t },
                ..before
            })
        },
        _ => after == before,
    }
}

/// Reparent navigation keeps the application well formed.
pub open spec fn reparent_ready(app: App) -> bool {
    &&& app.wf()
    &&& mode_ok(app.mode, app.nodes@)
}

impl App {
    /// What `enter_reparent` does: `post` is `pre` after it.
    pub open spec fn enter_reparent_done(pre: App, post: App) -> bool {
        &&& post.wf()
        &&& pre.has_selection_spec() ==> mode_ok(post.mode, post.nodes@)
        &&& !pre.has_selection_spec() ==> post == pre
        &&& pre.has_selection_spec() ==> {
                let s = pre.selected;
                let nodes = pre.nodes@;
                let op = nodes[s as int].parent;
                &&& post.mode matches Mode::Reparent { subject, orig_parent, orig_pos, cursor }
                &&& subject == s
                &&& orig_parent == op
                &&& (op matches Some(p) ==> nodes[p as int].children@[orig_pos as int] == s
                    && (orig_pos as int) < nodes[p as int].children@.len())
                &&& (op is None ==> orig_pos == 0)
                &&& (op matches Some(p) ==> cursor == p)
                &&& (op is None ==> if exists|i: usize| (i as int) < nodes.len() && !#[trigger] in_subtree(nodes, i, s) {
                    !in_subtree(nodes, cursor, s) && (cursor as int) < nodes.len() && forall|i: usize|
                        i < cursor ==> #[trigger] in_subtree(nodes, i, s)
                } else {
                    cursor == s
                })
                &&& post == (App { mode: post.mode, ..pre })
            }
    }

    /// Start moving the selected node: remember where it hangs and put the
    /// reparent cursor on its parent (for a root, on the first node outside
    /// its subtree, or on the node itself when there is none).
    pub fn enter_reparent(&mut self)
        requires
            old(self).wf(),
        ensures
            Self::enter_reparent_done(*old(self), *final(self)),
    {
        if !self.has_selection() {
            return;
        }
        let s = self.selected;
        let orig_parent = self.nodes[s].parent;
        let orig_pos = match orig_parent {
            Some(p) => {
                proof {
                    assert(self.nodes@[p as int].children@.contains(s));
                }
                match position_of(&self.nodes[p].children, s) {
                    Some(k) => k,
                    None => 0,
                }
            },
            None => 0,
        };
        let subtree = self.collect_subtree(s);
        proof {
            lemma_listing_members(self.nodes@, s, subtree@);
        }
        let cursor = match orig_parent {
            Some(p) => p,
            None => {
                let mut i: usize = 0;
                let mut found: Option<usize> = None;
                while i < self.nodes.len()
                    invariant
                        i <= self.nodes@.len(),
                        forall|x: usize| subtree@.contains(x) <==> ((x as int) < self.nodes@.len()
                            && in_subtree(self.nodes@, x, s)),
                        found matches Some(f) ==> (f as int) < self.nodes@.len() && !in_subtree(self.nodes@, f, s)
                            && forall|j: usize| j < f ==> #[trigger] in_subtree(self.nodes@, j, s),
                        found is None ==> forall|j: usize| j < i ==> #[trigger] in_subtree(self.nodes@, j, s),
                    decreases self.nodes@.len() - i,
                {
                    if found.is_none() && !contains_index(&subtree, i) {
                        found = Some(i);
                    }
                    i = i + 1;
                }
                match found {
                    Some(f) => f,
                    None => s,
                }
            },
        };
        proof {
            if let Some(p) = orig_parent {
                crate::ops::lemma_parent_outside(self.nodes@, s, p);
            }
        }
        self.mode = Mode::Reparent { subject: s, orig_parent, orig_pos, cursor };
    }

    /// Move the reparent cursor to `new_cursor`: the subject leaves its
    /// parent and becomes the last child of `new_cursor`.
    pub fn reparent_nav_to(&mut self, new_cursor: usize)
        requires
            reparent_ready(*old(self)),
            (new_cursor as int) < old(self).nodes@.len(),
            old(self).mode matches Mode::Reparent { subject, .. } ==> !in_subtree(
                old(self).nodes@,
                new_cursor,
                subject,
            ),
        ensures
            reparent_ready(*final(self)),
            navigated(*old(self), *final(self), new_cursor),
    {
        let (subject, old_cursor) = match self.mode {
            Mode::Reparent { subject, cursor, .. } => (subject, cursor),
            _ => return,
        };
        if new_cursor == old_cursor {
            return;
        }
        let ghost before = self.nodes@;
        move_node(&mut self.nodes, subject, Some(new_cursor), None);
        proof {
            assert forall|i: int| 0 <= i < before.len() && i != subject implies (#[trigger] before[i]).parent
                == self.nodes@[i].parent by {
                assert(self.nodes@[i] == (Node { children: self.nodes@[i].children, ..before[i] }));
            }
            if let Mode::Reparent { orig_parent: Some(p), .. } = self.mode {
                lemma_reparent_keeps_subtree(before, self.nodes@, subject, p);
            }
        }
        match &mut self.mode {
            Mode::Reparent { cursor, .. } => {
                *cursor = new_cursor;
            },
            _ => {},
        }
    }

    /// What `confirm_reparent` does: `post` is `pre` after it.
    pub open spec fn confirm_reparent_done(pre: App, post: App) -> bool {
        &&& post.mode == (Mode::Canvas { state: CanvasState::Browse })
        &&& post.selected == match pre.mode {
                Mode::Reparent { subject, .. } => subject,
                _ => pre.selected,
            }
        &&& post == (App { mode: post.mode, selected: post.selected, ..pre })
    }

    /// End the reparent: the subject stays where it now hangs and becomes
    /// the selection.
    pub fn confirm_reparent(&mut self)
        ensures
            Self::confirm_reparent_done(*old(self), *final(self)),
    {
        if let Mode::Reparent { subject, .. } = self.mode {
            self.selected = subject;
        }
        self.mode = Mode::Canvas { state: CanvasState::Browse };
    }

    /// What `cancel_reparent` does: `post` is `pre` after it.
    pub open spec fn cancel_reparent_done(pre: App, post: App) -> bool {
        &&& post.wf()
        &&& match pre.mode {
                Mode::Reparent { subject, orig_parent, orig_pos, .. } => {
                    &&& moved_to(pre.nodes@, post.nodes@, subject, orig_parent, Some(orig_pos))
                    &&& post == (App {
                        nodes: post.nodes,
                        mode: Mode::Canvas { state: CanvasState::Browse },
                        ..pre
                    })
                },
                _ => post == pre,
            }
    }

    /// Abandon the reparent: the subject goes back under its original parent
    /// at its original position (or back to being a root).
    pub fn cancel_reparent(&mut self)
        requires
            reparent_ready(*old(self)),
        ensures
            Self::cancel_reparent_done(*old(self), *final(self)),
    {
        let (subject, orig_parent, orig_pos) = match self.mode {
            Mode::Reparent { subject, orig_parent, orig_pos, .. } => (subject, orig_parent, orig_pos),
            _ => return,
        };
        move_node(&mut self.nodes, subject, orig_parent, Some(orig_pos));
        self.mode = Mode::Canvas { state: CanvasState::Browse };
    }
}

/// The first candidate after `lo` (or of all, when `lo` is `None`), if any.
fn scan_first_after(nodes: &Vec<Node>, s: usize, subtree: &Vec<usize>, lo: Option<usize>) -> (r: Option<usize>)
    requires
        forall|x: usize| subtree@.contains(x) <==> ((x as int) < nodes@.len() && in_subtree(nodes@, x, s)),
        lo matches Some(l) ==> (l as int) < nodes@.len(),
    ensures
        match r {
            Some(t) => first_after(nodes@, s, match lo { Some(l) => Some(l as int), None => None }, t as int),
            None => forall|j: int|
                !(#[trigger] nav_cand(nodes@, s, j) && (lo matches Some(l) ==> after(nodes@, l as int, j))),
        },
{
    let ghost lo_i: Option<int> = match lo { Some(l) => Some(l as int), None => None };
    let mut best: Option<usize> = None;
    let mut i: usize = 0;
    while i < nodes.len()
        invariant
            i <= nodes@.len(),
            forall|x: usize| subtree@.contains(x) <==> ((x as int) < nodes@.len() && in_subtree(nodes@, x, s)),
            lo matches Some(l) ==> (l as int) < nodes@.len(),
            lo_i == match lo { Some(l) => Some(l as int), None => None },
            match best {
                Some(b) => {
                    &&& (b as int) < i
                    &&& nav_cand(nodes@, s, b as int)
                    &&& (lo matches Some(l) ==> after(nodes@, l as int, b as int))
                    &&& forall|j: int|
                        0 <= j < i && #[trigger] nav_cand(nodes@, s, j) && (lo matches Some(l) ==> after(nodes@, l as int, j))
                            ==> (j == b || after(nodes@, b as int, j))
                },
                None => forall|j: int|
                    0 <= j < i ==> !(#[trigger] nav_cand(nodes@, s, j) && (lo matches Some(l) ==> after(nodes@, l as int, j))),
            },
        decreases nodes@.len() - i,
    {
        let n = &nodes[i];
        let is_cand = n.row != usize::MAX && !contains_index(subtree, i);
        let past = match lo {
            Some(l) => nodes[l].row < n.row || (nodes[l].row == n.row && l < i),
            None => true,
        };
        if is_cand && past {
            match best {
                None => {
                    best = Some(i);
                },
                Some(b) => {
                    if n.row < nodes[b].row {
                        best = Some(i);
                    }
                },
            }
        }
        i = i + 1;
    }
    best
}

/// The last candidate before `hi`, if any.
fn scan_last_before(nodes: &Vec<Node>, s: usize, subtree: &Vec<usize>, hi: usize) -> (r: Option<usize>)
    requires
        forall|x: usize| subtree@.contains(x) <==> ((x as int) < nodes@.len() && in_subtree(nodes@, x, s)),
        (hi as int) < nodes@.len(),
    ensures
        match r {
            Some(t) => last_before(nodes@, s, hi as int, t as int),
            None => forall|j: int| !(#[trigger] nav_cand(nodes@, s, j) && after(nodes@, j, hi as int)),
        },
{
    let mut best: Option<usize> = None;
    let mut i: usize = 0;
    while i < nodes.len()
        invariant
            i <= nodes@.len(),
            forall|x: usize| subtree@.contains(x) <==> ((x as int) < nodes@.len() && in_subtree(nodes@, x, s)),
            (hi as int) < nodes@.len(),
            match best {
                Some(b) => {
                    &&& (b as int) < i
                    &&& nav_cand(nodes@, s, b as int)
                    &&& after(nodes@, b as int, hi as int)
                    &&& forall|j: int|
                        0 <= j < i && #[trigger] nav_cand(nodes@, s, j) && after(nodes@, j, hi as int) ==> (j == b
                            || after(nodes@, j, b as int))
                },
                None => forall|j: int| 0 <= j < i ==> !(#[trigger] nav_cand(nodes@, s, j) && after(nodes@, j, hi as int)),
            },
        decreases nodes@.len() - i,
    {
        let n = &nodes[i];
        let is_cand = n.row != usize::MAX && !contains_index(subtree, i);
        let before = n.row < nodes[hi].row || (n.row == nodes[hi].row && i < hi);
        if is_cand && before {
            match best {
                None => {
                    best = Some(i);
                },
                Some(b) => {
                    if nodes[b].row <= n.row {
                        best = Some(i);
                    }
                },
            }
        }
        i = i + 1;
    }
    best
}

impl App {
    /// What `reparent_nav_vertical` does: `post` is `pre` after it.
    pub open spec fn reparent_nav_vertical_done(pre: App, post: App, delta: i32) -> bool {
        &&& reparent_ready(post)
        &&& match pre.mode {
                Mode::Reparent { subject, cursor, .. } => if forall|j: int| !#[trigger] nav_cand(pre.nodes@, subject, j) {
                    post == pre
                } else {
                    exists|t: usize|
                        #![trigger navigated(pre, post, t)]
                        nav_step(pre.nodes@, subject, cursor as int, delta as int, t as int) && navigated(
                            pre,
                            post,
                            t,
                        )
                },
                _ => post == pre,
            }
    }

    /// Step the reparent cursor up (`delta <= 0`) or down through the nodes
    /// on screen outside the moved subtree, in screen order.
    pub fn reparent_nav_vertical(&mut self, delta: i32)
        requires
            reparent_ready(*old(self)),
        ensures
            Self::reparent_nav_vertical_done(*old(self), *final(self), delta),
    {
        let (subject, cursor) = match self.mode {
            Mode::Reparent { subject, cursor, .. } => (subject, cursor),
            _ => return,
        };
        let subtree = self.collect_subtree(subject);
        proof {
            lemma_listing_members(self.nodes@, subject, subtree@);
        }
        let cursor_cand = self.nodes[cursor].row != usize::MAX && !contains_index(&subtree, cursor);
        let target = if cursor_cand {
            if delta > 0 {
                match scan_first_after(&self.nodes, subject, &subtree, Some(cursor)) {
                    Some(t) => t,
                    None => cursor,
                }
            } else {
                match scan_last_before(&self.nodes, subject, &subtree, cursor) {
                    Some(t) => t,
                    None => cursor,
                }
            }
        } else {
            match scan_first_after(&self.nodes, subject, &subtree, None) {
                None => return,
                Some(f) => if delta > 0 {
                    match scan_first_after(&self.nodes, subject, &subtree, Some(f)) {
                        Some(t) => t,
                        None => f,
                    }
                } else {
                    f
                },
            }
        };
        proof {
            assert(nav_cand(self.nodes@, subject, target as int) || target == cursor);
        }
        self.reparent_nav_to(target);
    }

    /// What `reparent_nav_parent` does: `post` is `pre` after it.
    pub open spec fn reparent_nav_parent_done(pre: App, post: App) -> bool {
        &&& reparent_ready(post)
        &&& match pre.mode {
                Mode::Reparent { subject, cursor, .. } => match pre.nodes@[cursor as int].parent {
                    Some(p) => if in_subtree(pre.nodes@, p, subject) {
                        post == pre
                    } else {
                        navigated(pre, post, p)
                    },
                    None => post == pre,
                },
                _ => post == pre,
            }
    }

    /// Move the reparent cursor to its node's parent, unless that parent is
    /// inside the moved subtree.
    pub fn reparent_nav_parent(&mut self)
        requires
            reparent_ready(*old(self)),
        ensures
            Self::reparent_nav_parent_done(*old(self), *final(self)),
    {
        let (subject, cursor) = match self.mode {
            Mode::Reparent { subject, cursor, .. } => (subject, cursor),
            _ => return,
        };
        let subtree = self.collect_subtree(subject);
        proof {
            lemma_listing_members(self.nodes@, subject, subtree@);
        }
        if let Some(parent) = self.nodes[cursor].parent {
            if !contains_index(&subtree, parent) {
                self.reparent_nav_to(parent);
            }
        }
    }

    /// What `reparent_nav_child` does: `post` is `pre` after it.
    pub open spec fn reparent_nav_child_done(pre: App, post: App) -> bool {
        &&& reparent_ready(post)
        &&& match pre.mode {
                Mode::Reparent { subject, cursor, .. } => {
                    let cs = pre.nodes@[cursor as int].children@;
                    if exists|k: int| 0 <= k < cs.len() && !#[trigger] in_subtree(pre.nodes@, cs[k], subject) {
                        exists|k: int|
                            0 <= k < cs.len() && !#[trigger] in_subtree(pre.nodes@, cs[k], subject) && (forall|j: int|
                                0 <= j < k ==> in_subtree(pre.nodes@, cs[j], subject)) && navigated(
                                pre,
                                post,
                                cs[k],
                            )
                    } else {
                        post == pre
                    }
                },
                _ => post == pre,
            }
    }

    /// Move the reparent cursor to the first child of its node that lies
    /// outside the moved subtree, if any.
    pub fn reparent_nav_child(&mut self)
        requires
            reparent_ready(*old(self)),
        ensures
            Self::reparent_nav_child_done(*old(self), *final(self)),
    {
        let (subject, cursor) = match self.mode {
            Mode::Reparent { subject, cursor, .. } => (subject, cursor),
            _ => return,
        };
        let subtree = self.collect_subtree(subject);
        proof {
            lemma_listing_members(self.nodes@, subject, subtree@);
        }
        let ghost cs = self.nodes@[cursor as int].children@;
        let mut k: usize = 0;
        let n = self.nodes[cursor].children.len();
        while k < n
            invariant
                reparent_ready(*self),
                *self == *old(self),
                old(self).mode matches Mode::Reparent { subject: s2, cursor: c2, .. } && s2 == subject && c2 == cursor,
                n == cs.len(),
                cs == self.nodes@[cursor as int].children@,
                k <= n,
                forall|x: usize| subtree@.contains(x) <==> ((x as int) < self.nodes@.len() && in_subtree(self.nodes@, x, subject)),
                forall|j: int| 0 <= j < k ==> in_subtree(self.nodes@, cs[j], subject),
            decreases n - k,
        {
            let c = self.nodes[cursor].children[k];
            proof {
                assert(forest(self.nodes@));
                assert((c as int) < self.nodes@.len());
            }
            if !contains_index(&subtree, c) {
                self.reparent_nav_to(c);
                proof {
                    assert(0 <= k < cs.len() && !in_subtree(old(self).nodes@, cs[k as int], subject));
                }
                return;
            }
            k = k + 1;
        }
    }
}

} // verus!
