use vstd::prelude::*;
use std::collections::HashSet;
use crate::app::{App, Effect, ProjectSnapshot};
use crate::mode::Mode;
use crate::forest::{
    forest, in_subtree, moved_to, move_node, position_of, ranked, removal_of, remap_index,
    remap_opt, remove_from, lemma_removal_preserves_forest, lemma_seq_remove_elem,
    lemma_subtree_rank, lemma_subtree_parent,
};
use crate::models::{clone_nodes, clone_notes, clone_opt_string, clone_queries, same_nodes, Node, TimeTag};
use crate::layout::{layout_of, lemma_forest_same_shape, lemma_layout_keeps_content, same_content, lemma_layout_ignores_stamps, restamped, restamped_all, same_tag_shape};
use crate::clock::{is_date_text_safe, now_secs, parse_english_date};
use crate::text::{lowercase, replace_all, replaced, to_lowercase};

verus! {

/// `snap` holds the project state of `app` as a save writes it.
pub open spec fn snapshot_of(app: App, snap: ProjectSnapshot) -> bool {
    &&& same_nodes(snap.nodes@, app.nodes@)
    &&& snap.queries@ == app.queries@
    &&& snap.notes@ == app.notes@
    &&& snap.selected == app.selected
    &&& snap.camera_x == app.camera_x
    &&& snap.camera_y == app.camera_y
    &&& snap.cursor_x == app.cursor_x
    &&& snap.cursor_y == app.cursor_y
    &&& snap.show_note_previews == app.show_note_previews
    &&& snap.name == app.project_name
    &&& snap.created_at == app.project_created_at
    &&& snap.arrows == app.arrow
}

/// `after` is `before` with a save of the open project queued, or `before`
/// itself when no project is open.
pub open spec fn saved(before: App, after: App) -> bool {
    match before.project_path {
        None => after == before,
        Some(path) => {
            &&& after == (App { effects: after.effects, ..before })
            &&& after.effects@.len() == before.effects@.len() + 1
            &&& after.effects@.take(before.effects@.len() as int) == before.effects@
            &&& after.effects@.last() matches Effect::SaveProject { path: p, snapshot }
                && p == path && snapshot_of(before, snapshot)
        },
    }
}

/// The undo stack holds at most this many states.
pub open spec fn undo_cap() -> nat {
    50
}

/// `b` is `a` with its nodes remembered on the undo stack (the oldest
/// states dropped so that the stack holds at most `undo_cap()` states) and
/// a save queued.
pub open spec fn undo_pushed(a: App, b: App) -> bool {
    let n = a.undo_stack@.len();
    let kept = if n >= undo_cap() {
        a.undo_stack@.skip(n - (undo_cap() - 1))
    } else {
        a.undo_stack@
    };
    &&& b.undo_stack@.len() == kept.len() + 1
    &&& b.undo_stack@.take(kept.len() as int) == kept
    &&& same_nodes(b.undo_stack@.last()@, a.nodes@)
    &&& saved(App { undo_stack: b.undo_stack, ..a }, b)
}

/// A node's parent's position of it among the children.
pub open spec fn child_pos(nodes: Seq<Node>, p: usize, c: usize) -> Option<int> {
    if nodes[p as int].children@.contains(c) {
        Some(nodes[p as int].children@.index_of(c))
    } else {
        None
    }
}

/// A parent is never inside the subtree of its child.
pub proof fn lemma_parent_outside(nodes: Seq<Node>, s: usize, p: usize)
    requires
        forest(nodes),
        (s as int) < nodes.len(),
        nodes[s as int].parent == Some(p),
    ensures
        !in_subtree(nodes, p, s),
{
    let rank = choose|rank: Seq<nat>| ranked(nodes, rank);
    if in_subtree(nodes, p, s) {
        let k = choose|k: nat| #[trigger] crate::forest::ancestor(nodes, p, k) == Some(s);
        lemma_subtree_rank(nodes, rank, p, s, k);
    }
}

/// The parent of a node's parent is outside the node's subtree.
pub proof fn lemma_grandparent_outside(nodes: Seq<Node>, s: usize, p: usize, gp: usize)
    requires
        forest(nodes),
        (s as int) < nodes.len(),
        nodes[s as int].parent == Some(p),
        nodes[p as int].parent == Some(gp),
    ensures
        !in_subtree(nodes, gp, s),
{
    let rank = choose|rank: Seq<nat>| ranked(nodes, rank);
    if in_subtree(nodes, gp, s) {
        let k = choose|k: nat| #[trigger] crate::forest::ancestor(nodes, gp, k) == Some(s);
        lemma_subtree_rank(nodes, rank, gp, s, k);
    }
}

/// A sibling of `s` (another child of its parent) is outside the subtree of `s`.
pub proof fn lemma_sibling_outside(nodes: Seq<Node>, s: usize, b: usize)
    requires
        forest(nodes),
        (s as int) < nodes.len(),
        (b as int) < nodes.len(),
        b != s,
        nodes[s as int].parent is Some,
        nodes[b as int].parent == nodes[s as int].parent,
    ensures
        !in_subtree(nodes, b, s),
{
    let p = nodes[s as int].parent->0;
    lemma_parent_outside(nodes, s, p);
    lemma_subtree_parent(nodes, b, s);
}

impl App {
    /// The state a save of the project writes.
    pub fn snapshot(&self) -> (r: ProjectSnapshot)
        ensures
            snapshot_of(*self, r),
    {
        ProjectSnapshot {
            nodes: clone_nodes(&self.nodes),
            queries: clone_queries(&self.queries),
            notes: clone_notes(&self.notes),
            selected: self.selected,
            camera_x: self.camera_x,
            camera_y: self.camera_y,
            cursor_x: self.cursor_x,
            cursor_y: self.cursor_y,
            show_note_previews: self.show_note_previews,
            name: self.project_name.clone(),
            created_at: self.project_created_at,
            arrows: self.arrow,
        }
    }

    /// Queue a save of the open project: its nodes, queries, notes and view
    /// settings, and a new history entry.  Does nothing when no project is open.
    pub fn save_project(&mut self)
        ensures
            saved(*old(self), *final(self)),
    {
        match &self.project_path {
            None => {},
            Some(path) => {
                let snapshot = self.snapshot();
                let e = Effect::SaveProject { path: path.clone(), snapshot };
                self.effects.push(e);
                proof {
                    assert(self.effects@.take(old(self).effects@.len() as int) =~= old(self).effects@);
                }
            },
        }
    }

    /// Remember the current nodes for undo (the oldest states are dropped so
    /// that the stack holds at most `undo_cap()` states) and save the
    /// project.  Does nothing when no
    /// project is open.
    pub fn push_undo(&mut self)
        requires
            old(self).wf(),
        ensures
            final(self).wf(),
            old(self).project_path is None ==> *final(self) == *old(self),
            old(self).project_path is Some ==> undo_pushed(*old(self), *final(self)),
            old(self).project_path is Some ==> final(self).undo_stack@.len() <= undo_cap(),
    {
        if self.project_path.is_none() {
            return;
        }
        let ghost before = self.undo_stack@;
        proof {
            assert(before.skip(0) =~= before);
        }
        while self.undo_stack.len() >= 50
            invariant
                before.len() >= self.undo_stack@.len(),
                self.undo_stack@ == before.skip(before.len() - self.undo_stack@.len()),
                before.len() < 50 ==> self.undo_stack@.len() == before.len(),
                before.len() >= 50 ==> self.undo_stack@.len() >= 49,
                forall|k: int| 0 <= k < before.len() ==> forest(#[trigger] before[k]@),
                before == old(self).undo_stack@,
                old(self).wf(),
                old(self).project_path is Some,
                *self == (App { undo_stack: self.undo_stack, ..*old(self) }),
            decreases self.undo_stack@.len(),
        {
            let ghost cur = self.undo_stack@;
            self.undo_stack.remove(0);
            proof {
                assert(self.undo_stack@ =~= before.skip(before.len() - self.undo_stack@.len()));
            }
        }
        proof {
            if before.len() >= 50 {
                assert(self.undo_stack@.len() == 49);
            } else {
                assert(before.skip(0) =~= before);
            }
        }
        let ghost kept = self.undo_stack@;
        let copy = clone_nodes(&self.nodes);
        proof {
            crate::forest::lemma_same_nodes_forest(copy@, self.nodes@);
        }
        self.undo_stack.push(copy);
        proof {
            assert(self.undo_stack@.take(kept.len() as int) =~= kept);
            assert forall|k: int| 0 <= k < self.undo_stack@.len() implies forest(#[trigger] self.undo_stack@[k]@) by {
                if k < kept.len() {
                    assert(self.undo_stack@[k] == before[k + (before.len() - kept.len())]);
                }
            }
        }
        self.save_project();
    }

    /// Remove the nodes whose indices are in `to_delete` and renumber the
    /// rest; the selection and the link-cycling origin follow the renumbering
    /// (a removed selection becomes 0, a removed origin is forgotten).
    pub fn remove_nodes(&mut self, to_delete: &HashSet<usize>)
        requires
            old(self).wf(),
            to_delete@.len() > 0 ==> (old(self).selected as int) < old(self).nodes@.len(),
            to_delete@.len() > 0 ==> (old(self).last_link_origin matches Some(p) ==> (p as int)
                < old(self).nodes@.len()),
            to_delete@.finite(),
        ensures
            final(self).wf(),
            to_delete@.len() == 0 ==> *final(self) == *old(self),
            to_delete@.len() > 0 ==> {
                &&& removal_of(old(self).nodes@, to_delete@, final(self).nodes@)
                &&& final(self).selected == match remap_index(to_delete@, old(self).selected) {
                    Some(i) => i,
                    None => 0,
                }
                &&& final(self).last_link_origin == remap_opt(to_delete@, old(self).last_link_origin)
                &&& *final(self) == (App {
                    nodes: final(self).nodes,
                    selected: final(self).selected,
                    last_link_origin: final(self).last_link_origin,
                    ..*old(self)
                })
            },
    {
        broadcast use vstd::std_specs::hash::group_hash_axioms;
        if to_delete.is_empty() {
            proof {
                assert(to_delete@.len() == 0) by {
                    vstd::set_lib::lemma_set_empty_equivalency_len(to_delete@);
                }
            }
            return;
        }
        proof {
            if to_delete@.len() == 0 {
                vstd::set_lib::lemma_set_empty_equivalency_len(to_delete@);
            }
        }
        let (new_nodes, remap) = remove_from(&self.nodes, to_delete);
        self.selected = match remap[self.selected] {
            Some(i) => i,
            None => 0,
        };
        self.last_link_origin = match self.last_link_origin {
            Some(p) => remap[p],
            None => None,
        };
        proof {
            lemma_removal_preserves_forest(self.nodes@, to_delete@, new_nodes@);
        }
        self.nodes = new_nodes;
    }

    /// What `indent_increase` does: `post` is `pre` after it.
    pub open spec fn indent_increase_done(pre: App, post: App) -> bool {
        &&& post.wf()
        &&& ({
                let s = pre.selected;
                let nodes = pre.nodes@;
                if pre.has_selection_spec() && nodes[s as int].parent is Some && child_pos(
                    nodes,
                    nodes[s as int].parent->0,
                    s,
                )->0 > 0 {
                    let p = nodes[s as int].parent->0;
                    let pos = child_pos(nodes, p, s)->0;
                    let prev = nodes[p as int].children@[pos - 1];
                    let pushed = App { undo_stack: post.undo_stack, effects: post.effects, ..pre };
                    &&& moved_to(nodes, post.nodes@, s, Some(prev), None)
                    &&& post == (App { nodes: post.nodes, ..pushed })
                    &&& pre.project_path is Some ==> same_nodes(post.undo_stack@.last()@, nodes)
                } else {
                    post == pre
                }
            })
    }

    /// Nest the selected node under its previous sibling (it becomes that
    /// sibling's last child).  Does nothing without a selection, for a root,
    /// or for a first child.
    pub fn indent_increase(&mut self)
        requires
            old(self).wf(),
        ensures
            Self::indent_increase_done(*old(self), *final(self)),
    {
        if !self.has_selection() {
            return;
        }
        let s = self.selected;
        let parent = match self.nodes[s].parent {
            Some(p) => p,
            None => return,
        };
        proof {
            assert(self.nodes@[parent as int].children@.contains(s));
        }
        let pos = match position_of(&self.nodes[parent].children, s) {
            Some(p) => p,
            None => return,
        };
        proof {
            lemma_seq_remove_elem(self.nodes@[parent as int].children@, pos as int, s);
        }
        if pos == 0 {
            return;
        }
        self.push_undo();
        let prev = self.nodes[parent].children[pos - 1];
        proof {
            assert(self.nodes@[parent as int].children@.contains(prev));
            assert(self.nodes@[prev as int].parent == Some(parent));
            lemma_sibling_outside(self.nodes@, s, prev);
        }
        move_node(&mut self.nodes, s, Some(prev), None);
    }

    /// What `indent_decrease` does: `post` is `pre` after it.
    pub open spec fn indent_decrease_done(pre: App, post: App) -> bool {
        &&& post.wf()
        &&& ({
                let s = pre.selected;
                let nodes = pre.nodes@;
                if pre.has_selection_spec() && nodes[s as int].parent is Some
                    && nodes[nodes[s as int].parent->0 as int].parent is Some {
                    let p = nodes[s as int].parent->0;
                    let gp = nodes[p as int].parent->0;
                    let ppos = child_pos(nodes, gp, p)->0;
                    let pushed = App { undo_stack: post.undo_stack, effects: post.effects, ..pre };
                    &&& moved_to(nodes, post.nodes@, s, Some(gp), Some((ppos + 1) as usize))
                    &&& post == (App { nodes: post.nodes, ..pushed })
                    &&& pre.project_path is Some ==> same_nodes(post.undo_stack@.last()@, nodes)
                } else {
                    post == pre
                }
            })
    }

    /// Promote the selected node: it leaves its parent and goes right after
    /// that parent among the grandparent's children.  Does nothing without a
    /// selection, for a root, or for a child of a root.
    pub fn indent_decrease(&mut self)
        requires
            old(self).wf(),
        ensures
            Self::indent_decrease_done(*old(self), *final(self)),
    {
        if !self.has_selection() {
            return;
        }
        let s = self.selected;
        let parent = match self.nodes[s].parent {
            Some(p) => p,
            None => return,
        };
        let gp = match self.nodes[parent].parent {
            Some(g) => g,
            None => return,
        };
        proof {
            assert(self.nodes@[gp as int].children@.contains(parent));
        }
        let ppos = match position_of(&self.nodes[gp].children, parent) {
            Some(k) => k,
            None => return,
        };
        proof {
            lemma_seq_remove_elem(self.nodes@[gp as int].children@, ppos as int, parent);
            lemma_grandparent_outside(self.nodes@, s, parent, gp);
        }
        self.push_undo();
        move_node(&mut self.nodes, s, Some(gp), Some(ppos + 1));
    }
}

/// A time tag that recurs and whose time has passed.
pub open spec fn due(tag: TimeTag, now: i64) -> bool {
    tag.pattern is Some && tag.timestamp < now
}

/// `b` is `a` with each due time tag either left alone or moved to some
/// other time; tags that are not due keep their time.
pub open spec fn advanced(a: Seq<Node>, b: Seq<Node>, now: i64) -> bool {
    &&& restamped_all(a, b)
    &&& forall|i: int, j: int|
        0 <= i < a.len() && 0 <= j < a[i].times@.len() && !due(a[i].times@[j].1, now) ==> (#[trigger] b[i].times@[j]).1.timestamp
            == a[i].times@[j].1.timestamp
}

/// The text handed to the date parser for a recurrence pattern: lowercase,
/// with "every" read as "next".
pub open spec fn next_occurrence_text(pattern: Seq<char>) -> Seq<char> {
    replaced(lowercase(pattern), "every"@, "next"@)
}

/// Move the due recurring tags of `times` to their next occurrence, as far
/// as the date parser understands their patterns; `true` when any tag was
/// rewritten.
fn advance_times(times: &Vec<(String, TimeTag)>, now: i64) -> (r: (Vec<(String, TimeTag)>, bool))
    ensures
        same_tag_shape(times@, r.0@),
        forall|j: int|
            0 <= j < times@.len() && !due(times@[j].1, now) ==> (#[trigger] r.0@[j]).1.timestamp == times@[j].1.timestamp,
        forall|j: int| 0 <= j < times@.len() ==> (#[trigger] r.0@[j]).0 == times@[j].0,
        !r.1 ==> forall|j: int| 0 <= j < times@.len() ==> (#[trigger] r.0@[j]).1.timestamp == times@[j].1.timestamp,
        r.1 ==> exists|j: int| 0 <= j < times@.len() && due(#[trigger] times@[j].1, now),
{
    let mut out: Vec<(String, TimeTag)> = Vec::new();
    let mut changed = false;
    let mut j: usize = 0;
    while j < times.len()
        invariant
            j <= times@.len(),
            out@.len() == j,
            forall|k: int| 0 <= k < j ==> (#[trigger] out@[k]).0 == times@[k].0 && out@[k].1.pattern == times@[k].1.pattern,
            forall|k: int|
                0 <= k < j && !due(times@[k].1, now) ==> (#[trigger] out@[k]).1.timestamp == times@[k].1.timestamp,
            !changed ==> forall|k: int| 0 <= k < j ==> (#[trigger] out@[k]).1.timestamp == times@[k].1.timestamp,
            changed ==> exists|k: int| 0 <= k < j && due(#[trigger] times@[k].1, now),
        decreases times@.len() - j,
    {
        let (key, tag) = &times[j];
        let mut ts = tag.timestamp;
        if let Some(pattern) = &tag.pattern {
            if tag.timestamp < now {
                let lower = to_lowercase(pattern.as_str());
                proof {
                    reveal_strlit("every");
                }
                let text = replace_all(lower.as_str(), "every", "next");
                let parsed = if is_date_text_safe(text.as_str()) {
                    parse_english_date(text.as_str(), now)
                } else {
                    None
                };
                match parsed {
                    Some(t) => {
                        ts = t;
                        changed = true;
                        proof {
                            assert(due(times@[j as int].1, now));
                        }
                    },
                    None => {},
                }
            }
        }
        out.push((key.clone(), TimeTag { timestamp: ts, pattern: clone_opt_string(&tag.pattern) }));
        j = j + 1;
    }
    (out, changed)
}

impl App {
    /// Move every recurring time tag whose time has passed to its next
    /// occurrence (as far as the date parser understands its pattern);
    /// `true` when any tag was rewritten.
    pub fn advance_recurring(&mut self, now: i64) -> (r: bool)
        ensures
            advanced(old(self).nodes@, final(self).nodes@, now),
            !r ==> final(self).nodes@ == old(self).nodes@,
            r ==> exists|i: int, j: int|
                0 <= i < old(self).nodes@.len() && 0 <= j < old(self).nodes@[i].times@.len() && due(
                    #[trigger] old(self).nodes@[i].times@[j].1,
                    now,
                ),
            *final(self) == (App { nodes: final(self).nodes, ..*old(self) }),
    {
        let mut changed = false;
        let mut i: usize = 0;
        while i < self.nodes.len()
            invariant
                i <= self.nodes@.len(),
                self.nodes@.len() == old(self).nodes@.len(),
                *self == (App { nodes: self.nodes, ..*old(self) }),
                forall|k: int| 0 <= k < self.nodes@.len() ==> restamped(old(self).nodes@[k], #[trigger] self.nodes@[k]),
                forall|k: int, j: int|
                    0 <= k < self.nodes@.len() && 0 <= j < old(self).nodes@[k].times@.len() && !due(old(self).nodes@[k].times@[j].1, now)
                        ==> (#[trigger] self.nodes@[k].times@[j]).1.timestamp == old(self).nodes@[k].times@[j].1.timestamp,
                forall|k: int| i <= k < self.nodes@.len() ==> #[trigger] self.nodes@[k] == old(self).nodes@[k],
                !changed ==> self.nodes@ == old(self).nodes@,
                changed ==> exists|k: int, j: int|
                    0 <= k < i && 0 <= j < old(self).nodes@[k].times@.len() && due(#[trigger] old(self).nodes@[k].times@[j].1, now),
            decreases self.nodes@.len() - i,
        {
            let (times, c) = advance_times(&self.nodes[i].times, now);
            if c {
                proof {
                    let j = choose|j: int| 0 <= j < self.nodes@[i as int].times@.len() && due(#[trigger] self.nodes@[i as int].times@[j].1, now);
                    assert(self.nodes@[i as int] == old(self).nodes@[i as int]);
                    assert(due(old(self).nodes@[i as int].times@[j].1, now));
                }
                self.nodes[i].times = times;
                changed = true;
            }
            i = i + 1;
        }
        changed
    }

    /// Lay the canvas out afresh.  First the recurring time tags whose time
    /// has passed move to their next occurrence (and the project is saved
    /// when any did); then every tree is laid out as `layout_nodes` does.
    /// Returns the visible `(node, depth)` order.
    pub fn recompute_layout(&mut self) -> (order: Vec<(usize, usize)>)
        requires
            old(self).wf(),
            layout_of(old(self).nodes@, old(self).mode).2,
        ensures
            final(self).wf(),
            exists|now: i64, mid: App|
                {
                    &&& #[trigger] advanced(old(self).nodes@, mid.nodes@, now)
                    &&& (mid == *old(self) || saved(App { nodes: mid.nodes, ..*old(self) }, mid))
                    &&& final(self).nodes@ == layout_of(mid.nodes@, mid.mode).0
                    &&& order@ == layout_of(mid.nodes@, mid.mode).1
                    &&& *final(self) == (App { nodes: final(self).nodes, ..mid })
                },
    {
        let now = now_secs();
        let ghost before = self.nodes@;
        assert(before.len() == self.nodes.len());
        let changed = self.advance_recurring(now);
        if changed {
            self.save_project();
        }
        let ghost mid = *self;
        proof {
            lemma_layout_ignores_stamps(before, self.nodes@, self.mode);
            lemma_forest_same_shape(before, self.nodes@);
        }
        let order = self.layout_nodes();
        proof {
            assert(advanced(old(self).nodes@, mid.nodes@, now));
        }
        order
    }
}

impl App {
    /// What `try_recompute_layout` does: `post` is `pre` after it, `r` its result.
    pub open spec fn try_recompute_layout_done(pre: App, post: App, r: Option<Vec<(usize, usize)>>) -> bool {
        &&& post.wf()
        &&& r is Some <==> layout_of(pre.nodes@, pre.mode).2
        &&& exists|now: i64, mid: App|
                {
                    &&& #[trigger] advanced(pre.nodes@, mid.nodes@, now)
                    &&& (mid == pre || saved(App { nodes: mid.nodes, ..pre }, mid))
                    &&& crate::layout::same_contents(mid.nodes@, post.nodes@)
                    &&& post == (App { nodes: post.nodes, ..mid })
                    &&& r matches Some(order) ==> post.nodes@ == layout_of(mid.nodes@, mid.mode).0 && order@
                        == layout_of(mid.nodes@, mid.mode).1
                }
    }

    /// Lay the canvas out afresh as `recompute_layout` does when the
    /// arithmetic of the layout fits; otherwise (the recurring time tags
    /// moved on and saved all the same) stop at the first tree that does not
    /// fit, keep the nodes' content, and return `None`.
    pub fn try_recompute_layout(&mut self) -> (r: Option<Vec<(usize, usize)>>)
        requires
            old(self).wf(),
        ensures
            Self::try_recompute_layout_done(*old(self), *final(self), r),
    {
        let now = now_secs();
        let ghost before = self.nodes@;
        assert(before.len() == self.nodes.len());
        let changed = self.advance_recurring(now);
        if changed {
            self.save_project();
        }
        let ghost mid = *self;
        proof {
            lemma_layout_ignores_stamps(before, self.nodes@, self.mode);
            lemma_forest_same_shape(before, self.nodes@);
        }
        let r = self.try_layout_nodes();
        proof {
            assert(advanced(old(self).nodes@, mid.nodes@, now));
        }
        r
    }
}

/// `b` holds the nodes of `a` again as far as content goes: the same
/// labels, tree, links and metadata, with at most the layout and the times
/// of time tags changed.
pub open spec fn same_content_restamped(a: Seq<Node>, b: Seq<Node>) -> bool {
    &&& a.len() == b.len()
    &&& forall|i: int|
        0 <= i < a.len() ==> same_content(a[i], Node { times: a[i].times, ..#[trigger] b[i] }) && same_tag_shape(
            a[i].times@,
            b[i].times@,
        )
}

proof fn lemma_restamped_content(a: Seq<Node>, mid: Seq<Node>, b: Seq<Node>)
    requires
        restamped_all(a, mid),
        crate::layout::same_contents(mid, b),
    ensures
        same_content_restamped(a, b),
{
    assert forall|i: int| 0 <= i < a.len() implies same_content(a[i], Node { times: a[i].times, ..#[trigger] b[i] })
        && same_tag_shape(a[i].times@, b[i].times@) by {
        assert(restamped(a[i], mid[i]));
        assert(same_content(mid[i], b[i]));
    }
}

/// `b` is `a` after a successful undo: the top of the undo stack is back
/// (laid out afresh, recurring times possibly moved on), saved, the two
/// newest history entries dropped, and the status bar says so.
pub open spec fn undone(a: App, b: App) -> bool {
    &&& says(b.status_message, "Undo applied"@)
    &&& b.undo_stack@ == a.undo_stack@.drop_last()
    &&& same_content_restamped(a.undo_stack@.last()@, b.nodes@)
    &&& b == (App { nodes: b.nodes, undo_stack: b.undo_stack, effects: b.effects, status_message: b.status_message, ..a })
    &&& b.effects@.len() >= a.effects@.len()
    &&& b.effects@.take(a.effects@.len() as int) == a.effects@
    &&& match a.project_path {
        Some(path) => {
            let n = b.effects@.len();
            &&& n >= a.effects@.len() + 2
            &&& b.effects@[n - 1] == (Effect::DropHistory { path, count: 2 })
            &&& b.effects@[n - 2] matches Effect::SaveProject { path: p, snapshot } && p == path && snapshot_of(b, snapshot)
        },
        None => b.effects@ == a.effects@,
    }
}

/// Nesting a node under its previous sibling and then promoting it puts
/// it back where it was: the nodes are as before.  (`b` is what
/// `indent_increase` leaves, `c` what `indent_decrease` then leaves.)
pub proof fn lemma_indent_round_trip(a: Seq<Node>, b: Seq<Node>, c: Seq<Node>, s: usize, p: usize, pos: int)
    requires
        forest(a),
        forest(b),
        a.len() <= usize::MAX,
        (s as int) < a.len(),
        a[s as int].parent == Some(p),
        child_pos(a, p, s) == Some(pos),
        pos > 0,
        moved_to(a, b, s, Some(a[p as int].children@[pos - 1]), None),
        moved_to(b, c, s, Some(p), Some((child_pos(b, p, a[p as int].children@[pos - 1])->0 + 1) as usize)),
    ensures
        same_nodes(c, a),
{
    let prev = a[p as int].children@[pos - 1];
    let ca = a[p as int].children@;
    assert((p as int) < a.len());
    assert(ca.contains(s));
    assert(ca.index_of(s) == pos);
    assert(ca[pos] == s);
    assert(prev != s);
    assert(a[prev as int].parent == Some(p));
    let cb = b[p as int].children@;
    assert(cb == ca.remove(pos));
    assert(cb[pos - 1] == prev);
    assert(cb.contains(prev));
    assert(forest(b));
    assert(cb.no_duplicates());
    assert(cb.index_of(prev) == pos - 1);
    assert(child_pos(b, p, prev) == Some(pos - 1));
    assert(crate::forest::same_but_placement(a, a, s)) by {
        assert forall|i: int| 0 <= i < a.len() implies crate::forest::strip((#[trigger] a[i]).children@, s) == crate::forest::strip(a[i].children@, s) by {}
    }
    crate::forest::lemma_move_same_but_placement(a, a, b, s, Some(prev), None);
    assert(ca.no_duplicates());
    crate::forest::lemma_distinct_bounded(ca, a.len());
    assert(0 <= pos < ca.len());
    assert((pos as usize) as int == pos);
    crate::forest::lemma_cancel_restores(a, b, c, s, pos as usize);
}

/// What a push of the undo stack remembered, an undo brings back: after
/// `push_undo` took `a` to `b`, whatever happened to the nodes while the undo
/// stack stayed as `b` left it, an undo from there restores the content of
/// the nodes of `a` and the undo stack `a` had (when it was not full).
pub proof fn lemma_undo_restores(a: App, b: App, c: App, d: App)
    requires
        undo_pushed(a, b),
        c.undo_stack@ == b.undo_stack@,
        undone(c, d),
    ensures
        same_content_restamped(a.nodes@, d.nodes@),
        a.undo_stack@.len() < undo_cap() ==> d.undo_stack@ == a.undo_stack@,
{
    let top = b.undo_stack@.last()@;
    assert(same_nodes(top, a.nodes@));
    assert(same_content_restamped(top, d.nodes@));
    assert forall|i: int| 0 <= i < a.nodes@.len() implies same_content(a.nodes@[i], Node { times: a.nodes@[i].times, ..#[trigger] d.nodes@[i] })
        && same_tag_shape(a.nodes@[i].times@, d.nodes@[i].times@) by {
        assert(crate::models::same_node(top[i], a.nodes@[i]));
        assert(same_content(top[i], Node { times: top[i].times, ..d.nodes@[i] }));
    }
    if a.undo_stack@.len() < undo_cap() {
        assert(d.undo_stack@ =~= a.undo_stack@);
    }
}

/// The status message `m`.
pub open spec fn says(msg: Option<String>, m: Seq<char>) -> bool {
    msg matches Some(s) && s@ == m
}

impl App {
    /// What `undo` does: `post` is `pre` after it.
    pub open spec fn undo_done(pre: App, post: App) -> bool {
        &&& post.wf()
        &&& pre.undo_stack@.len() == 0 ==> {
                &&& says(post.status_message, "Nothing to undo"@)
                &&& post == (App { status_message: post.status_message, ..pre })
            }
        &&& pre.undo_stack@.len() > 0 ==> undone(pre, post)
    }

    /// Go back to the nodes on top of the undo stack: they are laid out
    /// afresh, the project is saved and the two newest history entries are
    /// dropped; the status bar says what happened.
    pub fn undo(&mut self)
        requires
            old(self).wf(),
        ensures
            Self::undo_done(*old(self), *final(self)),
    {
        proof {
            reveal_strlit("Nothing to undo");
            reveal_strlit("Undo applied");
        }
        if self.undo_stack.len() == 0 {
            self.status_message = Some(String::from_str("Nothing to undo"));
            return;
        }
        match self.undo_stack.pop() {
            Some(prev) => {
                let ghost e0 = self.effects@;
                let plen = prev.len();
                self.nodes = prev;
                let _ = self.try_recompute_layout();
                proof {
                    let (now, mid) = choose|now: i64, mid: App| {
                        &&& #[trigger] advanced(prev@, mid.nodes@, now)
                        &&& (mid == App { nodes: prev, undo_stack: self.undo_stack, ..*old(self) } || saved(
                            App { nodes: mid.nodes, ..App { nodes: prev, undo_stack: self.undo_stack, ..*old(self) } },
                            mid,
                        ))
                        &&& crate::layout::same_contents(mid.nodes@, self.nodes@)
                        &&& *self == (App { nodes: self.nodes, ..mid })
                    };
                    assert(prev@.len() == plen);
                    lemma_forest_same_shape(prev@, mid.nodes@);
                    lemma_restamped_content(prev@, mid.nodes@, self.nodes@);
                    assert(self.effects@.take(e0.len() as int) == e0);
                }
                let ghost e1 = self.effects@;
                self.save_project();
                match &self.project_path {
                    Some(path) => {
                        self.effects.push(Effect::DropHistory { path: path.clone(), count: 2 });
                    },
                    None => {},
                }
                self.status_message = Some(String::from_str("Undo applied"));
                proof {
                    assert(self.effects@.take(e0.len() as int) =~= e0) by {
                        assert(e1.take(e0.len() as int) == e0);
                    }
                }
            },
            None => {
                self.status_message = Some(String::from_str("Nothing to undo"));
            },
        }
    }
}

} // verus!
