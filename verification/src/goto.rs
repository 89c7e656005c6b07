//! Fuzzy search over node labels ("goto").

use vstd::prelude::*;
use vstd::string::StrSliceExecFns;
use crate::app::{canvas_ok, mode_ok, App};
use crate::buffer::{at_char, buf_backspace, buf_insert, move_cursor_in_buf, buf_ok, char_index, char_width};
use crate::mode::{CanvasState, Mode};
use crate::models::Node;
use crate::text::{lowercase, to_lowercase};

verus! {

/// The characters of `p` occur in `t` in order (not necessarily together),
/// each matched to the earliest possible character.
pub open spec fn subseq_of(p: Seq<char>, t: Seq<char>) -> bool
    decreases t.len(),
{
    if p.len() == 0 {
        true
    } else if t.len() == 0 {
        false
    } else if t[0] == p[0] {
        subseq_of(p.drop_first(), t.drop_first())
    } else {
        subseq_of(p, t.drop_first())
    }
}

/// `m` places the characters of `p` in `t`: at increasing positions, each
/// holding the character it places.
pub open spec fn embeds(p: Seq<char>, t: Seq<char>, m: Seq<int>) -> bool {
    &&& m.len() == p.len()
    &&& forall|i: int| 0 <= i < m.len() ==> 0 <= #[trigger] m[i] < t.len() && t[m[i]] == p[i]
    &&& forall|i: int, j: int| 0 <= i < j < m.len() ==> #[trigger] m[i] < #[trigger] m[j]
}

/// The greedy matching of `subseq_of` finds `p` in `t` exactly when `p` is
/// a subsequence of `t`: when its characters can be placed in `t` at
/// increasing positions.
pub proof fn lemma_fuzzy_is_subsequence(p: Seq<char>, t: Seq<char>)
    ensures
        subseq_of(p, t) <==> exists|m: Seq<int>| embeds(p, t, m),
    decreases t.len(),
{
    if p.len() == 0 {
        assert(embeds(p, t, Seq::<int>::empty()));
    } else if t.len() == 0 {
        if exists|m: Seq<int>| embeds(p, t, m) {
            let m = choose|m: Seq<int>| embeds(p, t, m);
            assert(0 <= m[0] < t.len());
        }
    } else {
        let t1 = t.drop_first();
        if t[0] == p[0] {
            let p1 = p.drop_first();
            lemma_fuzzy_is_subsequence(p1, t1);
            if subseq_of(p1, t1) {
                let m1 = choose|m: Seq<int>| embeds(p1, t1, m);
                let m = seq![0int] + m1.map_values(|x: int| x + 1);
                assert forall|i: int| 0 <= i < m.len() implies 0 <= #[trigger] m[i] < t.len() && t[m[i]] == p[i] by {
                    if i > 0 {
                        assert(m[i] == m1[i - 1] + 1);
                        assert(0 <= m1[i - 1] < t1.len());
                    }
                }
                assert forall|i: int, j: int| 0 <= i < j < m.len() implies #[trigger] m[i] < #[trigger] m[j] by {
                    assert(m[j] == m1[j - 1] + 1);
                    assert(0 <= m1[j - 1]);
                    if i > 0 {
                        assert(m[i] == m1[i - 1] + 1);
                        assert(m1[i - 1] < m1[j - 1]);
                    }
                }
                assert(embeds(p, t, m));
            }
            if exists|m: Seq<int>| embeds(p, t, m) {
                let m = choose|m: Seq<int>| embeds(p, t, m);
                let m1 = m.drop_first().map_values(|x: int| x - 1);
                assert forall|i: int| 0 <= i < m1.len() implies 0 <= #[trigger] m1[i] < t1.len() && t1[m1[i]] == p1[i] by {
                    assert(m[0] < m[i + 1]);
                    assert(0 <= m[0]);
                    assert(0 <= m[i + 1] < t.len());
                }
                assert forall|i: int, j: int| 0 <= i < j < m1.len() implies #[trigger] m1[i] < #[trigger] m1[j] by {
                    assert(m[i + 1] < m[j + 1]);
                }
                assert(embeds(p1, t1, m1));
            }
        } else {
            lemma_fuzzy_is_subsequence(p, t1);
            if subseq_of(p, t1) {
                let m1 = choose|m: Seq<int>| embeds(p, t1, m);
                let m = m1.map_values(|x: int| x + 1);
                assert forall|i: int| 0 <= i < m.len() implies 0 <= #[trigger] m[i] < t.len() && t[m[i]] == p[i] by {
                    assert(0 <= m1[i] < t1.len());
                }
                assert forall|i: int, j: int| 0 <= i < j < m.len() implies #[trigger] m[i] < #[trigger] m[j] by {
                    assert(m1[i] < m1[j]);
                }
                assert(embeds(p, t, m));
            }
            if exists|m: Seq<int>| embeds(p, t, m) {
                let m = choose|m: Seq<int>| embeds(p, t, m);
                assert(m[0] != 0) by {
                    assert(t[m[0]] == p[0]);
                }
                let m1 = m.map_values(|x: int| x - 1);
                assert forall|i: int| 0 <= i < m1.len() implies 0 <= #[trigger] m1[i] < t1.len() && t1[m1[i]] == p[i] by {
                    assert(0 <= m[i] < t.len());
                    if i > 0 {
                        assert(m[0] < m[i]);
                    }
                }
                assert forall|i: int, j: int| 0 <= i < j < m1.len() implies #[trigger] m1[i] < #[trigger] m1[j] by {
                    assert(m[i] < m[j]);
                }
                assert(embeds(p, t1, m1));
            }
        }
    }
}

/// Every character of `pattern` is found in `text`, in order.
pub fn fuzzy_match(text: &str, pattern: &str) -> (r: bool)
    ensures
        r == subseq_of(pattern@, text@),
{
    let tn = text.unicode_len();
    let pn = pattern.unicode_len();
    let mut i: usize = 0;
    let mut j: usize = 0;
    proof {
        assert(pattern@.skip(0) =~= pattern@);
        assert(text@.skip(0) =~= text@);
    }
    while j < pn
        invariant
            tn == text@.len(),
            pn == pattern@.len(),
            i <= tn,
            j <= pn,
            subseq_of(pattern@, text@) == subseq_of(pattern@.skip(j as int), text@.skip(i as int)),
        decreases tn - i + pn - j,
    {
        if i >= tn {
            proof {
                assert(text@.skip(i as int).len() == 0);
            }
            return false;
        }
        let t = text.get_char(i);
        let p = pattern.get_char(j);
        proof {
            assert(text@.skip(i as int).drop_first() =~= text@.skip(i as int + 1));
            assert(pattern@.skip(j as int).drop_first() =~= pattern@.skip(j as int + 1));
        }
        if t == p {
            j = j + 1;
        }
        i = i + 1;
    }
    proof {
        assert(pattern@.skip(j as int).len() == 0);
    }
    true
}

/// The nodes among the first `k` whose lowercase label holds the lowercase
/// query in order, by index.
pub open spec fn goto_matches(nodes: Seq<Node>, query: Seq<char>, k: int) -> Seq<usize>
    decreases k,
{
    if k <= 0 {
        Seq::empty()
    } else {
        let r = goto_matches(nodes, query, k - 1);
        if subseq_of(lowercase(query), lowercase(nodes[k - 1].label@)) {
            r.push((k - 1) as usize)
        } else {
            r
        }
    }
}

/// The matches of a search for `query` (none for an empty query).
pub open spec fn search(nodes: Seq<Node>, query: Seq<char>) -> Seq<usize> {
    if query.len() == 0 {
        Seq::empty()
    } else {
        goto_matches(nodes, query, nodes.len() as int)
    }
}

proof fn lemma_goto_matches_range(nodes: Seq<Node>, query: Seq<char>, k: int)
    requires
        k <= nodes.len(),
    ensures
        forall|j: int| 0 <= j < goto_matches(nodes, query, k).len() ==> (#[trigger] goto_matches(nodes, query, k)[j] as int) < k,
    decreases k,
{
    if k > 0 {
        lemma_goto_matches_range(nodes, query, k - 1);
        let r = goto_matches(nodes, query, k - 1);
        assert forall|j: int| 0 <= j < goto_matches(nodes, query, k).len() implies (#[trigger] goto_matches(nodes, query, k)[j] as int) < k by {
            if j < r.len() {
                assert(goto_matches(nodes, query, k)[j] == r[j]);
            }
        }
    }
}

/// The nodes whose labels match `query`.
fn find_matches(nodes: &Vec<Node>, query: &String) -> (r: Vec<usize>)
    ensures
        r@ == search(nodes@, query@),
        forall|j: int| 0 <= j < r@.len() ==> (#[trigger] r@[j] as int) < nodes@.len(),
{
    let mut r: Vec<usize> = Vec::new();
    if query.as_str().is_empty() {
        return r;
    }
    let q = to_lowercase(query.as_str());
    let mut i: usize = 0;
    while i < nodes.len()
        invariant
            i <= nodes@.len(),
            q@ == lowercase(query@),
            r@ == goto_matches(nodes@, query@, i as int),
        decreases nodes@.len() - i,
    {
        let label = to_lowercase(nodes[i].label.as_str());
        if fuzzy_match(label.as_str(), q.as_str()) {
            r.push(i);
        }
        i = i + 1;
    }
    proof {
        lemma_goto_matches_range(nodes@, query@, nodes@.len() as int);
    }
    r
}

/// The search state of a goto mode.
pub open spec fn goto_parts(mode: Mode) -> Option<(Seq<char>, usize, Seq<usize>, usize)> {
    match mode {
        Mode::Canvas { state: CanvasState::Goto { buf, cursor, matches, match_idx, .. } } => Some((buf@, cursor, matches@, match_idx)),
        _ => None,
    }
}

/// `b` is goto mode `a` with buffer `buf`, cursor `cursor` and the matches
/// of `buf` (the first one current); the previous state is kept.
pub open spec fn searched(a: Mode, b: Mode, nodes: Seq<Node>, buf: Seq<char>, cursor: int) -> bool {
    &&& a matches Mode::Canvas { state: CanvasState::Goto { previous, .. } }
    &&& b matches Mode::Canvas { state: CanvasState::Goto { buf: b2, cursor: c2, matches: m2, match_idx: i2, previous: p2 } }
    &&& b->Canvas_state->Goto_buf@ == buf
    &&& b->Canvas_state->Goto_cursor == cursor
    &&& b->Canvas_state->Goto_matches@ == search(nodes, buf)
    &&& b->Canvas_state->Goto_match_idx == 0
    &&& b->Canvas_state->Goto_previous == a->Canvas_state->Goto_previous
}

/// The selection after a search: the first match, if any.
pub open spec fn selected_after(old_sel: usize, nodes: Seq<Node>, buf: Seq<char>) -> usize {
    if search(nodes, buf).len() > 0 {
        search(nodes, buf)[0]
    } else {
        old_sel
    }
}

impl App {
    /// What `canvas_start_goto` does: `post` is `pre` after it.
    pub open spec fn canvas_start_goto_done(pre: App, post: App) -> bool {
        &&& mode_ok(post.mode, post.nodes@)
        &&& post.mode == (Mode::Canvas {
                state: CanvasState::Goto {
                    buf: post.mode->Canvas_state->Goto_buf,
                    cursor: 0,
                    matches: post.mode->Canvas_state->Goto_matches,
                    match_idx: 0,
                    previous: Box::new(
                        match pre.mode {
                            Mode::Canvas { state } => state,
                            _ => CanvasState::Browse,
                        },
                    ),
                },
            })
        &&& post.mode->Canvas_state->Goto_buf@.len() == 0
        &&& post.mode->Canvas_state->Goto_matches@.len() == 0
        &&& post == (App { mode: post.mode, ..pre })
    }

    /// Open the search, remembering the current canvas sub-state (browsing
    /// when not on the canvas) to return to.
    pub fn canvas_start_goto(&mut self)
        requires
            mode_ok(old(self).mode, old(self).nodes@),
        ensures
            Self::canvas_start_goto_done(*old(self), *final(self)),
    {
        let mut current = Mode::Help;
        std::mem::swap(&mut current, &mut self.mode);
        let previous = match current {
            Mode::Canvas { state } => state,
            _ => CanvasState::Browse,
        };
        proof {
            assert(canvas_ok(previous, self.nodes@));
        }
        self.mode = Mode::Canvas {
            state: CanvasState::Goto {
                buf: String::new(),
                cursor: 0,
                matches: Vec::new(),
                match_idx: 0,
                previous: Box::new(previous),
            },
        };
        proof {
            assert(Seq::<char>::empty().take(0) =~= Seq::<char>::empty());
            assert(at_char(Seq::<char>::empty(), 0, 0)) by {
                assert(vstd::utf8::encode_utf8(Seq::<char>::empty()) =~= Seq::<u8>::empty());
            }
        }
    }

    /// Redo the search for the current query; the first match is selected.
    fn update_goto_matches(&mut self)
        ensures
            match goto_parts(old(self).mode) {
                Some((buf, cursor, _, _)) => {
                    &&& searched(old(self).mode, final(self).mode, old(self).nodes@, buf, cursor as int)
                    &&& final(self).selected == selected_after(old(self).selected, old(self).nodes@, buf)
                    &&& *final(self) == (App { mode: final(self).mode, selected: final(self).selected, ..*old(self) })
                },
                None => *final(self) == *old(self),
            },
    {
        let found = match &self.mode {
            Mode::Canvas { state: CanvasState::Goto { buf, .. } } => find_matches(&self.nodes, buf),
            _ => return,
        };
        if found.len() > 0 {
            self.selected = found[0];
        }
        match &mut self.mode {
            Mode::Canvas { state: CanvasState::Goto { matches, match_idx, .. } } => {
                *matches = found;
                *match_idx = 0;
            },
            _ => {},
        }
    }

    /// What `canvas_goto_input_char` does: `post` is `pre` after it.
    pub open spec fn canvas_goto_input_char_done(pre: App, post: App, c: char) -> bool {
        &&& mode_ok(post.mode, post.nodes@)
        &&& match goto_parts(pre.mode) {
                Some((buf, cursor, _, _)) => {
                    let k = char_index(buf, cursor as int);
                    let b2 = buf.insert(k, c);
                    &&& searched(pre.mode, post.mode, pre.nodes@, b2, cursor + char_width(c))
                    &&& at_char(b2, cursor + char_width(c), k + 1)
                    &&& post.selected == selected_after(pre.selected, pre.nodes@, b2)
                    &&& post == (App { mode: post.mode, selected: post.selected, ..pre })
                },
                None => post == pre,
            }
    }

    /// Type `c` into the search and search again.
    pub fn canvas_goto_input_char(&mut self, c: char)
        requires
            mode_ok(old(self).mode, old(self).nodes@),
            match goto_parts(old(self).mode) {
                Some((buf, cursor, _, _)) => buf_ok(buf, cursor as int),
                None => true,
            },
        ensures
            Self::canvas_goto_input_char_done(*old(self), *final(self), c),
    {
        match &mut self.mode {
            Mode::Canvas { state: CanvasState::Goto { buf, cursor, .. } } => {
                buf_insert(buf, cursor, c);
            },
            _ => {},
        }
        self.update_goto_matches();
        proof {
            lemma_goto_mode_ok(old(self).mode, self.mode, self.nodes@);
        }
    }

    /// What `canvas_goto_backspace` does: `post` is `pre` after it.
    pub open spec fn canvas_goto_backspace_done(pre: App, post: App) -> bool {
        &&& mode_ok(post.mode, post.nodes@)
        &&& match goto_parts(pre.mode) {
                Some((buf, cursor, _, _)) => {
                    let k = char_index(buf, cursor as int);
                    let b2 = if k > 0 { buf.remove(k - 1) } else { buf };
                    let c2 = if k > 0 { cursor - char_width(buf[k - 1]) } else { cursor as int };
                    &&& searched(pre.mode, post.mode, pre.nodes@, b2, c2)
                    &&& post.selected == selected_after(pre.selected, pre.nodes@, b2)
                    &&& post == (App { mode: post.mode, selected: post.selected, ..pre })
                },
                None => post == pre,
            }
    }

    /// Delete the character before the search cursor and search again.
    pub fn canvas_goto_backspace(&mut self)
        requires
            mode_ok(old(self).mode, old(self).nodes@),
            match goto_parts(old(self).mode) {
                Some((buf, cursor, _, _)) => buf_ok(buf, cursor as int),
                None => true,
            },
        ensures
            Self::canvas_goto_backspace_done(*old(self), *final(self)),
    {
        match &mut self.mode {
            Mode::Canvas { state: CanvasState::Goto { buf, cursor, .. } } => {
                buf_backspace(buf, cursor);
            },
            _ => {},
        }
        self.update_goto_matches();
        proof {
            lemma_goto_mode_ok(old(self).mode, self.mode, self.nodes@);
        }
    }

    /// What `canvas_goto_move_cursor` does: `post` is `pre` after it.
    pub open spec fn canvas_goto_move_cursor_done(pre: App, post: App, delta: i32) -> bool {
        &&& match goto_parts(pre.mode) {
                Some((buf, cursor, matches, idx)) => {
                    let k = char_index(buf, cursor as int);
                    let k2 = if delta < 0 {
                        if k > 0 { k - 1 } else { k }
                    } else {
                        if k < buf.len() { k + 1 } else { k }
                    };
                    &&& goto_parts(post.mode) matches Some((b2, c2, m2, i2)) && b2 == buf && m2 == matches && i2 == idx
                        && at_char(buf, c2 as int, k2)
                    &&& post.mode->Canvas_state->Goto_previous == pre.mode->Canvas_state->Goto_previous
                    &&& post == (App { mode: post.mode, ..pre })
                },
                None => post == pre,
            }
    }

    /// Move the search cursor one character left (`delta < 0`) or right.
    pub fn canvas_goto_move_cursor(&mut self, delta: i32)
        requires
            match goto_parts(old(self).mode) {
                Some((buf, cursor, _, _)) => buf_ok(buf, cursor as int),
                None => true,
            },
        ensures
            Self::canvas_goto_move_cursor_done(*old(self), *final(self), delta),
    {
        match &mut self.mode {
            Mode::Canvas { state: CanvasState::Goto { buf, cursor, .. } } => {
                move_cursor_in_buf(buf.as_str(), cursor, delta);
            },
            _ => {},
        }
    }

    /// What `canvas_goto_next` does: `post` is `pre` after it.
    pub open spec fn canvas_goto_next_done(pre: App, post: App) -> bool {
        &&& match goto_parts(pre.mode) {
                Some((buf, cursor, matches, idx)) => if matches.len() == 0 {
                    post == pre
                } else {
                    let i2 = (idx + 1) % (matches.len() as int);
                    &&& goto_parts(post.mode) == Some((buf, cursor, matches, i2 as usize))
                    &&& post.mode->Canvas_state->Goto_previous == pre.mode->Canvas_state->Goto_previous
                    &&& post.selected == matches[i2]
                    &&& post == (App { mode: post.mode, selected: post.selected, ..pre })
                },
                None => post == pre,
            }
    }

    /// Select the next match, cycling.
    pub fn canvas_goto_next(&mut self)
        ensures
            Self::canvas_goto_next_done(*old(self), *final(self)),
    {
        let ghost before = self.mode;
        match &mut self.mode {
            Mode::Canvas { state: CanvasState::Goto { matches, match_idx, .. } } => {
                if matches.len() == 0 {
                    return;
                }
                *match_idx = ((*match_idx as u128 + 1) % (matches.len() as u128)) as usize;
                self.selected = matches[*match_idx];
            },
            _ => {},
        }
    }

    /// What `canvas_goto_confirm` does: `post` is `pre` after it.
    pub open spec fn canvas_goto_confirm_done(pre: App, post: App, canvas_w: u16, canvas_h: u16) -> bool {
        &&& mode_ok(post.mode, post.nodes@)
        &&& match pre.mode {
                Mode::Canvas { state: CanvasState::Goto { matches, match_idx, previous, .. } } => {
                    &&& post.mode == (Mode::Canvas { state: *previous })
                    &&& matches@.len() > 0 ==> {
                        let n = pre.nodes@[matches@[match_idx as int] as int];
                        post == (App {
                            mode: post.mode,
                            selected: matches@[match_idx as int],
                            cursor_x: n.world_x,
                            cursor_y: n.world_y,
                            camera_x: (n.world_x - canvas_w / 2) as i32,
                            camera_y: (n.world_y - canvas_h / 2) as i32,
                            ..pre
                        })
                    }
                    &&& matches@.len() == 0 ==> post == (App { mode: post.mode, ..pre })
                },
                _ => post == (App { mode: Mode::Canvas { state: CanvasState::Browse }, ..pre }),
            }
    }

    /// Close the search: the current match (if any) becomes the selection
    /// and the camera centres on it; the remembered canvas sub-state comes
    /// back.
    pub fn canvas_goto_confirm(&mut self, canvas_w: u16, canvas_h: u16)
        requires
            mode_ok(old(self).mode, old(self).nodes@),
            forall|i: int| #![trigger old(self).nodes@[i]] 0 <= i < old(self).nodes@.len() ==> {
                &&& i32::MIN <= old(self).nodes@[i].world_x - canvas_w / 2
                &&& i32::MIN <= old(self).nodes@[i].world_y - canvas_h / 2
            },
        ensures
            Self::canvas_goto_confirm_done(*old(self), *final(self), canvas_w, canvas_h),
    {
        let target = match &self.mode {
            Mode::Canvas { state: CanvasState::Goto { matches, match_idx, .. } } => {
                if matches.len() > 0 {
                    Some(matches[*match_idx])
                } else {
                    None
                }
            },
            _ => {
                self.mode = Mode::Canvas { state: CanvasState::Browse };
                return;
            },
        };
        if let Some(id) = target {
            self.selected = id;
            self.center_on_selected(canvas_w, canvas_h);
        }
        let mut current = Mode::Help;
        std::mem::swap(&mut current, &mut self.mode);
        match current {
            Mode::Canvas { state: CanvasState::Goto { previous, .. } } => {
                self.mode = Mode::Canvas { state: *previous };
            },
            _ => {},
        }
    }
}

proof fn lemma_goto_mode_ok(a: Mode, b: Mode, nodes: Seq<Node>)
    requires
        mode_ok(a, nodes),
        goto_parts(a) matches Some((buf, cursor, _, _)) ==> {
            &&& searched(a, b, nodes, b->Canvas_state->Goto_buf@, b->Canvas_state->Goto_cursor as int)
            &&& crate::buffer::on_boundary(b->Canvas_state->Goto_buf@, b->Canvas_state->Goto_cursor as int)
        },
        goto_parts(a) is None ==> b == a,
    ensures
        mode_ok(b, nodes),
{
    if let Some((buf, cursor, _, _)) = goto_parts(a) {
        let q = b->Canvas_state->Goto_buf@;
        if q.len() > 0 {
            lemma_goto_matches_range(nodes, q, nodes.len() as int);
        }
    }
}

} // verus!
