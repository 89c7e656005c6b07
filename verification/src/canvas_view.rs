//! What the canvas screen shows besides the layout: which links are drawn
//! highlighted, the colour of each label, the status glyph and fold marker
//! after a label, and the text of the inline prompts.

use vstd::prelude::*;
use crate::app::{visible, App};
use crate::duration::{decimal, decimal_string};
use crate::forest::{ancestor, forest, in_subtree, is_subtree_listing, lemma_distinct_bounded, lemma_listing_members};
use crate::clock::{date_range, format_local_time};
use crate::input::visible_count;
use crate::mode::{ArrowFidelity, ArrowSettings, CanvasState, InputAction, Mode};
use crate::models::{Node, TimeTag};
use vstd::string::StrSliceExecFns;
use crate::prefix::{depth_of, node_depth};
use crate::query::{tag_equals, tag_value};
use crate::titlebar::Role;

verus! {

/// The root of the tree that holds `x`.
pub open spec fn tree_root(nodes: Seq<Node>, x: usize) -> usize {
    ancestor(nodes, x, depth_of(nodes, x))->0
}

/// `x` is a node of the tree that holds `sel`.
pub open spec fn in_tree_of(nodes: Seq<Node>, x: usize, sel: usize) -> bool {
    (x as int) < nodes.len() && in_subtree(nodes, x, tree_root(nodes, sel))
}

/// `x` is on the highlighted side of an arrow end that shows links of the
/// whole tree of `sel`, or of `sel` alone.
pub open spec fn end_side(f: ArrowFidelity, nodes: Seq<Node>, sel: usize, x: usize) -> bool {
    match f {
        ArrowFidelity::Tree => in_tree_of(nodes, x, sel),
        ArrowFidelity::Selected => x == sel,
    }
}

/// The link from `s` to `t` is drawn highlighted: the target is on screen,
/// and either the source is a highlighted source, or the source is on
/// screen and the target is a highlighted target.
pub open spec fn highlighted(app: App, s: usize, t: usize) -> bool {
    let ns = app.nodes@;
    &&& (s as int) < ns.len()
    &&& ns[s as int].links@.contains(t)
    &&& (t as int) < ns.len()
    &&& visible(ns[t as int])
    &&& (end_side(app.arrow.outgoing, ns, app.selected, s) || (visible(ns[s as int]) && end_side(
        app.arrow.incoming,
        ns,
        app.selected,
        t,
    )))
}

/// Add `p` to `v` unless it is there already.
fn push_unique(v: &mut Vec<(usize, usize)>, p: (usize, usize))
    requires
        old(v)@.no_duplicates(),
    ensures
        final(v)@.no_duplicates(),
        forall|q: (usize, usize)| #[trigger] final(v)@.contains(q) <==> (old(v)@.contains(q) || q == p),
{
    let mut k: usize = 0;
    while k < v.len()
        invariant
            k <= v@.len(),
            v@ == old(v)@,
            old(v)@.no_duplicates(),
            forall|j: int| 0 <= j < k ==> v@[j] != p,
        decreases v@.len() - k,
    {
        if v[k].0 == p.0 && v[k].1 == p.1 {
            proof {
                assert(v@[k as int] == p);
            }
            return;
        }
        k = k + 1;
    }
    let ghost before = v@;
    v.push(p);
    proof {
        assert forall|a: int, b: int| 0 <= a < v@.len() && 0 <= b < v@.len() && a != b implies v@[a] != v@[b] by {
            if a < before.len() && b < before.len() {
                assert(before[a] == v@[a] && before[b] == v@[b]);
            } else if a < before.len() {
                assert(before[a] != p);
            } else {
                assert(before[b] != p);
            }
        }
        assert forall|q: (usize, usize)| #[trigger] v@.contains(q) <==> (before.contains(q) || q == p) by {
            if v@.contains(q) {
                let j = choose|j: int| 0 <= j < v@.len() && v@[j] == q;
                if j < before.len() {
                    assert(before[j] == q);
                }
            }
            if before.contains(q) {
                let j = choose|j: int| 0 <= j < before.len() && before[j] == q;
                assert(v@[j] == q);
            }
            if q == p {
                assert(v@[before.len() as int] == p);
            }
        }
    }
}


/// The colour of the label of node `id`: the node being moved or picked
/// up, then a link origin, the reparent target, the insertion parent, the
/// selected node (when the cursor is near a node), or an ordinary node.
pub open spec fn label_role_of(mode: Mode, selected: usize, has_sel: bool, id: usize) -> Role {
    let reparent_subject = mode matches Mode::Reparent { subject, .. } && subject == id;
    let reparent_cursor = mode matches Mode::Reparent { cursor, .. } && cursor == id;
    let insert_parent = mode matches Mode::Input { action: InputAction::InsertChild { parent }, .. } && parent == id;
    let pick_origin = mode matches Mode::Canvas { state: CanvasState::Pick { origin_id, .. } } && origin_id == id;
    let link_origin = mode matches Mode::Canvas { state: CanvasState::Link { origin_id } } && origin_id == id;
    if reparent_subject || pick_origin {
        Role::Pick
    } else if link_origin {
        Role::Link
    } else if reparent_cursor {
        Role::Reparent
    } else if insert_parent {
        Role::Insert
    } else if has_sel && id == selected {
        Role::Selected
    } else {
        Role::Node
    }
}

/// The glyph shown before a label for its "status" tag, with its colour.
pub open spec fn status_glyph_of(n: Node) -> Option<(Seq<char>, Role)> {
    let v = tag_value(n, "status"@);
    if v == Some("todo"@) {
        Some(("○ "@, Role::StatusTodo))
    } else if v == Some("in_progress"@) {
        Some(("◑ "@, Role::StatusProgress))
    } else if v == Some("completed"@) {
        Some(("● "@, Role::StatusDone))
    } else if v == Some("blocked"@) {
        Some(("⊘ "@, Role::StatusBlocked))
    } else {
        None
    }
}

/// "  [+n]" after a folded node with `n` children.
pub open spec fn fold_suffix_of(n: Node) -> Seq<char> {
    if n.children@.len() > 0 && n.collapsed {
        "  [+"@ + decimal(n.children@.len()) + "]"@
    } else {
        Seq::empty()
    }
}

/// How one node is drawn, besides its tree prefix and label text.
pub struct NodeDecor {
    /// "> " for the selected node, "  " otherwise.
    pub indicator: String,
    pub status: Option<(String, Role)>,
    pub label_role: Role,
    pub suffix: String,
}

/// The decoration of node `id` of `app`, `has_sel` telling whether the
/// cursor is near a node.
pub open spec fn decor_ok(d: NodeDecor, app: App, id: usize, has_sel: bool) -> bool {
    let n = app.nodes@[id as int];
    &&& d.indicator@ == if app.selected == id { "> "@ } else { "  "@ }
    &&& match d.status {
        Some(g) => status_glyph_of(n) == Some((g.0@, g.1)),
        None => status_glyph_of(n) is None,
    }
    &&& d.label_role == label_role_of(app.mode, app.selected, has_sel, id)
    &&& d.suffix@ == fold_suffix_of(n)
}

/// "jump to: " and the position among the matches: "(i/n)", "(no matches)"
/// when a search found nothing, nothing before anything is typed.
pub open spec fn goto_prompt_of(buf_empty: bool, matches: nat, match_idx: nat) -> Seq<char> {
    let info = if matches == 0 {
        if buf_empty { Seq::empty() } else { "(no matches)"@ }
    } else {
        "("@ + decimal(match_idx + 1) + "/"@ + decimal(matches) + ")"@
    };
    "jump to: "@ + info + " "@
}

/// The prompt before the search text of the goto mode.
pub fn goto_prompt(buf_empty: bool, matches: usize, match_idx: usize) -> (r: String)
    requires
        match_idx < u64::MAX,
    ensures
        r@ == goto_prompt_of(buf_empty, matches as nat, match_idx as nat),
{
    let mut s = String::from_str("jump to: ");
    if matches == 0 {
        if !buf_empty {
            s.append("(no matches)");
        }
    } else {
        s.append("(");
        s.append(decimal_string(match_idx as u64 + 1).as_str());
        s.append("/");
        s.append(decimal_string(matches as u64).as_str());
        s.append(")");
    }
    s.append(" ");
    s
}

/// The arrow display menu: the value shown for each setting, which of the
/// two fidelity lines is being set, and the hint line.
pub struct ArrowMenu {
    pub global: String,
    pub incoming: String,
    pub outgoing: String,
    pub incoming_active: bool,
    pub outgoing_active: bool,
    pub hint: String,
}

/// How the menu shows a fidelity, padded to one width.
pub open spec fn fidelity_cell(f: ArrowFidelity) -> Seq<char> {
    match f {
        ArrowFidelity::Tree => "Tree    "@,
        ArrowFidelity::Selected => "Selected"@,
    }
}

/// The arrow display menu for `mode` and `arrow`, or `None` outside the
/// menu states.
pub open spec fn arrow_menu_of(arrow: ArrowSettings, mode: Mode) -> Option<(Seq<char>, Seq<char>, Seq<char>, bool, bool, Seq<char>)> {
    match mode {
        Mode::Canvas { state } => match state {
            CanvasState::Menu | CanvasState::MenuIncoming | CanvasState::MenuOutgoing => Some(
                (
                    if arrow.global { "ON "@ } else { "off"@ },
                    fidelity_cell(arrow.incoming),
                    fidelity_cell(arrow.outgoing),
                    state is MenuIncoming,
                    state is MenuOutgoing,
                    if state is Menu {
                        "  [i]ncoming  [o]utgoing  [g]lobal  [F]/Esc=close"@
                    } else {
                        "  Set: [T]ree  [S]elected  Esc=back"@
                    },
                ),
            ),
            _ => None,
        },
        _ => None,
    }
}

/// The fidelity as the menu shows it.
fn fidelity_text(f: ArrowFidelity) -> (r: String)
    ensures
        r@ == fidelity_cell(f),
{
    match f {
        ArrowFidelity::Tree => String::from_str("Tree    "),
        ArrowFidelity::Selected => String::from_str("Selected"),
    }
}

/// The arrow display menu (see `arrow_menu_of`).
pub fn arrow_menu(arrow: &ArrowSettings, mode: &Mode) -> (r: Option<ArrowMenu>)
    ensures
        match r {
            Some(m) => arrow_menu_of(*arrow, *mode) == Some(
                (m.global@, m.incoming@, m.outgoing@, m.incoming_active, m.outgoing_active, m.hint@),
            ),
            None => arrow_menu_of(*arrow, *mode) is None,
        },
{
    let (incoming_active, outgoing_active, hint) = match mode {
        Mode::Canvas { state: CanvasState::Menu } => (
            false,
            false,
            String::from_str("  [i]ncoming  [o]utgoing  [g]lobal  [F]/Esc=close"),
        ),
        Mode::Canvas { state: CanvasState::MenuIncoming } => (true, false, String::from_str("  Set: [T]ree  [S]elected  Esc=back")),
        Mode::Canvas { state: CanvasState::MenuOutgoing } => (false, true, String::from_str("  Set: [T]ree  [S]elected  Esc=back")),
        _ => return None,
    };
    Some(
        ArrowMenu {
            global: if arrow.global { String::from_str("ON ") } else { String::from_str("off") },
            incoming: fidelity_text(arrow.incoming),
            outgoing: fidelity_text(arrow.outgoing),
            incoming_active,
            outgoing_active,
            hint,
        },
    )
}

/// `a` comes no later than `b` in the order of `str`: character by
/// character, by code point, a prefix first.
pub open spec fn lex_le(a: Seq<char>, b: Seq<char>) -> bool
    decreases a.len(),
{
    if a.len() == 0 {
        true
    } else if b.len() == 0 {
        false
    } else if (a[0] as u32) != (b[0] as u32) {
        (a[0] as u32) < (b[0] as u32)
    } else {
        lex_le(a.drop_first(), b.drop_first())
    }
}

proof fn lemma_lex_total(a: Seq<char>, b: Seq<char>)
    ensures
        lex_le(a, b) || lex_le(b, a),
    decreases a.len(),
{
    if a.len() > 0 && b.len() > 0 && (a[0] as u32) == (b[0] as u32) {
        lemma_lex_total(a.drop_first(), b.drop_first());
    }
}

proof fn lemma_lex_trans(a: Seq<char>, b: Seq<char>, c: Seq<char>)
    requires
        lex_le(a, b),
        lex_le(b, c),
    ensures
        lex_le(a, c),
    decreases a.len(),
{
    if a.len() > 0 && b.len() > 0 && c.len() > 0 && (a[0] as u32) == (b[0] as u32) && (b[0] as u32) == (c[0] as u32) {
        lemma_lex_trans(a.drop_first(), b.drop_first(), c.drop_first());
    }
}

/// Whether `a` comes no later than `b` (see `lex_le`).
fn key_le(a: &str, b: &str) -> (r: bool)
    ensures
        r == lex_le(a@, b@),
{
    let n = a.unicode_len();
    let m = b.unicode_len();
    let mut i: usize = 0;
    proof {
        assert(a@.skip(0) =~= a@);
        assert(b@.skip(0) =~= b@);
    }
    while i < n && i < m && (a.get_char(i) as u32) == (b.get_char(i) as u32)
        invariant
            i <= n,
            i <= m,
            n == a@.len(),
            m == b@.len(),
            lex_le(a@, b@) == lex_le(a@.skip(i as int), b@.skip(i as int)),
        decreases n - i,
    {
        proof {
            let x = a@.skip(i as int);
            let y = b@.skip(i as int);
            assert(x.drop_first() =~= a@.skip(i as int + 1));
            assert(y.drop_first() =~= b@.skip(i as int + 1));
            assert(x[0] == a@[i as int] && y[0] == b@[i as int]);
        }
        i = i + 1;
    }
    proof {
        let x = a@.skip(i as int);
        let y = b@.skip(i as int);
        if i < n && i < m {
            assert(x[0] == a@[i as int] && y[0] == b@[i as int]);
        }
    }
    if i == n {
        true
    } else if i == m {
        false
    } else {
        (a.get_char(i) as u32) < (b.get_char(i) as u32)
    }
}

/// `ord` lists every index of `times` once, by key in `str` order.
pub open spec fn time_order_ok(times: Seq<(String, TimeTag)>, ord: Seq<usize>) -> bool {
    &&& ord.len() == times.len()
    &&& ord.no_duplicates()
    &&& forall|k: int| 0 <= k < ord.len() ==> (#[trigger] ord[k] as int) < times.len()
    &&& forall|j: int, k: int| 0 <= j < k < ord.len() ==> lex_le(times[#[trigger] ord[j] as int].0@, times[#[trigger] ord[k] as int].0@)
}

/// The indices of `times` by key (see `time_order_ok`).
pub fn time_order(times: &Vec<(String, TimeTag)>) -> (r: Vec<usize>)
    ensures
        time_order_ok(times@, r@),
{
    let ghost ts = times@;
    let mut ord: Vec<usize> = Vec::new();
    let mut i: usize = 0;
    while i < times.len()
        invariant
            i <= ts.len(),
            ts == times@,
            ord@.len() == i,
            ord@.no_duplicates(),
            forall|k: int| 0 <= k < ord@.len() ==> (#[trigger] ord@[k] as int) < i,
            forall|j: int, k: int| 0 <= j < k < ord@.len() ==> lex_le(ts[#[trigger] ord@[j] as int].0@, ts[#[trigger] ord@[k] as int].0@),
        decreases ts.len() - i,
    {
        let mut p: usize = 0;
        while p < ord.len() && key_le(times[ord[p]].0.as_str(), times[i].0.as_str())
            invariant
                p <= ord@.len(),
                i < ts.len(),
                ts == times@,
                forall|k: int| 0 <= k < ord@.len() ==> (#[trigger] ord@[k] as int) < i,
                forall|k: int| 0 <= k < p ==> lex_le(ts[#[trigger] ord@[k] as int].0@, ts[i as int].0@),
            decreases ord@.len() - p,
        {
            p = p + 1;
        }
        let ghost before = ord@;
        proof {
            if p < before.len() {
                assert(!lex_le(ts[before[p as int] as int].0@, ts[i as int].0@));
                lemma_lex_total(ts[before[p as int] as int].0@, ts[i as int].0@);
            }
        }
        ord.insert(p, i);
        proof {
            let key = |x: usize| ts[x as int].0@;
            assert(ord@ =~= before.insert(p as int, i));
            assert forall|k: int| 0 <= k < ord@.len() implies (#[trigger] ord@[k] as int) < i + 1 by {
                if k < p {
                    assert(ord@[k] == before[k]);
                } else if k > p {
                    assert(ord@[k] == before[k - 1]);
                }
            }
            assert forall|a: int, b: int| 0 <= a < ord@.len() && 0 <= b < ord@.len() && a != b implies ord@[a] != ord@[b] by {
                if a != p && b != p {
                    let a0 = if a < p { a } else { a - 1 };
                    let b0 = if b < p { b } else { b - 1 };
                    assert(ord@[a] == before[a0]);
                    assert(ord@[b] == before[b0]);
                } else if a == p {
                    let b0 = if b < p { b } else { b - 1 };
                    assert(ord@[b] == before[b0]);
                } else {
                    let a0 = if a < p { a } else { a - 1 };
                    assert(ord@[a] == before[a0]);
                }
            }
            assert forall|j: int, k: int| 0 <= j < k < ord@.len() implies lex_le(ts[#[trigger] ord@[j] as int].0@, ts[#[trigger] ord@[k] as int].0@) by {
                let j0 = if j < p { j } else { j - 1 };
                let k0 = if k < p { k } else { k - 1 };
                if j != p && k != p {
                    assert(ord@[j] == before[j0]);
                    assert(ord@[k] == before[k0]);
                } else if j == p {
                    // i goes before every later entry
                    assert(ord@[k] == before[k0]);
                    assert(k0 >= p);
                    if k0 > p {
                        assert(lex_le(ts[before[p as int] as int].0@, ts[before[k0] as int].0@));
                        lemma_lex_trans(ts[i as int].0@, ts[before[p as int] as int].0@, ts[before[k0] as int].0@);
                    }
                } else {
                    assert(ord@[j] == before[j0]);
                    assert(j0 < p);
                }
            }
        }
        i = i + 1;
    }
    ord
}

impl App {
    /// Where the prompt for a new child of `parent` goes: at the parent's
    /// column, on the row below the visible part of its subtree.
    pub fn insert_prompt_at(&self, parent: usize) -> (r: (i32, i32))
        requires
            forest(self.nodes@),
            (parent as int) < self.nodes@.len(),
            self.nodes@[parent as int].world_y + self.nodes@.len() <= i32::MAX,
            self.nodes@.len() <= i32::MAX,
        ensures
            exists|sub: Seq<usize>|
                #[trigger] is_subtree_listing(self.nodes@, parent, sub) && r == (
                    self.nodes@[parent as int].world_x,
                    (self.nodes@[parent as int].world_y + visible_count(self.nodes@, sub)) as i32,
                ),
    {
        let sub = self.collect_subtree(parent);
        proof {
            lemma_distinct_bounded(sub@, self.nodes@.len());
        }
        let mut count: usize = 0;
        let mut k: usize = 0;
        while k < sub.len()
            invariant
                k <= sub@.len(),
                sub@.len() <= self.nodes@.len(),
                is_subtree_listing(self.nodes@, parent, sub@),
                count == visible_count(self.nodes@, sub@.take(k as int)),
                count <= k,
            decreases sub@.len() - k,
        {
            let id = sub[k];
            proof {
                assert(sub@.take(k as int + 1).drop_last() =~= sub@.take(k as int));
            }
            if self.nodes[id].row != usize::MAX {
                count = count + 1;
            }
            k = k + 1;
        }
        proof {
            assert(sub@.take(sub@.len() as int) =~= sub@);
        }
        let r = (self.nodes[parent].world_x, self.nodes[parent].world_y + count as i32);
        proof {
            assert(is_subtree_listing(self.nodes@, parent, sub@) && r == (
                self.nodes@[parent as int].world_x,
                (self.nodes@[parent as int].world_y + visible_count(self.nodes@, sub@)) as i32,
            ));
        }
        r
    }

    /// The time tags of node `id` as shown after its label, " [key: date]"
    /// with the local date of each, ordered by key.
    pub fn time_labels(&self, id: usize) -> (r: Vec<String>)
        requires
            (id as int) < self.nodes@.len(),
            forall|k: int| 0 <= k < self.nodes@[id as int].times@.len() ==> -date_range() <= #[trigger] self.nodes@[id as int].times@[k].1.timestamp <= date_range(),
        ensures
            exists|ord: Seq<usize>| {
                &&& #[trigger] time_order_ok(self.nodes@[id as int].times@, ord)
                &&& r@.len() == ord.len()
                &&& forall|k: int| 0 <= k < ord.len() ==> time_label_ok(#[trigger] r@[k]@, self.nodes@[id as int].times@[ord[k] as int].0@)
            },
    {
        let times = &self.nodes[id].times;
        let ord = time_order(times);
        let mut r: Vec<String> = Vec::new();
        let mut k: usize = 0;
        while k < ord.len()
            invariant
                k <= ord@.len(),
                time_order_ok(times@, ord@),
                times@ == self.nodes@[id as int].times@,
                forall|q: int| 0 <= q < times@.len() ==> -date_range() <= #[trigger] times@[q].1.timestamp <= date_range(),
                r@.len() == k,
                forall|q: int| 0 <= q < k ==> time_label_ok(#[trigger] r@[q]@, times@[ord@[q] as int].0@),
            decreases ord@.len() - k,
        {
            let e = &times[ord[k]];
            let date = format_local_time(e.1.timestamp, "%Y-%m-%d");
            let mut s = String::from_str(" [");
            s.append(e.0.as_str());
            s.append(": ");
            s.append(date.as_str());
            s.append("]");
            proof {
                let head = " ["@ + e.0@ + ": "@;
                reveal_strlit("]");
                assert("]"@ =~= seq![']']);
                assert(s@ =~= (head + date@).push(']'));
                assert(s@.take(head.len() as int) =~= head);
                assert(s@.last() == ']');
                assert(time_label_ok(s@, times@[ord@[k as int] as int].0@));
            }
            let ghost prev = r@;
            r.push(s);
            proof {
                assert forall|q: int| 0 <= q < k + 1 implies time_label_ok(#[trigger] r@[q]@, times@[ord@[q] as int].0@) by {
                    if q < k {
                        assert(r@[q] == prev[q]);
                    }
                }
            }
            k = k + 1;
        }
        proof {
            assert(time_order_ok(self.nodes@[id as int].times@, ord@));
        }
        r
    }
}

/// `x` is " [" and `key` and ": ", then at least one more character, ending
/// with "]".
pub open spec fn time_label_ok(x: Seq<char>, key: Seq<char>) -> bool {
    let head = " ["@ + key + ": "@;
    &&& x.len() > head.len()
    &&& x.take(head.len() as int) == head
    &&& x.last() == ']'
}

impl App {
    /// How node `id` is drawn (see `decor_ok`); `has_sel` is whether the
    /// cursor is near a node.
    pub fn node_decor(&self, id: usize, has_sel: bool) -> (r: NodeDecor)
        requires
            (id as int) < self.nodes@.len(),
        ensures
            decor_ok(r, *self, id, has_sel),
    {
        let n = &self.nodes[id];
        let indicator = if self.selected == id { String::from_str("> ") } else { String::from_str("  ") };
        let status = if tag_equals(n, "status", "todo") {
            Some((String::from_str("○ "), Role::StatusTodo))
        } else if tag_equals(n, "status", "in_progress") {
            Some((String::from_str("◑ "), Role::StatusProgress))
        } else if tag_equals(n, "status", "completed") {
            Some((String::from_str("● "), Role::StatusDone))
        } else if tag_equals(n, "status", "blocked") {
            Some((String::from_str("⊘ "), Role::StatusBlocked))
        } else {
            None
        };
        let reparent_subject = match &self.mode {
            Mode::Reparent { subject, .. } => *subject == id,
            _ => false,
        };
        let reparent_cursor = match &self.mode {
            Mode::Reparent { cursor, .. } => *cursor == id,
            _ => false,
        };
        let insert_parent = match &self.mode {
            Mode::Input { action: InputAction::InsertChild { parent }, .. } => *parent == id,
            _ => false,
        };
        let pick_origin = match &self.mode {
            Mode::Canvas { state: CanvasState::Pick { origin_id, .. } } => *origin_id == id,
            _ => false,
        };
        let link_origin = match &self.mode {
            Mode::Canvas { state: CanvasState::Link { origin_id } } => *origin_id == id,
            _ => false,
        };
        let label_role = if reparent_subject || pick_origin {
            Role::Pick
        } else if link_origin {
            Role::Link
        } else if reparent_cursor {
            Role::Reparent
        } else if insert_parent {
            Role::Insert
        } else if has_sel && id == self.selected {
            Role::Selected
        } else {
            Role::Node
        };
        let mut suffix = String::new();
        if n.children.len() > 0 && n.collapsed {
            suffix.append("  [+");
            suffix.append(decimal_string(n.children.len() as u64).as_str());
            suffix.append("]");
        }
        NodeDecor { indicator, status, label_role, suffix }
    }

    /// Whether each node belongs to the tree rooted at `root`.
    fn tree_marks(&self, root: usize) -> (r: Vec<bool>)
        requires
            forest(self.nodes@),
            (root as int) < self.nodes@.len(),
        ensures
            r@.len() == self.nodes@.len(),
            forall|x: int| 0 <= x < self.nodes@.len() ==> #[trigger] r@[x] == in_subtree(self.nodes@, x as usize, root),
    {
        let n = self.nodes.len();
        let tree = self.collect_subtree(root);
        proof {
            lemma_listing_members(self.nodes@, root, tree@);
        }
        let mut r: Vec<bool> = Vec::new();
        let mut x: usize = 0;
        while x < n
            invariant
                x <= n,
                n == self.nodes@.len(),
                r@.len() == x,
                forall|y: int| 0 <= y < x ==> !(#[trigger] r@[y]),
            decreases n - x,
        {
            r.push(false);
            x = x + 1;
        }
        let mut k: usize = 0;
        while k < tree.len()
            invariant
                k <= tree@.len(),
                n == self.nodes@.len(),
                r@.len() == n,
                forall|j: int| 0 <= j < tree@.len() ==> (#[trigger] tree@[j] as int) < n,
                forall|y: int| 0 <= y < n ==> #[trigger] r@[y] == tree@.take(k as int).contains(y as usize),
            decreases tree@.len() - k,
        {
            let t = tree[k];
            proof {
                assert(tree@[k as int] == t);
            }
            r.set(t, true);
            proof {
                assert forall|y: int| 0 <= y < n implies #[trigger] r@[y] == tree@.take(k as int + 1).contains(y as usize) by {
                    let p = tree@.take(k as int);
                    let q = tree@.take(k as int + 1);
                    assert(q =~= p.push(t));
                    if p.contains(y as usize) {
                        let j = choose|j: int| 0 <= j < p.len() && p[j] == y as usize;
                        assert(q[j] == y as usize);
                    }
                    if q.contains(y as usize) {
                        let j = choose|j: int| 0 <= j < q.len() && q[j] == y as usize;
                        if j < p.len() {
                            assert(p[j] == y as usize);
                        }
                    }
                    if y == t as int {
                        assert(q[k as int] == t);
                    }
                }
            }
            k = k + 1;
        }
        proof {
            assert(tree@.take(tree@.len() as int) =~= tree@);
        }
        r
    }

    /// The links drawn highlighted around the selected node (see
    /// `highlighted`), each once; none without a selection.
    #[verifier::loop_isolation(false)]
    pub fn highlighted_links(&self) -> (r: Vec<(usize, usize)>)
        requires
            forest(self.nodes@),
        ensures
            r@.no_duplicates(),
            self.has_selection_spec() ==> forall|s: usize, t: usize| #[trigger] r@.contains((s, t)) <==> highlighted(*self, s, t),
            !self.has_selection_spec() ==> r@.len() == 0,
    {
        let mut r: Vec<(usize, usize)> = Vec::new();
        if !self.has_selection() {
            return r;
        }
        let ghost ns = self.nodes@;
        let n = self.nodes.len();
        let sel = self.selected;
        let (_, root) = node_depth(self.nodes.as_slice(), sel);
        proof {
            assert(tree_root(ns, sel) == root);
        }
        let mark = self.tree_marks(root);
        // Highlighted sources.
        let mut s: usize = 0;
        while s < n
            invariant
                s <= n,
                r@.no_duplicates(),
                forall|a: usize, b: usize| #[trigger] r@.contains((a, b)) <==> {
                    &&& a < s
                    &&& end_side(self.arrow.outgoing, ns, sel, a)
                    &&& ns[a as int].links@.contains(b)
                    &&& (b as int) < ns.len()
                    &&& visible(ns[b as int])
                },
            decreases n - s,
        {
            let src = match self.arrow.outgoing {
                ArrowFidelity::Tree => mark[s],
                ArrowFidelity::Selected => s == sel,
            };
            if src {
                let mut j: usize = 0;
                while j < self.nodes[s].links.len()
                    invariant
                        j <= ns[s as int].links@.len(),
                        r@.no_duplicates(),
                        forall|a: usize, b: usize| #[trigger] r@.contains((a, b)) <==> {
                            ||| {
                                &&& a < s
                                &&& end_side(self.arrow.outgoing, ns, sel, a)
                                &&& ns[a as int].links@.contains(b)
                                &&& (b as int) < ns.len()
                                &&& visible(ns[b as int])
                            }
                            ||| {
                                &&& a == s
                                &&& ns[a as int].links@.take(j as int).contains(b)
                                &&& (b as int) < ns.len()
                                &&& visible(ns[b as int])
                            }
                        },
                    decreases ns[s as int].links@.len() - j,
                {
                    let t = self.nodes[s].links[j];
                    proof {
                        assert(ns[s as int].links@[j as int] == t);
                    }
                    if self.nodes[t].row != usize::MAX {
                        push_unique(&mut r, (s, t));
                    }
                    proof {
                        lemma_take_push_contains(ns[s as int].links@, j as int);
                    }
                    j = j + 1;
                }
                proof {
                    let l = ns[s as int].links@;
                    assert(l.take(l.len() as int) =~= l);
                }
            }
            s = s + 1;
        }
        // Links into highlighted targets.
        let mut s: usize = 0;
        while s < n
            invariant
                s <= n,
                r@.no_duplicates(),
                forall|a: usize, b: usize| #[trigger] r@.contains((a, b)) <==> {
                    &&& (a as int) < ns.len()
                    &&& ns[a as int].links@.contains(b)
                    &&& (b as int) < ns.len()
                    &&& visible(ns[b as int])
                    &&& (end_side(self.arrow.outgoing, ns, sel, a) || (a < s && visible(ns[a as int]) && end_side(
                        self.arrow.incoming,
                        ns,
                        sel,
                        b,
                    )))
                },
            decreases n - s,
        {
            if self.nodes[s].row != usize::MAX {
                let mut j: usize = 0;
                while j < self.nodes[s].links.len()
                    invariant
                        j <= ns[s as int].links@.len(),
                        r@.no_duplicates(),
                        visible(ns[s as int]),
                        forall|a: usize, b: usize| #[trigger] r@.contains((a, b)) <==> {
                            ||| {
                                &&& (a as int) < ns.len()
                                &&& ns[a as int].links@.contains(b)
                                &&& (b as int) < ns.len()
                                &&& visible(ns[b as int])
                                &&& (end_side(self.arrow.outgoing, ns, sel, a) || (a < s && visible(ns[a as int])
                                    && end_side(self.arrow.incoming, ns, sel, b)))
                            }
                            ||| {
                                &&& a == s
                                &&& ns[a as int].links@.take(j as int).contains(b)
                                &&& (b as int) < ns.len()
                                &&& visible(ns[b as int])
                                &&& end_side(self.arrow.incoming, ns, sel, b)
                            }
                        },
                    decreases ns[s as int].links@.len() - j,
                {
                    let t = self.nodes[s].links[j];
                    proof {
                        assert(ns[s as int].links@[j as int] == t);
                    }
                    let tgt = match self.arrow.incoming {
                        ArrowFidelity::Tree => mark[t],
                        ArrowFidelity::Selected => t == sel,
                    };
                    if tgt && self.nodes[t].row != usize::MAX {
                        push_unique(&mut r, (s, t));
                    }
                    proof {
                        lemma_take_push_contains(ns[s as int].links@, j as int);
                    }
                    j = j + 1;
                }
                proof {
                    let l = ns[s as int].links@;
                    assert(l.take(l.len() as int) =~= l);
                }
            }
            s = s + 1;
        }
        r
    }
}

/// Taking one more element of `l` adds exactly that element.
proof fn lemma_take_push_contains(l: Seq<usize>, j: int)
    requires
        0 <= j < l.len(),
    ensures
        forall|b: usize| #[trigger] l.take(j + 1).contains(b) <==> (l.take(j).contains(b) || b == l[j]),
{
    let p = l.take(j);
    let q = l.take(j + 1);
    assert forall|b: usize| #[trigger] q.contains(b) <==> (p.contains(b) || b == l[j]) by {
        if p.contains(b) {
            let w = choose|w: int| 0 <= w < p.len() && p[w] == b;
            assert(q[w] == b);
        }
        if q.contains(b) {
            let w = choose|w: int| 0 <= w < q.len() && q[w] == b;
            if w < p.len() {
                assert(p[w] == b);
            }
        }
        if b == l[j] {
            assert(q[j] == b);
        }
    }
}

} // verus!
