use vstd::prelude::*;
use crate::forest::{forest, ranked, lemma_distinct_bounded};
use crate::models::Node;

verus! {

/// The visible part of the subtree at `node`, depth first, as
/// `(node, depth)` pairs: the node, then (unless it is collapsed) the
/// visible parts of its children in order.  `fuel` bounds the depth.
pub open spec fn visible_dfs(nodes: Seq<Node>, node: usize, depth: nat, fuel: nat) -> Seq<(usize, usize)>
    decreases fuel, 0nat,
{
    if fuel == 0 || (node as int) >= nodes.len() {
        seq![(node, depth as usize)]
    } else if nodes[node as int].collapsed {
        seq![(node, depth as usize)]
    } else {
        seq![(node, depth as usize)] + dfs_list(nodes, nodes[node as int].children@, depth + 1, (fuel - 1) as nat)
    }
}

/// The visible parts of the subtrees at each of `cs`, concatenated.
pub open spec fn dfs_list(nodes: Seq<Node>, cs: Seq<usize>, depth: nat, fuel: nat) -> Seq<(usize, usize)>
    decreases fuel, cs.len(),
{
    if cs.len() == 0 {
        Seq::empty()
    } else {
        dfs_list(nodes, cs.drop_last(), depth, fuel) + visible_dfs(nodes, cs.last(), depth, fuel)
    }
}

/// Appends the visible part of the subtree at `node` to `out`.
fn collect_visible_inner(
    nodes: &Vec<Node>,
    node: usize,
    depth: usize,
    out: &mut Vec<(usize, usize)>,
    Ghost(rank): Ghost<Seq<nat>>,
    Ghost(path): Ghost<Seq<usize>>,
)
    requires
        forest(nodes@),
        ranked(nodes@, rank),
        (node as int) < nodes@.len(),
        path.len() == depth + 1,
        path.last() == node,
        path.no_duplicates(),
        forall|k: int| 0 <= k < path.len() ==> (#[trigger] path[k] as int) < nodes@.len(),
        forall|k: int| 0 <= k < path.len() - 1 ==> rank[#[trigger] path[k] as int] < rank[node as int],
    ensures
        final(out)@ == old(out)@ + visible_dfs(nodes@, node, depth as nat, (nodes@.len() - depth) as nat),
    decreases nodes@.len() - depth,
{
    proof {
        lemma_distinct_bounded(path, nodes@.len());
    }
    let _n = nodes.len();
    let ghost out0 = out@;
    let ghost fuel = (nodes@.len() - depth) as nat;
    out.push((node, depth));
    if !nodes[node].collapsed {
        let ghost cs = nodes@[node as int].children@;
        let mut j: usize = 0;
        assert(nodes[node as int].children@ == cs);
        while j < nodes[node].children.len()
            invariant
                forest(nodes@),
                ranked(nodes@, rank),
                (node as int) < nodes@.len(),
                cs == nodes@[node as int].children@,
                !nodes@[node as int].collapsed,
                path.len() == depth + 1,
                path.last() == node,
                path.no_duplicates(),
                forall|k: int| 0 <= k < path.len() ==> (#[trigger] path[k] as int) < nodes@.len(),
                forall|k: int| 0 <= k < path.len() - 1 ==> rank[#[trigger] path[k] as int] < rank[node as int],
                fuel == nodes@.len() - depth,
                fuel >= 1,
                _n == nodes@.len(),
                j <= cs.len(),
                out@ == out0 + seq![(node, depth)] + dfs_list(nodes@, cs.take(j as int), (depth + 1) as nat, (fuel - 1) as nat),
            decreases cs.len() - j,
        {
            let c = nodes[node].children[j];
            let ghost path2 = path.push(c);
            proof {
                assert(cs[j as int] == c);
                assert(nodes@[c as int].parent == Some(node));
                assert(rank[node as int] < rank[c as int]);
                assert forall|a: int, b: int| 0 <= a < path2.len() && 0 <= b < path2.len() && a != b implies path2[a] != path2[b] by {
                    if a < path.len() && b < path.len() {
                    } else if a < path.len() {
                        if a < path.len() - 1 {
                            assert(rank[path[a] as int] < rank[node as int]);
                        }
                    } else {
                        if b < path.len() - 1 {
                            assert(rank[path[b] as int] < rank[node as int]);
                        }
                    }
                }
                assert forall|k: int| 0 <= k < path2.len() - 1 implies rank[#[trigger] path2[k] as int] < rank[c as int] by {
                    assert(path2[k] == path[k]);
                    if k < path.len() - 1 {
                        assert(rank[path[k] as int] < rank[node as int]);
                    }
                }
                assert forall|k: int| 0 <= k < path2.len() implies (#[trigger] path2[k] as int) < nodes@.len() by {
                    if k < path.len() {
                        assert(path2[k] == path[k]);
                    }
                }
                lemma_distinct_bounded(path2, nodes@.len());
                assert(depth + 1 < nodes@.len());
                assert(cs.take(j as int + 1).drop_last() =~= cs.take(j as int));
                assert(cs.take(j as int + 1).last() == c);
            }
            collect_visible_inner(nodes, c, depth + 1, out, Ghost(rank), Ghost(path2));
            j = j + 1;
            assert(out@ =~= out0 + seq![(node, depth)] + dfs_list(nodes@, cs.take(j as int), (depth + 1) as nat, (fuel - 1) as nat));
        }
        assert(cs.take(cs.len() as int) =~= cs);
        assert(out@ =~= out0 + visible_dfs(nodes@, node, depth as nat, fuel));
    } else {
        assert(out@ =~= out0 + visible_dfs(nodes@, node, depth as nat, fuel));
    }
}

} // verus!

verus! {

/// Some entry of `entries` has key `key`.
pub open spec fn has_key<V>(entries: Seq<(String, V)>, key: Seq<char>) -> bool {
    exists|k: int| 0 <= k < entries.len() && (#[trigger] entries[k]).0@ == key
}

/// Columns taken by one time tag shown after a collapsed node:
/// " [key: value]" with a wider value for durations and the recurrence
/// pattern in brackets.
pub open spec fn time_entry_width(e: (String, crate::models::TimeTag)) -> int {
    4 + e.0@.len() + (if e.0@ == "duration"@ {
        15int
    } else {
        10int
    }) + match e.1.pattern {
        Some(p) => 3 + p@.len() as int,
        None => 0int,
    }
}

pub open spec fn times_width(ts: Seq<(String, crate::models::TimeTag)>) -> int
    decreases ts.len(),
{
    if ts.len() == 0 {
        0
    } else {
        times_width(ts.drop_last()) + time_entry_width(ts.last())
    }
}

/// Columns drawn after a node's label: the collapsed-children count, the
/// status marker, the note marker and, when collapsed, its time tags.
pub open spec fn decoration(n: Node) -> int {
    (if n.children@.len() > 0 && n.collapsed {
        5 + crate::text::decimal_len(n.children@.len()) as int
    } else {
        0int
    }) + (if has_key(n.tags@, "status"@) {
        2int
    } else {
        0int
    }) + (if n.is_managed_note {
        2int
    } else {
        0int
    }) + (if n.collapsed {
        times_width(n.times@)
    } else {
        0int
    })
}

/// The right anchor of a node drawn at column `rx` and depth `depth`.
pub open spec fn x_end_val(n: Node, rx: int, depth: int) -> int {
    rx + depth * 2 + 2 + n.label@.len() + decoration(n)
}

/// The first position of `id` in `local`.
pub open spec fn first_pos(local: Seq<(usize, usize)>, id: usize) -> Option<int> {
    if exists|p: int| 0 <= p < local.len() && (#[trigger] local[p]).0 == id {
        Some(choose|p: int| 0 <= p < local.len() && (#[trigger] local[p]).0 == id && forall|q: int| 0 <= q < p ==> (#[trigger] local[q]).0 != id)
    } else {
        None
    }
}

/// The length of the run of entries of `local`, from `start` on, that lie in
/// the subtree of `parent`.
pub open spec fn subtree_run(nodes: Seq<Node>, parent: usize, local: Seq<(usize, usize)>, start: int) -> int
    decreases local.len() - start,
{
    if start < 0 || start >= local.len() {
        0
    } else if (local[start].0 as int) < nodes.len() && crate::forest::in_subtree(nodes, local[start].0, parent) {
        1 + subtree_run(nodes, parent, local, start + 1)
    } else {
        0
    }
}

/// The row of a tree at which a pending child insertion opens a gap: just
/// after the last visible node of the insertion parent's subtree.
#[verifier::opaque]
pub open spec fn insertion_row(nodes: Seq<Node>, mode: crate::mode::Mode, local: Seq<(usize, usize)>) -> Option<int> {
    match mode {
        crate::mode::Mode::Input { action: crate::mode::InputAction::InsertChild { parent }, .. } => {
            match first_pos(local, parent) {
                Some(pos) => Some(pos + 1 + subtree_run(nodes, parent, local, pos + 1)),
                None => None,
            }
        },
        _ => None,
    }
}

/// The world row of the entry at local row `lr` of a tree whose root sits at
/// row `ry`.
pub open spec fn placed_y(ry: int, lr: int, ins: Option<int>) -> int {
    ry + lr + if ins matches Some(i) && lr >= i {
        1int
    } else {
        0int
    }
}

/// The nodes after placing the first `k` entries of the tree list `local`.
#[verifier::opaque]
pub open spec fn place_all(
    ns: Seq<Node>,
    local: Seq<(usize, usize)>,
    start: int,
    rx: int,
    ry: int,
    ins: Option<int>,
    k: int,
) -> Seq<Node>
    decreases k,
{
    if k <= 0 {
        ns
    } else {
        let prev = place_all(ns, local, start, rx, ry, ins, k - 1);
        let id = local[k - 1].0 as int;
        let depth = local[k - 1].1 as int;
        prev.update(
            id,
            Node {
                row: (start + k - 1) as usize,
                world_x: rx as i32,
                world_y: placed_y(ry, k - 1, ins) as i32,
                world_x_end: x_end_val(prev[id], rx, depth) as i32,
                ..prev[id]
            },
        )
    }
}

/// Placing the first `k` entries needs no arithmetic outside `i32`/`usize`.
#[verifier::opaque]
pub open spec fn place_fits(
    ns: Seq<Node>,
    local: Seq<(usize, usize)>,
    start: int,
    rx: int,
    ry: int,
    ins: Option<int>,
    k: int,
) -> bool
    decreases k,
{
    if k <= 0 {
        true
    } else {
        let prev = place_all(ns, local, start, rx, ry, ins, k - 1);
        let n = prev[local[k - 1].0 as int];
        let depth = local[k - 1].1 as int;
        &&& place_fits(ns, local, start, rx, ry, ins, k - 1)
        &&& start + k - 1 <= usize::MAX
        &&& k - 1 <= i32::MAX
        &&& placed_y(ry, k - 1, ins) <= i32::MAX
        &&& depth * 2 <= i32::MAX
        &&& n.label@.len() <= i32::MAX
        &&& decoration(n) <= i32::MAX
        &&& x_end_val(n, rx, depth) <= i32::MAX
    }
}

/// The indices below `m` of nodes without a parent, in order.
pub open spec fn roots_below(nodes: Seq<Node>, m: int) -> Seq<usize>
    decreases m,
{
    if m <= 0 {
        Seq::empty()
    } else if nodes[m - 1].parent is None {
        roots_below(nodes, m - 1).push((m - 1) as usize)
    } else {
        roots_below(nodes, m - 1)
    }
}

/// Every node marked as not on screen.
pub open spec fn hide_all(nodes: Seq<Node>) -> Seq<Node> {
    Seq::new(nodes.len(), |i: int| Node { row: usize::MAX, ..nodes[i] })
}

/// Laying out the trees of `roots` in turn: the nodes afterwards, the
/// visible `(node, depth)` order, and whether every value fit.
#[verifier::opaque]
pub open spec fn layout_roots(nodes: Seq<Node>, mode: crate::mode::Mode, roots: Seq<usize>) -> (Seq<Node>, Seq<(usize, usize)>, bool)
    decreases roots.len(),
{
    if roots.len() == 0 {
        (nodes, Seq::empty(), true)
    } else {
        let prev = layout_roots(nodes, mode, roots.drop_last());
        let ns = prev.0;
        let r = roots.last();
        let local = visible_dfs(ns, r, 0, ns.len());
        let ins = insertion_row(ns, mode, local);
        let rx = ns[r as int].world_x as int;
        let ry = ns[r as int].world_y as int;
        (
            place_all(ns, local, prev.1.len() as int, rx, ry, ins, local.len() as int),
            prev.1 + local,
            prev.2 && place_fits(ns, local, prev.1.len() as int, rx, ry, ins, local.len() as int),
        )
    }
}

/// The full layout of a node list in a mode.
pub open spec fn layout_of(nodes: Seq<Node>, mode: crate::mode::Mode) -> (Seq<Node>, Seq<(usize, usize)>, bool) {
    layout_roots(hide_all(nodes), mode, roots_below(nodes, nodes.len() as int))
}

/// Two node lists with the same parents, children and links are equally
/// well-formed.
pub proof fn lemma_forest_same_shape(a: Seq<Node>, b: Seq<Node>)
    requires
        forest(a),
        a.len() == b.len(),
        forall|i: int|
            0 <= i < a.len() ==> (#[trigger] b[i]).parent == a[i].parent && b[i].children@ == a[i].children@
                && b[i].links@ == a[i].links@,
    ensures
        forest(b),
{
    let rank = choose|rank: Seq<nat>| ranked(a, rank);
    assert forall|c: int|
        #![trigger b[c].parent]
        0 <= c < b.len() && b[c].parent is Some implies rank[b[c].parent->0 as int] < rank[c] by {
        assert(a[c].parent == b[c].parent);
    }
    assert(ranked(b, rank));
    assert forall|c: int|
        #![trigger b[c].parent]
        0 <= c < b.len() && b[c].parent is Some implies {
            &&& (b[c].parent->0 as int) < b.len()
            &&& b[b[c].parent->0 as int].children@.contains(c as usize)
        } by {
        assert(a[c].parent == b[c].parent);
        assert(a[a[c].parent->0 as int].children@ == b[b[c].parent->0 as int].children@);
    }
    assert forall|p: int|
        #![trigger b[p].children]
        0 <= p < b.len() implies {
            &&& b[p].children@.no_duplicates()
            &&& forall|j: int|
                #![trigger b[p].children@[j]]
                0 <= j < b[p].children@.len() ==> {
                    &&& (b[p].children@[j] as int) < b.len()
                    &&& b[b[p].children@[j] as int].parent == Some(p as usize)
                }
        } by {
        assert(a[p].children@ == b[p].children@);
        assert forall|j: int|
            #![trigger b[p].children@[j]]
            0 <= j < b[p].children@.len() implies {
                &&& (b[p].children@[j] as int) < b.len()
                &&& b[b[p].children@[j] as int].parent == Some(p as usize)
            } by {
            assert(a[p].children@[j] == b[p].children@[j]);
            assert(a[a[p].children@[j] as int].parent == b[b[p].children@[j] as int].parent);
        }
    }
    assert forall|i: int, k: int|
        #![trigger b[i].links@[k]]
        0 <= i < b.len() && 0 <= k < b[i].links@.len() implies (b[i].links@[k] as int) < b.len() by {
        assert(a[i].links@[k] == b[i].links@[k]);
    }
}

} // verus!

verus! {

pub proof fn lemma_dfs_in_range(nodes: Seq<Node>, node: usize, depth: nat, fuel: nat)
    requires
        forest(nodes),
        (node as int) < nodes.len(),
    ensures
        forall|k: int|
            0 <= k < visible_dfs(nodes, node, depth, fuel).len() ==> (#[trigger] visible_dfs(nodes, node, depth, fuel)[k].0 as int)
                < nodes.len(),
    decreases fuel, 0nat,
{
    if fuel > 0 && !nodes[node as int].collapsed {
        let cs = nodes[node as int].children@;
        assert forall|j: int| 0 <= j < cs.len() implies (#[trigger] cs[j] as int) < nodes.len() by {
            assert(nodes[node as int].children@[j] == cs[j]);
        }
        lemma_dfs_list_in_range(nodes, cs, depth + 1, (fuel - 1) as nat);
        let a = seq![(node, depth as usize)];
        let b = dfs_list(nodes, cs, depth + 1, (fuel - 1) as nat);
        assert(visible_dfs(nodes, node, depth, fuel) == a + b);
        assert forall|k: int| 0 <= k < (a + b).len() implies (#[trigger] (a + b)[k].0 as int) < nodes.len() by {
            if k < a.len() {
                assert((a + b)[k] == a[k]);
            } else {
                assert((a + b)[k] == b[k - a.len()]);
            }
        }
    } else {
        assert(visible_dfs(nodes, node, depth, fuel) == seq![(node, depth as usize)]);
    }
}

pub proof fn lemma_dfs_list_in_range(nodes: Seq<Node>, cs: Seq<usize>, depth: nat, fuel: nat)
    requires
        forest(nodes),
        forall|j: int| 0 <= j < cs.len() ==> (#[trigger] cs[j] as int) < nodes.len(),
    ensures
        forall|k: int|
            0 <= k < dfs_list(nodes, cs, depth, fuel).len() ==> (#[trigger] dfs_list(nodes, cs, depth, fuel)[k].0 as int)
                < nodes.len(),
    decreases fuel, cs.len(),
{
    if cs.len() > 0 {
        let t = cs.drop_last();
        assert forall|j: int| 0 <= j < t.len() implies (#[trigger] t[j] as int) < nodes.len() by {
            assert(t[j] == cs[j]);
        }
        lemma_dfs_list_in_range(nodes, t, depth, fuel);
        lemma_dfs_in_range(nodes, cs.last(), depth, fuel);
        let a = dfs_list(nodes, t, depth, fuel);
        let b = visible_dfs(nodes, cs.last(), depth, fuel);
        assert forall|k: int| 0 <= k < (a + b).len() implies (#[trigger] (a + b)[k].0 as int) < nodes.len() by {
            if k < a.len() {
                assert((a + b)[k] == a[k]);
            } else {
                assert((a + b)[k] == b[k - a.len()]);
            }
        }
    }
}

pub proof fn lemma_place_fits_prefix(
    ns: Seq<Node>,
    local: Seq<(usize, usize)>,
    start: int,
    rx: int,
    ry: int,
    ins: Option<int>,
    j: int,
    k: int,
)
    requires
        0 <= j <= k,
        place_fits(ns, local, start, rx, ry, ins, k),
    ensures
        place_fits(ns, local, start, rx, ry, ins, j),
    decreases k - j,
{
    reveal(place_fits);
    if j < k {
        lemma_place_fits_prefix(ns, local, start, rx, ry, ins, j, k - 1);
    }
}

pub proof fn lemma_layout_fits_prefix(nodes: Seq<Node>, mode: crate::mode::Mode, roots: Seq<usize>, q: int)
    requires
        0 <= q <= roots.len(),
        layout_roots(nodes, mode, roots).2,
    ensures
        layout_roots(nodes, mode, roots.take(q)).2,
    decreases roots.len() - q,
{
    reveal(layout_roots);
    if q < roots.len() {
        assert(roots.drop_last() =~= roots.take(roots.len() - 1));
        lemma_layout_fits_prefix(nodes, mode, roots.drop_last(), q);
        assert(roots.drop_last().take(q) =~= roots.take(q));
    } else {
        assert(roots.take(q) =~= roots);
    }
}

proof fn lemma_times_width_take(ts: Seq<(String, crate::models::TimeTag)>, k: int)
    requires
        0 <= k <= ts.len(),
    ensures
        0 <= times_width(ts.take(k)) <= times_width(ts),
        k < ts.len() ==> times_width(ts.take(k + 1)) == times_width(ts.take(k)) + time_entry_width(ts[k]),
        k < ts.len() ==> time_entry_width(ts[k]) <= times_width(ts),
    decreases ts.len() - k,
{
    if k < ts.len() {
        assert(ts.take(k + 1).drop_last() =~= ts.take(k));
        assert(ts.take(k + 1).last() == ts[k]);
        lemma_times_width_take(ts, k + 1);
        lemma_times_width_nonneg(ts.take(k));
        lemma_times_width_nonneg(ts.take(k + 1));
    } else {
        assert(ts.take(k) =~= ts);
        lemma_times_width_nonneg(ts);
    }
}

proof fn lemma_times_width_nonneg(ts: Seq<(String, crate::models::TimeTag)>)
    ensures
        times_width(ts) >= 0,
    decreases ts.len(),
{
    if ts.len() > 0 {
        lemma_times_width_nonneg(ts.drop_last());
    }
}

/// The columns drawn after a node's label.
fn decoration_of(n: &Node) -> (r: i64)
    requires
        decoration(*n) <= i32::MAX,
    ensures
        r == decoration(*n),
        r >= 0,
{
    proof {
        lemma_times_width_nonneg(n.times@);
    }
    let mut dec: i64 = 0;
    if n.children.len() > 0 && n.collapsed {
        dec = 5 + crate::text::decimal_len_of(n.children.len()) as i64;
    }
    assert(dec == (if n.children@.len() > 0 && n.collapsed {
        5 + crate::text::decimal_len(n.children@.len()) as int
    } else {
        0int
    }));
    let mut has_status = false;
    let mut k: usize = 0;
    while k < n.tags.len()
        invariant
            k <= n.tags@.len(),
            has_status == exists|j: int| 0 <= j < k && (#[trigger] n.tags@[j]).0@ == "status"@,
        decreases n.tags@.len() - k,
    {
        if crate::text::eq_lit(&n.tags[k].0, "status") {
            has_status = true;
        }
        k = k + 1;
    }
    assert(has_status == has_key(n.tags@, "status"@));
    if has_status {
        dec = dec + 2;
    }
    if n.is_managed_note {
        dec = dec + 2;
    }
    if n.collapsed {
        let mut acc: i64 = 0;
        let mut k: usize = 0;
        while k < n.times.len()
            invariant
                k <= n.times@.len(),
                n.collapsed,
                acc == times_width(n.times@.take(k as int)),
                dec + times_width(n.times@) <= i32::MAX,
                0 <= dec,
            decreases n.times@.len() - k,
        {
            proof {
                lemma_times_width_take(n.times@, k as int);
            }
            let key = &n.times[k].0;
            let mut w: i64 = if crate::text::eq_lit(key, "duration") {
                15
            } else {
                10
            };
            match &n.times[k].1.pattern {
                Some(p) => {
                    w = w + 3 + p.as_str().unicode_len() as i64;
                },
                None => {},
            }
            w = w + 4 + key.as_str().unicode_len() as i64;
            acc = acc + w;
            k = k + 1;
        }
        proof {
            assert(n.times@.take(n.times@.len() as int) =~= n.times@);
        }
        dec = dec + acc;
    }
    dec
}

/// `x` occurs in `v`.
pub fn contains_index(v: &Vec<usize>, x: usize) -> (r: bool)
    ensures
        r == v@.contains(x),
{
    let mut k: usize = 0;
    while k < v.len()
        invariant
            k <= v@.len(),
            forall|j: int| 0 <= j < k ==> v@[j] != x,
        decreases v@.len() - k,
    {
        if v[k] == x {
            return true;
        }
        k = k + 1;
    }
    false
}

/// The local row of `local` at which a pending insertion opens a gap.
fn insertion_row_of(nodes: &Vec<Node>, mode: &crate::mode::Mode, local: &Vec<(usize, usize)>) -> (r: Option<usize>)
    requires
        forest(nodes@),
        forall|j: int| 0 <= j < local@.len() ==> (#[trigger] local@[j].0 as int) < nodes@.len(),
    ensures
        match insertion_row(nodes@, *mode, local@) {
            Some(i) => 0 <= i <= usize::MAX && r == Some(i as usize),
            None => r is None,
        },
{
    proof {
        reveal(insertion_row);
    }
    match mode {
        crate::mode::Mode::Input { action: crate::mode::InputAction::InsertChild { parent }, .. } => {
            let parent = *parent;
            let mut k: usize = 0;
            let mut found = false;
            while k < local.len() && !found
                invariant
                    k <= local@.len(),
                    found ==> k < local@.len() && local@[k as int].0 == parent,
                    forall|j: int| 0 <= j < k ==> (#[trigger] local@[j]).0 != parent,
                decreases local@.len() - k, if found { 0int } else { 1int },
            {
                if local[k].0 == parent {
                    found = true;
                } else {
                    k = k + 1;
                }
            }
            if !found {
                return None;
            }
            let pos = k;
            assert(local@[pos as int].0 == parent);
            let subtree = crate::forest::collect_subtree(nodes, parent);
            proof {
                crate::forest::lemma_listing_members(nodes@, parent, subtree@);
                let p = first_pos(local@, parent)->0;
                assert(local@[pos as int].0 == parent);
                if p < pos {
                    assert(local@[p].0 != parent);
                }
                if p > pos {
                    assert(local@[pos as int].0 != parent);
                }
            }
            let mut last_idx = pos;
            let mut i = pos + 1;
            let mut stop = false;
            while i < local.len() && !stop
                invariant
                    pos < local@.len(),
                    pos < i <= local@.len(),
                    last_idx + 1 == i,
                    stop ==> subtree_run(nodes@, parent, local@, i as int) == 0,
                    forall|x: usize| subtree@.contains(x) <==> ((x as int) < nodes@.len() && crate::forest::in_subtree(nodes@, x, parent)),
                    subtree_run(nodes@, parent, local@, pos + 1) == (i - pos - 1) + subtree_run(nodes@, parent, local@, i as int),
                decreases local@.len() - i, if stop { 0int } else { 1int },
            {
                if contains_index(&subtree, local[i].0) {
                    last_idx = i;
                    i = i + 1;
                } else {
                    stop = true;
                }
            }
            Some(last_idx + 1)
        },
        _ => None,
    }
}

} // verus!

verus! {

pub proof fn lemma_place_all_shape(
    ns: Seq<Node>,
    local: Seq<(usize, usize)>,
    start: int,
    rx: int,
    ry: int,
    ins: Option<int>,
    k: int,
)
    requires
        0 <= k <= local.len(),
        forall|j: int| 0 <= j < local.len() ==> (#[trigger] local[j].0 as int) < ns.len(),
    ensures
        place_all(ns, local, start, rx, ry, ins, k).len() == ns.len(),
        forall|i: int|
            0 <= i < ns.len() ==> (#[trigger] place_all(ns, local, start, rx, ry, ins, k)[i]).parent == ns[i].parent
                && place_all(ns, local, start, rx, ry, ins, k)[i].children@ == ns[i].children@
                && place_all(ns, local, start, rx, ry, ins, k)[i].links@ == ns[i].links@
                && place_all(ns, local, start, rx, ry, ins, k)[i].collapsed == ns[i].collapsed,
    decreases k,
{
    reveal(place_all);
    if k > 0 {
        lemma_place_all_shape(ns, local, start, rx, ry, ins, k - 1);
        let prev = place_all(ns, local, start, rx, ry, ins, k - 1);
        let id = local[k - 1].0 as int;
        assert forall|i: int| 0 <= i < ns.len() implies (#[trigger] place_all(ns, local, start, rx, ry, ins, k)[i]).parent == ns[i].parent
            && place_all(ns, local, start, rx, ry, ins, k)[i].children@ == ns[i].children@
            && place_all(ns, local, start, rx, ry, ins, k)[i].links@ == ns[i].links@
            && place_all(ns, local, start, rx, ry, ins, k)[i].collapsed == ns[i].collapsed by {
            assert(prev[i].parent == ns[i].parent);
        }
    }
}

/// Places the entries of one tree's visible list.
fn place_tree(
    nodes: &mut Vec<Node>,
    local: &Vec<(usize, usize)>,
    start_row: usize,
    rx: i32,
    ry: i32,
    ins: Option<usize>,
    Ghost(ins_s): Ghost<Option<int>>,
)
    requires
        forall|j: int| 0 <= j < local@.len() ==> (#[trigger] local@[j].0 as int) < old(nodes)@.len(),
        place_fits(old(nodes)@, local@, start_row as int, rx as int, ry as int, ins_s, local@.len() as int),
        match ins_s {
            Some(v) => 0 <= v <= usize::MAX && ins == Some(v as usize),
            None => ins is None,
        },
    ensures
        final(nodes)@ == place_all(old(nodes)@, local@, start_row as int, rx as int, ry as int, ins_s, local@.len() as int),
{
    let ghost ns = nodes@;
    let mut lr: usize = 0;
    proof {
        reveal(place_all);
        reveal(place_fits);
    }
    while lr < local.len()
        invariant
            forall|j: int| 0 <= j < local@.len() ==> (#[trigger] local@[j].0 as int) < ns.len(),
            place_fits(ns, local@, start_row as int, rx as int, ry as int, ins_s, local@.len() as int),
            match ins_s {
                Some(v) => 0 <= v <= usize::MAX && ins == Some(v as usize),
                None => ins is None,
            },
            lr <= local@.len(),
            nodes@ == place_all(ns, local@, start_row as int, rx as int, ry as int, ins_s, lr as int),
        decreases local@.len() - lr,
    {
        proof {
            lemma_place_fits_prefix(ns, local@, start_row as int, rx as int, ry as int, ins_s, lr as int + 1, local@.len() as int);
            lemma_place_all_shape(ns, local@, start_row as int, rx as int, ry as int, ins_s, lr as int);
            assert(place_fits(ns, local@, start_row as int, rx as int, ry as int, ins_s, lr as int + 1));
        }
        let (id, depth) = local[lr];
        proof {
            reveal(place_all);
            reveal(place_fits);
            let k = lr as int + 1;
            assert(k - 1 == lr as int);
            let prev = place_all(ns, local@, start_row as int, rx as int, ry as int, ins_s, k - 1);
            assert(prev == nodes@);
            let nd = prev[local@[k - 1].0 as int];
            assert(local@[k - 1] == (id, depth));
            assert(nd == nodes@[id as int]);
            assert(placed_y(ry as int, k - 1, ins_s) <= i32::MAX);
            assert(decoration(nd) <= i32::MAX);
            assert(x_end_val(nd, rx as int, depth as int) <= i32::MAX);
            assert(depth * 2 <= i32::MAX);
            assert(nd.label@.len() <= i32::MAX);
            assert(start_row + lr <= usize::MAX);
        }
        let mut node_y: i32 = ry + lr as i32;
        match ins {
            Some(rir) => {
                if lr >= rir {
                    node_y = node_y + 1;
                }
            },
            None => {},
        }
        let label_cols = nodes[id].label.as_str().unicode_len() as i64;
        let dec = decoration_of(&nodes[id]);
        let x_end64: i64 = rx as i64 + depth as i64 * 2 + 2 + label_cols + dec;
        assert(x_end64 == x_end_val(nodes@[id as int], rx as int, depth as int));
        let x_end = x_end64 as i32;
        nodes[id].row = start_row + lr;
        nodes[id].world_x = rx;
        nodes[id].world_y = node_y;
        nodes[id].world_x_end = x_end;
        lr = lr + 1;
        proof {
            reveal(place_all);
        }
    }
}

/// Lays out the tree rooted at `root`, starting at row `start_row`, and
/// returns its visible `(node, depth)` list.
fn layout_tree(nodes: &mut Vec<Node>, mode: &crate::mode::Mode, root: usize, start_row: usize) -> (local: Vec<(usize, usize)>)
    requires
        forest(old(nodes)@),
        (root as int) < old(nodes)@.len(),
        ({
            let ns = old(nodes)@;
            let l = visible_dfs(ns, root, 0, ns.len());
            place_fits(ns, l, start_row as int, ns[root as int].world_x as int, ns[root as int].world_y as int, insertion_row(ns, *mode, l), l.len() as int)
        }),
    ensures
        local@ == visible_dfs(old(nodes)@, root, 0, old(nodes)@.len()),
        final(nodes)@ == place_all(
            old(nodes)@,
            local@,
            start_row as int,
            old(nodes)@[root as int].world_x as int,
            old(nodes)@[root as int].world_y as int,
            insertion_row(old(nodes)@, *mode, local@),
            local@.len() as int,
        ),
        final(nodes)@.len() == old(nodes)@.len(),
        forest(final(nodes)@),
{
    let ghost ns = nodes@;
    let ghost rank = choose|r: Seq<nat>| ranked(ns, r);
    let mut local: Vec<(usize, usize)> = Vec::new();
    let ghost path = seq![root];
    collect_visible_inner(nodes, root, 0, &mut local, Ghost(rank), Ghost(path));
    assert(local@ =~= visible_dfs(ns, root, 0, ns.len()));
    let rx = nodes[root].world_x;
    let ry = nodes[root].world_y;
    proof {
        lemma_dfs_in_range(ns, root, 0, ns.len());
    }
    let ins = insertion_row_of(nodes, mode, &local);
    let ghost ins_s = insertion_row(ns, *mode, local@);
    place_tree(nodes, &local, start_row, rx, ry, ins, Ghost(ins_s));
    proof {
        lemma_place_all_shape(ns, local@, start_row as int, rx as int, ry as int, ins_s, local@.len() as int);
        lemma_forest_same_shape(ns, nodes@);
    }
    local
}

/// Lays out every tree of `nodes` (see `App::layout_nodes`).
fn layout_all(nodes: &mut Vec<Node>, mode: &crate::mode::Mode) -> (order: Vec<(usize, usize)>)
        requires
            forest(old(nodes)@),
            layout_of(old(nodes)@, *mode).2,
        ensures
            final(nodes)@ == layout_of(old(nodes)@, *mode).0,
            order@ == layout_of(old(nodes)@, *mode).1,
            forest(final(nodes)@),
    {
        let ghost orig = nodes@;
        let n = nodes.len();
        let mut roots: Vec<usize> = Vec::new();
        let mut i: usize = 0;
        while i < n
            invariant
                n == nodes@.len(),
                nodes@ == orig,
                i <= n,
                roots@ == roots_below(orig, i as int),
                forall|j: int| 0 <= j < roots@.len() ==> (#[trigger] roots@[j] as int) < i,
            decreases n - i,
        {
            if nodes[i].parent.is_none() {
                roots.push(i);
            }
            i = i + 1;
        }
        let mut i: usize = 0;
        while i < n
            invariant
                n == nodes@.len(),
                n == orig.len(),
                i <= n,
                forall|j: int| 0 <= j < i ==> #[trigger] nodes@[j] == (Node { row: usize::MAX, ..orig[j] }),
                forall|j: int| i <= j < n ==> #[trigger] nodes@[j] == orig[j],
                            decreases n - i,
        {
            nodes[i].row = usize::MAX;
            i = i + 1;
        }
        assert(nodes@ =~= hide_all(orig));
        proof {
            lemma_forest_same_shape(orig, nodes@);
        }
        let ghost hidden = hide_all(orig);
        let ghost md = *mode;
        proof {
            reveal(layout_roots);
        }
        let mut order: Vec<(usize, usize)> = Vec::new();
        let mut q: usize = 0;
        assert(roots@.take(0) =~= Seq::<usize>::empty());
        while q < roots.len()
            invariant
                n == nodes@.len(),
                q <= roots@.len(),
                roots@ == roots_below(orig, n as int),
                forall|j: int| 0 <= j < roots@.len() ==> (#[trigger] roots@[j] as int) < n,
                *mode == md,
                layout_roots(hidden, md, roots@).2,
                nodes@ == layout_roots(hidden, md, roots@.take(q as int)).0,
                order@ == layout_roots(hidden, md, roots@.take(q as int)).1,
                forest(nodes@),
                            decreases roots@.len() - q,
        {
            let root = roots[q];
            let ghost ns = nodes@;
            let start_row = order.len();
            proof {
                reveal(layout_roots);
                assert(roots@.take(q as int + 1).drop_last() =~= roots@.take(q as int));
                assert(roots@.take(q as int + 1).last() == root);
                lemma_layout_fits_prefix(hidden, md, roots@, q as int + 1);
            }
            let mut local = layout_tree(nodes, mode, root, start_row);
            order.append(&mut local);
            q = q + 1;
            proof {
                reveal(layout_roots);
            }
        }
        assert(roots@.take(roots@.len() as int) =~= roots@);
        order
    }

/// The columns drawn after a node's label, or `None` when they exceed
/// `i32::MAX`.
fn decoration_checked(n: &Node) -> (r: Option<i64>)
    ensures
        match r {
            Some(d) => d == decoration(*n) && d <= i32::MAX,
            None => decoration(*n) > i32::MAX,
        },
{
    proof {
        lemma_times_width_nonneg(n.times@);
    }
    let mut dec: i64 = 0;
    if n.children.len() > 0 && n.collapsed {
        dec = 5 + crate::text::decimal_len_of(n.children.len()) as i64;
    }
    assert(dec == (if n.children@.len() > 0 && n.collapsed {
        5 + crate::text::decimal_len(n.children@.len()) as int
    } else {
        0int
    }));
    let mut has_status = false;
    let mut k: usize = 0;
    while k < n.tags.len()
        invariant
            k <= n.tags@.len(),
            has_status == exists|j: int| 0 <= j < k && (#[trigger] n.tags@[j]).0@ == "status"@,
        decreases n.tags@.len() - k,
    {
        if crate::text::eq_lit(&n.tags[k].0, "status") {
            has_status = true;
        }
        k = k + 1;
    }
    assert(has_status == has_key(n.tags@, "status"@));
    if has_status {
        dec = dec + 2;
    }
    if n.is_managed_note {
        dec = dec + 2;
    }
    if !n.collapsed {
        return Some(dec);
    }
    assert(decoration(*n) == dec + times_width(n.times@));
    assert(n.times@.take(0) =~= Seq::<(String, crate::models::TimeTag)>::empty());
    let mut acc: i128 = 0;
    let mut k: usize = 0;
    while k < n.times.len()
        invariant
            k <= n.times@.len(),
            n.collapsed,
            decoration(*n) == dec + times_width(n.times@),
            acc == times_width(n.times@.take(k as int)),
            0 <= dec <= 100,
            dec + acc <= i32::MAX,
        decreases n.times@.len() - k,
    {
        proof {
            lemma_times_width_take(n.times@, k as int);
        }
        let key = &n.times[k].0;
        let mut w: i128 = if crate::text::eq_lit(key, "duration") {
            15
        } else {
            10
        };
        match &n.times[k].1.pattern {
            Some(p) => {
                w = w + 3 + p.as_str().unicode_len() as i128;
            },
            None => {},
        }
        w = w + 4 + key.as_str().unicode_len() as i128;
        acc = acc + w;
        k = k + 1;
        if dec as i128 + acc > i32::MAX as i128 {
            proof {
                lemma_times_width_take(n.times@, k as int);
            }
            return None;
        }
    }
    proof {
        assert(n.times@.take(n.times@.len() as int) =~= n.times@);
    }
    Some(dec + acc as i64)
}

/// Whether placing the entries of `local` needs only arithmetic within
/// `i32`/`usize` (see `place_fits`).
fn place_fits_check(
    nodes: &Vec<Node>,
    local: &Vec<(usize, usize)>,
    start_row: usize,
    rx: i32,
    ry: i32,
    ins: Option<usize>,
    Ghost(ins_s): Ghost<Option<int>>,
) -> (r: bool)
    requires
        forall|j: int| 0 <= j < local@.len() ==> (#[trigger] local@[j].0 as int) < nodes@.len(),
        match ins_s {
            Some(v) => 0 <= v <= usize::MAX && ins == Some(v as usize),
            None => ins is None,
        },
    ensures
        r == place_fits(nodes@, local@, start_row as int, rx as int, ry as int, ins_s, local@.len() as int),
{
    let ghost ns = nodes@;
    let mut k: usize = 0;
    proof {
        reveal(place_fits);
    }
    while k < local.len()
        invariant
            k <= local@.len(),
            ns == nodes@,
            forall|j: int| 0 <= j < local@.len() ==> (#[trigger] local@[j].0 as int) < ns.len(),
            match ins_s {
                Some(v) => 0 <= v <= usize::MAX && ins == Some(v as usize),
                None => ins is None,
            },
            place_fits(ns, local@, start_row as int, rx as int, ry as int, ins_s, k as int),
        decreases local@.len() - k,
    {
        let (id, depth) = local[k];
        proof {
            reveal(place_fits);
            lemma_place_all_content(ns, local@, start_row as int, rx as int, ry as int, ins_s, k as int);
            let prev = place_all(ns, local@, start_row as int, rx as int, ry as int, ins_s, k as int);
            assert(local@[k as int] == (id, depth));
            assert(same_content(ns[id as int], prev[id as int]));
            assert(decoration(prev[id as int]) == decoration(ns[id as int]));
        }
        let dec = match decoration_checked(&nodes[id]) {
            Some(d) => d,
            None => {
                proof {
                    reveal(place_fits);
                    assert(!place_fits(ns, local@, start_row as int, rx as int, ry as int, ins_s, k as int + 1));
                    if place_fits(ns, local@, start_row as int, rx as int, ry as int, ins_s, local@.len() as int) {
                        lemma_place_fits_prefix(ns, local@, start_row as int, rx as int, ry as int, ins_s, k as int + 1, local@.len() as int);
                    }
                }
                return false;
            },
        };
        let row_ok = (start_row as u128) + (k as u128) <= usize::MAX as u128;
        let k_ok = (k as u128) <= i32::MAX as u128;
        let bump: i128 = match ins {
            Some(i) => if k >= i { 1 } else { 0 },
            None => 0,
        };
        let y_ok = ry as i128 + k as i128 + bump <= i32::MAX as i128;
        let d_ok = (depth as u128) * 2 <= i32::MAX as u128;
        let len = nodes[id].label.as_str().unicode_len();
        let len_ok = (len as u128) <= i32::MAX as u128;
        let x_ok = rx as i128 + (depth as i128) * 2 + 2 + len as i128 + dec as i128 <= i32::MAX as i128;
        if !(row_ok && k_ok && y_ok && d_ok && len_ok && x_ok) {
            proof {
                reveal(place_fits);
                assert(!place_fits(ns, local@, start_row as int, rx as int, ry as int, ins_s, k as int + 1));
                if place_fits(ns, local@, start_row as int, rx as int, ry as int, ins_s, local@.len() as int) {
                    lemma_place_fits_prefix(ns, local@, start_row as int, rx as int, ry as int, ins_s, k as int + 1, local@.len() as int);
                }
            }
            return false;
        }
        k = k + 1;
        proof {
            reveal(place_fits);
        }
    }
    true
}

/// Lays out the tree rooted at `root` as `layout_tree` does, when its
/// arithmetic fits; otherwise leaves the nodes alone and returns `None`.
fn try_layout_tree(nodes: &mut Vec<Node>, mode: &crate::mode::Mode, root: usize, start_row: usize) -> (r: Option<Vec<(usize, usize)>>)
    requires
        forest(old(nodes)@),
        (root as int) < old(nodes)@.len(),
    ensures
        ({
            let ns = old(nodes)@;
            let l = visible_dfs(ns, root, 0, ns.len());
            let fits = place_fits(ns, l, start_row as int, ns[root as int].world_x as int, ns[root as int].world_y as int, insertion_row(ns, *mode, l), l.len() as int);
            &&& r is Some <==> fits
            &&& r is None ==> final(nodes)@ == ns
            &&& r matches Some(local) ==> {
                &&& local@ == l
                &&& final(nodes)@ == place_all(ns, l, start_row as int, ns[root as int].world_x as int, ns[root as int].world_y as int, insertion_row(ns, *mode, l), l.len() as int)
            }
            &&& final(nodes)@.len() == ns.len()
            &&& forest(final(nodes)@)
        }),
{
    let ghost ns = nodes@;
    let ghost rank = choose|r: Seq<nat>| ranked(ns, r);
    let mut local: Vec<(usize, usize)> = Vec::new();
    let ghost path = seq![root];
    collect_visible_inner(nodes, root, 0, &mut local, Ghost(rank), Ghost(path));
    assert(local@ =~= visible_dfs(ns, root, 0, ns.len()));
    let rx = nodes[root].world_x;
    let ry = nodes[root].world_y;
    proof {
        lemma_dfs_in_range(ns, root, 0, ns.len());
    }
    let ins = insertion_row_of(nodes, mode, &local);
    let ghost ins_s = insertion_row(ns, *mode, local@);
    if !place_fits_check(nodes, &local, start_row, rx, ry, ins, Ghost(ins_s)) {
        return None;
    }
    place_tree(nodes, &local, start_row, rx, ry, ins, Ghost(ins_s));
    proof {
        lemma_place_all_shape(ns, local@, start_row as int, rx as int, ry as int, ins_s, local@.len() as int);
        lemma_forest_same_shape(ns, nodes@);
    }
    Some(local)
}

/// Lays out every tree as `layout_all` does when the arithmetic of the
/// whole layout fits (`layout_of(..).2`); otherwise stops at the first tree
/// that does not fit and returns `None`, the nodes keeping their content.
fn try_layout_all(nodes: &mut Vec<Node>, mode: &crate::mode::Mode) -> (r: Option<Vec<(usize, usize)>>)
    requires
        forest(old(nodes)@),
    ensures
        r is Some <==> layout_of(old(nodes)@, *mode).2,
        r matches Some(order) ==> final(nodes)@ == layout_of(old(nodes)@, *mode).0 && order@ == layout_of(old(nodes)@, *mode).1,
        forest(final(nodes)@),
        same_contents(old(nodes)@, final(nodes)@),
{
    let ghost orig = nodes@;
    let n = nodes.len();
    let mut roots: Vec<usize> = Vec::new();
    let mut i: usize = 0;
    while i < n
        invariant
            n == nodes@.len(),
            nodes@ == orig,
            i <= n,
            roots@ == roots_below(orig, i as int),
            forall|j: int| 0 <= j < roots@.len() ==> (#[trigger] roots@[j] as int) < i,
        decreases n - i,
    {
        if nodes[i].parent.is_none() {
            roots.push(i);
        }
        i = i + 1;
    }
    let mut i: usize = 0;
    while i < n
        invariant
            n == nodes@.len(),
            n == orig.len(),
            i <= n,
            forall|j: int| 0 <= j < i ==> #[trigger] nodes@[j] == (Node { row: usize::MAX, ..orig[j] }),
            forall|j: int| i <= j < n ==> #[trigger] nodes@[j] == orig[j],
        decreases n - i,
    {
        nodes[i].row = usize::MAX;
        i = i + 1;
    }
    assert(nodes@ =~= hide_all(orig));
    proof {
        lemma_forest_same_shape(orig, nodes@);
    }
    let ghost hidden = hide_all(orig);
    let ghost md = *mode;
    proof {
        reveal(layout_roots);
        assert(same_contents(orig, hidden));
    }
    let mut order: Vec<(usize, usize)> = Vec::new();
    let mut q: usize = 0;
    assert(roots@.take(0) =~= Seq::<usize>::empty());
    while q < roots.len()
        invariant
            n == nodes@.len(),
            n == orig.len(),
            old(nodes)@ == orig,
            hidden == hide_all(orig),
            forest(hidden),
            q <= roots@.len(),
            roots@ == roots_below(orig, n as int),
            forall|j: int| 0 <= j < roots@.len() ==> (#[trigger] roots@[j] as int) < n,
            *mode == md,
            layout_roots(hidden, md, roots@.take(q as int)).2,
            nodes@ == layout_roots(hidden, md, roots@.take(q as int)).0,
            order@ == layout_roots(hidden, md, roots@.take(q as int)).1,
            forest(nodes@),
            same_contents(orig, nodes@),
        decreases roots@.len() - q,
    {
        let root = roots[q];
        let ghost ns = nodes@;
        let start_row = order.len();
        proof {
            reveal(layout_roots);
            assert(roots@.take(q as int + 1).drop_last() =~= roots@.take(q as int));
            assert(roots@.take(q as int + 1).last() == root);
        }
        match try_layout_tree(nodes, mode, root, start_row) {
            Some(mut local) => {
                order.append(&mut local);
            },
            None => {
                proof {
                    assert(nodes@ == ns);
                    assert(!layout_roots(hidden, md, roots@.take(q as int + 1)).2);
                    if layout_roots(hidden, md, roots@).2 {
                        lemma_layout_fits_prefix(hidden, md, roots@, q as int + 1);
                    }
                    assert(layout_of(orig, md) == layout_roots(hidden, md, roots@));
                    assert(!layout_of(orig, md).2);
                }
                return None;
            },
        }
        q = q + 1;
        proof {
            reveal(layout_roots);
            let t = roots@.take(q as int);
            assert forall|j: int| 0 <= j < t.len() implies (#[trigger] t[j] as int) < hidden.len() by {
                assert(t[j] == roots@[j]);
            }
            lemma_layout_roots_content(hidden, md, t);
            assert(same_contents(hidden, nodes@));
            assert forall|j: int| 0 <= j < orig.len() implies same_content(#[trigger] orig[j], nodes@[j]) by {
                assert(same_content(orig[j], hidden[j]));
                assert(same_content(hidden[j], nodes@[j]));
            }
        }
    }
    assert(roots@.take(roots@.len() as int) =~= roots@);
    Some(order)
}

impl crate::app::App {
    /// Lays out every tree as `layout_nodes` does when the arithmetic of the
    /// layout fits; otherwise returns `None`, the nodes keeping their
    /// content.
    pub fn try_layout_nodes(&mut self) -> (r: Option<Vec<(usize, usize)>>)
        requires
            forest(old(self).nodes@),
        ensures
            r is Some <==> layout_of(old(self).nodes@, old(self).mode).2,
            r matches Some(order) ==> final(self).nodes@ == layout_of(old(self).nodes@, old(self).mode).0 && order@ == layout_of(
                old(self).nodes@,
                old(self).mode,
            ).1,
            forest(final(self).nodes@),
            same_contents(old(self).nodes@, final(self).nodes@),
            *final(self) == (crate::app::App { nodes: final(self).nodes, ..*old(self) }),
    {
        try_layout_all(&mut self.nodes, &self.mode)
    }
}

impl crate::app::App {
    /// Lays out every tree: each root keeps its position, the visible nodes
    /// of its tree go on consecutive rows below it (leaving a gap where a
    /// child is being inserted), and every node's right anchor is computed.
    /// Returns the visible `(node, depth)` order over all trees.
    pub fn layout_nodes(&mut self) -> (order: Vec<(usize, usize)>)
        requires
            forest(old(self).nodes@),
            layout_of(old(self).nodes@, old(self).mode).2,
        ensures
            final(self).nodes@ == layout_of(old(self).nodes@, old(self).mode).0,
            order@ == layout_of(old(self).nodes@, old(self).mode).1,
            forest(final(self).nodes@),
            *final(self) == (crate::app::App { nodes: final(self).nodes, ..*old(self) }),
    {
        layout_all(&mut self.nodes, &self.mode)
    }
}


/// Two nodes agree in everything but their layout (row and world anchors).
pub open spec fn same_content(a: Node, b: Node) -> bool {
    &&& a.label == b.label
    &&& a.parent == b.parent
    &&& a.children@ == b.children@
    &&& a.links@ == b.links@
    &&& a.collapsed == b.collapsed
    &&& a.tags@ == b.tags@
    &&& a.times@ == b.times@
    &&& a.is_managed_note == b.is_managed_note
    &&& a.managed == b.managed
}

/// Two node lists agree in everything but their layout.
pub open spec fn same_contents(a: Seq<Node>, b: Seq<Node>) -> bool {
    &&& a.len() == b.len()
    &&& forall|i: int| 0 <= i < a.len() ==> same_content(#[trigger] a[i], b[i])
}

proof fn lemma_place_all_content(
    ns: Seq<Node>,
    local: Seq<(usize, usize)>,
    start: int,
    rx: int,
    ry: int,
    ins: Option<int>,
    k: int,
)
    requires
        0 <= k <= local.len(),
        forall|j: int| 0 <= j < local.len() ==> (#[trigger] local[j].0 as int) < ns.len(),
    ensures
        same_contents(ns, place_all(ns, local, start, rx, ry, ins, k)),
    decreases k,
{
    reveal(place_all);
    if k > 0 {
        lemma_place_all_content(ns, local, start, rx, ry, ins, k - 1);
    }
}

proof fn lemma_layout_roots_content(nodes: Seq<Node>, mode: crate::mode::Mode, roots: Seq<usize>)
    requires
        forest(nodes),
        forall|j: int| 0 <= j < roots.len() ==> (#[trigger] roots[j] as int) < nodes.len(),
    ensures
        same_contents(nodes, layout_roots(nodes, mode, roots).0),
        forest(layout_roots(nodes, mode, roots).0),
    decreases roots.len(),
{
    reveal(layout_roots);
    if roots.len() > 0 {
        let t = roots.drop_last();
        assert forall|j: int| 0 <= j < t.len() implies (#[trigger] t[j] as int) < nodes.len() by {
            assert(t[j] == roots[j]);
        }
        lemma_layout_roots_content(nodes, mode, t);
        let ns = layout_roots(nodes, mode, t).0;
        let r = roots.last();
        let local = visible_dfs(ns, r, 0, ns.len());
        assert((r as int) < ns.len());
        lemma_dfs_in_range(ns, r, 0, ns.len());
        let ins = insertion_row(ns, mode, local);
        let start = layout_roots(nodes, mode, t).1.len() as int;
        let rx = ns[r as int].world_x as int;
        let ry = ns[r as int].world_y as int;
        lemma_place_all_content(ns, local, start, rx, ry, ins, local.len() as int);
        lemma_place_all_shape(ns, local, start, rx, ry, ins, local.len() as int);
        lemma_forest_same_shape(ns, place_all(ns, local, start, rx, ry, ins, local.len() as int));
    }
}

/// Laying out a node list changes nothing but rows and world anchors.
pub proof fn lemma_layout_keeps_content(nodes: Seq<Node>, mode: crate::mode::Mode)
    requires
        forest(nodes),
        nodes.len() <= usize::MAX,
    ensures
        same_contents(nodes, layout_of(nodes, mode).0),
{
    let h = hide_all(nodes);
    assert(same_contents(nodes, h));
    lemma_forest_same_shape(nodes, h);
    let roots = roots_below(nodes, nodes.len() as int);
    lemma_roots_below_range(nodes, nodes.len() as int);
    lemma_layout_roots_content(h, mode, roots);
}

proof fn lemma_roots_below_range(nodes: Seq<Node>, m: int)
    requires
        m <= nodes.len(),
        nodes.len() <= usize::MAX,
    ensures
        forall|j: int| 0 <= j < roots_below(nodes, m).len() ==> (#[trigger] roots_below(nodes, m)[j] as int) < m,
    decreases m,
{
    if m > 0 {
        lemma_roots_below_range(nodes, m - 1);
        let r = roots_below(nodes, m - 1);
        if nodes[m - 1].parent is None {
            assert forall|j: int| 0 <= j < r.push((m - 1) as usize).len() implies (#[trigger] r.push((m - 1) as usize)[j] as int) < m by {
                if j < r.len() {
                    assert(r.push((m - 1) as usize)[j] == r[j]);
                }
            }
        }
    }
}

/// Two time-tag lists with the same keys and patterns, in the same order.
pub open spec fn same_tag_shape(a: Seq<(String, crate::models::TimeTag)>, b: Seq<(String, crate::models::TimeTag)>) -> bool {
    &&& a.len() == b.len()
    &&& forall|k: int| 0 <= k < a.len() ==> (#[trigger] a[k]).0 == b[k].0 && a[k].1.pattern == b[k].1.pattern
}

/// `b` is `a` with at most the timestamps of its time tags changed.
pub open spec fn restamped(a: Node, b: Node) -> bool {
    &&& same_tag_shape(a.times@, b.times@)
    &&& b == (Node { times: b.times, ..a })
}

/// Element by element, `b` is `a` with at most timestamps changed.
pub open spec fn restamped_all(a: Seq<Node>, b: Seq<Node>) -> bool {
    &&& a.len() == b.len()
    &&& forall|i: int| 0 <= i < a.len() ==> restamped(#[trigger] a[i], b[i])
}

proof fn lemma_times_width_stamps(a: Seq<(String, crate::models::TimeTag)>, b: Seq<(String, crate::models::TimeTag)>)
    requires
        same_tag_shape(a, b),
    ensures
        times_width(a) == times_width(b),
    decreases a.len(),
{
    if a.len() > 0 {
        assert(same_tag_shape(a.drop_last(), b.drop_last())) by {
            assert forall|k: int| 0 <= k < a.drop_last().len() implies (#[trigger] a.drop_last()[k]).0 == b.drop_last()[k].0
                && a.drop_last()[k].1.pattern == b.drop_last()[k].1.pattern by {
                assert(a[k].0 == b[k].0);
            }
        }
        lemma_times_width_stamps(a.drop_last(), b.drop_last());
        assert(a.last().0 == b.last().0);
    }
}

proof fn lemma_decoration_stamps(a: Node, b: Node)
    requires
        restamped(a, b),
    ensures
        decoration(a) == decoration(b),
{
    lemma_times_width_stamps(a.times@, b.times@);
}

proof fn lemma_dfs_stamps(a: Seq<Node>, b: Seq<Node>, node: usize, cs: Seq<usize>, depth: nat, fuel: nat)
    requires
        restamped_all(a, b),
    ensures
        visible_dfs(a, node, depth, fuel) == visible_dfs(b, node, depth, fuel),
        dfs_list(a, cs, depth, fuel) == dfs_list(b, cs, depth, fuel),
    decreases fuel, cs.len(),
{
    if fuel > 0 && (node as int) < a.len() {
        assert(restamped(a[node as int], b[node as int]));
        lemma_dfs_stamps(a, b, node, a[node as int].children@, depth + 1, (fuel - 1) as nat);
    }
    if cs.len() > 0 {
        lemma_dfs_stamps(a, b, node, cs.drop_last(), depth, fuel);
        lemma_dfs_stamps(a, b, cs.last(), Seq::empty(), depth, fuel);
    }
}

proof fn lemma_ancestor_stamps(a: Seq<Node>, b: Seq<Node>, x: usize, k: nat)
    requires
        restamped_all(a, b),
    ensures
        crate::forest::ancestor(a, x, k) == crate::forest::ancestor(b, x, k),
    decreases k,
{
    if k > 0 {
        lemma_ancestor_stamps(a, b, x, (k - 1) as nat);
        if let Some(y) = crate::forest::ancestor(a, x, (k - 1) as nat) {
            if (y as int) < a.len() {
                assert(restamped(a[y as int], b[y as int]));
            }
        }
    }
}

proof fn lemma_run_stamps(a: Seq<Node>, b: Seq<Node>, parent: usize, local: Seq<(usize, usize)>, start: int)
    requires
        restamped_all(a, b),
    ensures
        subtree_run(a, parent, local, start) == subtree_run(b, parent, local, start),
    decreases local.len() - start,
{
    if 0 <= start < local.len() {
        lemma_run_stamps(a, b, parent, local, start + 1);
        let x = local[start].0;
        assert(crate::forest::in_subtree(a, x, parent) == crate::forest::in_subtree(b, x, parent)) by {
            if crate::forest::in_subtree(a, x, parent) {
                let k = choose|k: nat| #[trigger] crate::forest::ancestor(a, x, k) == Some(parent);
                lemma_ancestor_stamps(a, b, x, k);
            }
            if crate::forest::in_subtree(b, x, parent) {
                let k = choose|k: nat| #[trigger] crate::forest::ancestor(b, x, k) == Some(parent);
                lemma_ancestor_stamps(a, b, x, k);
            }
        }
    }
}

proof fn lemma_place_stamps(
    a: Seq<Node>,
    b: Seq<Node>,
    local: Seq<(usize, usize)>,
    start: int,
    rx: int,
    ry: int,
    ins: Option<int>,
    k: int,
)
    requires
        restamped_all(a, b),
        forall|j: int| 0 <= j < local.len() ==> (#[trigger] local[j].0 as int) < a.len(),
        0 <= k <= local.len(),
    ensures
        restamped_all(place_all(a, local, start, rx, ry, ins, k), place_all(b, local, start, rx, ry, ins, k)),
        place_fits(a, local, start, rx, ry, ins, k) == place_fits(b, local, start, rx, ry, ins, k),
    decreases k,
{
    reveal(place_all);
    reveal(place_fits);
    if k > 0 {
        lemma_place_stamps(a, b, local, start, rx, ry, ins, k - 1);
        lemma_place_all_shape(a, local, start, rx, ry, ins, k - 1);
        let pa = place_all(a, local, start, rx, ry, ins, k - 1);
        let pb = place_all(b, local, start, rx, ry, ins, k - 1);
        let id = local[k - 1].0 as int;
        assert(restamped(pa[id], pb[id]));
        lemma_decoration_stamps(pa[id], pb[id]);
        let na = place_all(a, local, start, rx, ry, ins, k);
        let nb = place_all(b, local, start, rx, ry, ins, k);
        assert forall|i: int| 0 <= i < na.len() implies restamped(#[trigger] na[i], nb[i]) by {
            if i != id {
                assert(restamped(pa[i], pb[i]));
            }
        }
    }
}

proof fn lemma_roots_stamps(a: Seq<Node>, b: Seq<Node>, mode: crate::mode::Mode, roots: Seq<usize>)
    requires
        restamped_all(a, b),
        forest(a),
        forall|j: int| 0 <= j < roots.len() ==> (#[trigger] roots[j] as int) < a.len(),
    ensures
        restamped_all(layout_roots(a, mode, roots).0, layout_roots(b, mode, roots).0),
        layout_roots(a, mode, roots).1 == layout_roots(b, mode, roots).1,
        layout_roots(a, mode, roots).2 == layout_roots(b, mode, roots).2,
    decreases roots.len(),
{
    reveal(layout_roots);
    if roots.len() > 0 {
        let t = roots.drop_last();
        assert forall|j: int| 0 <= j < t.len() implies (#[trigger] t[j] as int) < a.len() by {
            assert(t[j] == roots[j]);
        }
        lemma_roots_stamps(a, b, mode, t);
        lemma_layout_roots_content(a, mode, t);
        let pa = layout_roots(a, mode, roots.drop_last());
        let pb = layout_roots(b, mode, roots.drop_last());
        let r = roots.last();
        let na = pa.0;
        let nb = pb.0;
        lemma_dfs_stamps(na, nb, r, Seq::empty(), 0, na.len());
        let local = visible_dfs(na, r, 0, na.len());
        assert(insertion_row(na, mode, local) == insertion_row(nb, mode, local)) by {
            reveal(insertion_row);
            if let crate::mode::Mode::Input { action: crate::mode::InputAction::InsertChild { parent }, .. } = mode {
                if let Some(pos) = first_pos(local, parent) {
                    lemma_run_stamps(na, nb, parent, local, pos + 1);
                }
            }
        }
        assert(na.len() == a.len());
        assert(restamped(na[r as int], nb[r as int]));
        lemma_dfs_in_range(na, r, 0, na.len());
        lemma_place_stamps(na, nb, local, pa.1.len() as int, na[r as int].world_x as int, na[r as int].world_y as int, insertion_row(na, mode, local), local.len() as int);
    }
}

/// Laying out does not look at timestamps: node lists that differ only in
/// them are laid out alike, with the same visible order and the same fit.
pub proof fn lemma_layout_ignores_stamps(a: Seq<Node>, b: Seq<Node>, mode: crate::mode::Mode)
    requires
        restamped_all(a, b),
        forest(a),
        a.len() <= usize::MAX,
    ensures
        restamped_all(layout_of(a, mode).0, layout_of(b, mode).0),
        layout_of(a, mode).1 == layout_of(b, mode).1,
        layout_of(a, mode).2 == layout_of(b, mode).2,
{
    let ha = hide_all(a);
    let hb = hide_all(b);
    assert(restamped_all(ha, hb)) by {
        assert forall|i: int| 0 <= i < ha.len() implies restamped(#[trigger] ha[i], hb[i]) by {
            assert(restamped(a[i], b[i]));
        }
    }
    lemma_roots_below_stamps(a, b, a.len() as int);
    lemma_roots_below_range(a, a.len() as int);
    assert(same_contents(a, ha));
    lemma_forest_same_shape(a, ha);
    lemma_roots_stamps(ha, hb, mode, roots_below(a, a.len() as int));
}

proof fn lemma_roots_below_stamps(a: Seq<Node>, b: Seq<Node>, m: int)
    requires
        restamped_all(a, b),
        m <= a.len(),
    ensures
        roots_below(a, m) == roots_below(b, m),
    decreases m,
{
    if m > 0 {
        lemma_roots_below_stamps(a, b, m - 1);
        assert(restamped(a[m - 1], b[m - 1]));
    }
}

} // verus!
