//! What a project save writes and what a load rebuilds: the order in which
//! nodes are stored (parents first, virtual nodes left out), the rows and
//! links of a save, and the node list rebuilt from stored rows.

use vstd::prelude::*;
use crate::forest::{forest, lemma_distinct_bounded, position_of, ranked};
use crate::models::{Node, TimeTag};
use crate::canvas::{tag_pos, tags_view, with_tag};

verus! {

/// The nodes stored for the subtree at `node`, depth first: none for a
/// virtual (managed) node, otherwise the node and then the subtrees of its
/// children in order.  `fuel` bounds the depth.
pub open spec fn save_dfs(nodes: Seq<Node>, node: usize, fuel: nat) -> Seq<usize>
    decreases fuel, 0nat,
{
    if (node as int) >= nodes.len() || nodes[node as int].managed is Some {
        Seq::empty()
    } else if fuel == 0 {
        seq![node]
    } else {
        seq![node] + save_dfs_list(nodes, nodes[node as int].children@, (fuel - 1) as nat)
    }
}

/// `save_dfs` of each of `cs`, concatenated.
pub open spec fn save_dfs_list(nodes: Seq<Node>, cs: Seq<usize>, fuel: nat) -> Seq<usize>
    decreases fuel, cs.len(),
{
    if cs.len() == 0 {
        Seq::empty()
    } else {
        save_dfs_list(nodes, cs.drop_last(), fuel) + save_dfs(nodes, cs.last(), fuel)
    }
}

/// The stored roots among the first `m` nodes: those without a parent that
/// are not virtual, in order.
pub open spec fn save_roots(nodes: Seq<Node>, m: int) -> Seq<usize>
    decreases m,
{
    if m <= 0 {
        Seq::empty()
    } else if nodes[m - 1].parent is None && nodes[m - 1].managed is None {
        save_roots(nodes, m - 1).push((m - 1) as usize)
    } else {
        save_roots(nodes, m - 1)
    }
}

/// The nodes among the first `m` that are not virtual and not in `d`, in
/// order.
pub open spec fn left_over(nodes: Seq<Node>, d: Seq<usize>, m: int) -> Seq<usize>
    decreases m,
{
    if m <= 0 {
        Seq::empty()
    } else if !d.contains((m - 1) as usize) && nodes[m - 1].managed is None {
        left_over(nodes, d, m - 1).push((m - 1) as usize)
    } else {
        left_over(nodes, d, m - 1)
    }
}

/// The order in which a save stores the nodes: the trees from their roots,
/// depth first, then any stored node those did not reach, by index.
pub open spec fn save_order(nodes: Seq<Node>) -> Seq<usize> {
    let d = save_dfs_list(nodes, save_roots(nodes, nodes.len() as int), nodes.len());
    d + left_over(nodes, d, nodes.len() as int)
}

/// Appends the stored nodes of the subtree at `node` to `out`, depth
/// first.
pub fn dfs(
    nodes: &Vec<Node>,
    node: usize,
    out: &mut Vec<usize>,
    Ghost(rank): Ghost<Seq<nat>>,
    Ghost(path): Ghost<Seq<usize>>,
)
    requires
        forest(nodes@),
        ranked(nodes@, rank),
        (node as int) < nodes@.len(),
        path.len() >= 1,
        path.last() == node,
        path.no_duplicates(),
        forall|k: int| 0 <= k < path.len() ==> (#[trigger] path[k] as int) < nodes@.len(),
        forall|k: int| 0 <= k < path.len() - 1 ==> rank[#[trigger] path[k] as int] < rank[node as int],
    ensures
        final(out)@ == old(out)@ + save_dfs(nodes@, node, (nodes@.len() - path.len() + 1) as nat),
    decreases nodes@.len() - path.len() + 1,
{
    proof {
        lemma_distinct_bounded(path, nodes@.len());
    }
    let ghost fuel = (nodes@.len() - path.len() + 1) as nat;
    let ghost out0 = out@;
    if nodes[node].managed.is_some() {
        return;
    }
    out.push(node);
    let ghost cs = nodes@[node as int].children@;
    let mut j: usize = 0;
    while j < nodes[node].children.len()
        invariant
            forest(nodes@),
            ranked(nodes@, rank),
            (node as int) < nodes@.len(),
            nodes@[node as int].managed is None,
            cs == nodes@[node as int].children@,
            path.len() >= 1,
            path.last() == node,
            path.no_duplicates(),
            forall|k: int| 0 <= k < path.len() ==> (#[trigger] path[k] as int) < nodes@.len(),
            forall|k: int| 0 <= k < path.len() - 1 ==> rank[#[trigger] path[k] as int] < rank[node as int],
            fuel == nodes@.len() - path.len() + 1,
            fuel >= 1,
            j <= cs.len(),
            out@ == out0 + seq![node] + save_dfs_list(nodes@, cs.take(j as int), (fuel - 1) as nat),
        decreases cs.len() - j,
    {
        let c = nodes[node].children[j];
        let ghost path2 = path.push(c);
        proof {
            assert(cs[j as int] == c);
            assert(nodes@[c as int].parent == Some(node));
            assert(rank[node as int] < rank[c as int]);
            assert forall|a: int, b: int| 0 <= a < path2.len() && 0 <= b < path2.len() && a != b implies path2[a] != path2[b] by {
                if a < path.len() && b < path.len() {
                } else if a < path.len() {
                    if a < path.len() - 1 {
                        assert(rank[path[a] as int] < rank[node as int]);
                    }
                } else {
                    if b < path.len() - 1 {
                        assert(rank[path[b] as int] < rank[node as int]);
                    }
                }
            }
            assert forall|k: int| 0 <= k < path2.len() - 1 implies rank[#[trigger] path2[k] as int] < rank[c as int] by {
                assert(path2[k] == path[k]);
                if k < path.len() - 1 {
                    assert(rank[path[k] as int] < rank[node as int]);
                }
            }
            assert forall|k: int| 0 <= k < path2.len() implies (#[trigger] path2[k] as int) < nodes@.len() by {
                if k < path.len() {
                    assert(path2[k] == path[k]);
                }
            }
            lemma_distinct_bounded(path2, nodes@.len());
            assert(cs.take(j as int + 1).drop_last() =~= cs.take(j as int));
            assert(cs.take(j as int + 1).last() == c);
        }
        dfs(nodes, c, out, Ghost(rank), Ghost(path2));
        j = j + 1;
        assert(out@ =~= out0 + seq![node] + save_dfs_list(nodes@, cs.take(j as int), (fuel - 1) as nat));
    }
    assert(cs.take(cs.len() as int) =~= cs);
    assert(out@ =~= out0 + save_dfs(nodes@, node, fuel));
}

/// The order in which a save stores the nodes (see `save_order`).
pub fn topo_order(nodes: &Vec<Node>) -> (out: Vec<usize>)
    requires
        forest(nodes@),
    ensures
        out@ == save_order(nodes@),
{
    let ghost rank = choose|rank: Seq<nat>| ranked(nodes@, rank);
    let n = nodes.len();
    let mut out: Vec<usize> = Vec::new();
    let mut roots: Vec<usize> = Vec::new();
    let mut i: usize = 0;
    while i < n
        invariant
            n == nodes@.len(),
            i <= n,
            roots@ == save_roots(nodes@, i as int),
        decreases n - i,
    {
        if nodes[i].parent.is_none() && nodes[i].managed.is_none() {
            roots.push(i);
        }
        i = i + 1;
    }
    proof {
        lemma_save_roots_in_range(nodes@, n as int);
    }
    let mut r: usize = 0;
    while r < roots.len()
        invariant
            forest(nodes@),
            ranked(nodes@, rank),
            n == nodes@.len(),
            roots@ == save_roots(nodes@, n as int),
            forall|k: int| 0 <= k < roots@.len() ==> (#[trigger] roots@[k] as int) < n,
            r <= roots@.len(),
            out@ == save_dfs_list(nodes@, roots@.take(r as int), n as nat),
        decreases roots@.len() - r,
    {
        let root = roots[r];
        let ghost path = seq![root];
        proof {
            assert(roots@[r as int] == root);
            assert(path.no_duplicates());
            assert(roots@.take(r as int + 1).drop_last() =~= roots@.take(r as int));
            assert(roots@.take(r as int + 1).last() == root);
        }
        dfs(nodes, root, &mut out, Ghost(rank), Ghost(path));
        r = r + 1;
    }
    proof {
        assert(roots@.take(roots@.len() as int) =~= roots@);
    }
    let ghost d = out@;
    proof {
        lemma_save_dfs_list_in_range(nodes@, roots@, n as nat);
        assert(d.take(0) =~= Seq::<usize>::empty());
    }
    let mut seen: Vec<bool> = Vec::new();
    let mut k: usize = 0;
    while k < n
        invariant
            n == nodes@.len(),
            k <= n,
            seen@.len() == k,
            forall|x: int| 0 <= x < k ==> !(#[trigger] seen@[x]),
        decreases n - k,
    {
        seen.push(false);
        k = k + 1;
    }
    let mut q: usize = 0;
    while q < out.len()
        invariant
            out@ == d,
            n == nodes@.len(),
            seen@.len() == n,
            q <= d.len(),
            forall|x: int| 0 <= x < n ==> (#[trigger] seen@[x] <==> d.take(q as int).contains(x as usize)),
            forall|y: int| 0 <= y < d.len() ==> (#[trigger] d[y] as int) < n,
        decreases d.len() - q,
    {
        let x = out[q];
        seen.set(x, true);
        proof {
            assert forall|z: int| 0 <= z < n implies (#[trigger] seen@[z] <==> d.take(q as int + 1).contains(z as usize)) by {
                let t1 = d.take(q as int + 1);
                let t0 = d.take(q as int);
                assert(t1 =~= t0.push(x));
                if z == x as int {
                    assert(t1[q as int] == x);
                } else {
                    if t1.contains(z as usize) {
                        let w = choose|w: int| 0 <= w < t1.len() && #[trigger] t1[w] == z as usize;
                        assert(w < q);
                        assert(t0[w] == z as usize);
                    }
                    if t0.contains(z as usize) {
                        let w = choose|w: int| 0 <= w < t0.len() && #[trigger] t0[w] == z as usize;
                        assert(t1[w] == z as usize);
                    }
                }
            }
        }
        q = q + 1;
    }
    proof {
        assert(d.take(d.len() as int) =~= d);
    }
    let mut m: usize = 0;
    while m < n
        invariant
            n == nodes@.len(),
            seen@.len() == n,
            m <= n,
            forall|x: int| 0 <= x < n ==> (#[trigger] seen@[x] <==> d.contains(x as usize)),
            out@ == d + left_over(nodes@, d, m as int),
        decreases n - m,
    {
        if !seen[m] && nodes[m].managed.is_none() {
            out.push(m);
        }
        m = m + 1;
    }
    out
}

/// The stored subtrees list node indices only.
proof fn lemma_save_dfs_in_range(nodes: Seq<Node>, node: usize, fuel: nat)
    ensures
        forall|k: int| 0 <= k < save_dfs(nodes, node, fuel).len() ==> (#[trigger] save_dfs(nodes, node, fuel)[k] as int) < nodes.len(),
    decreases fuel, 0nat,
{
    if (node as int) < nodes.len() && nodes[node as int].managed is None && fuel > 0 {
        lemma_save_dfs_list_in_range(nodes, nodes[node as int].children@, (fuel - 1) as nat);
        let t = save_dfs_list(nodes, nodes[node as int].children@, (fuel - 1) as nat);
        assert forall|k: int| 0 <= k < save_dfs(nodes, node, fuel).len() implies (#[trigger] save_dfs(nodes, node, fuel)[k] as int) < nodes.len() by {
            if k > 0 {
                assert(save_dfs(nodes, node, fuel)[k] == t[k - 1]);
            }
        }
    }
}

/// The stored subtrees of a list of nodes list node indices only.
proof fn lemma_save_dfs_list_in_range(nodes: Seq<Node>, cs: Seq<usize>, fuel: nat)
    ensures
        forall|k: int| 0 <= k < save_dfs_list(nodes, cs, fuel).len() ==> (#[trigger] save_dfs_list(nodes, cs, fuel)[k] as int) < nodes.len(),
    decreases fuel, cs.len(),
{
    if cs.len() > 0 {
        lemma_save_dfs_list_in_range(nodes, cs.drop_last(), fuel);
        lemma_save_dfs_in_range(nodes, cs.last(), fuel);
        let a = save_dfs_list(nodes, cs.drop_last(), fuel);
        let b = save_dfs(nodes, cs.last(), fuel);
        assert forall|k: int| 0 <= k < save_dfs_list(nodes, cs, fuel).len() implies (#[trigger] save_dfs_list(nodes, cs, fuel)[k] as int) < nodes.len() by {
            if k < a.len() {
                assert(save_dfs_list(nodes, cs, fuel)[k] == a[k]);
            } else {
                assert(save_dfs_list(nodes, cs, fuel)[k] == b[k - a.len()]);
            }
        }
    }
}

/// The stored roots are node indices.
proof fn lemma_save_roots_in_range(nodes: Seq<Node>, m: int)
    requires
        0 <= m <= nodes.len(),
    ensures
        forall|k: int| 0 <= k < save_roots(nodes, m).len() ==> (#[trigger] save_roots(nodes, m)[k] as int) < m,
    decreases m,
{
    if m > 0 {
        lemma_save_roots_in_range(nodes, m - 1);
        let r = save_roots(nodes, m - 1);
        assert forall|k: int| 0 <= k < save_roots(nodes, m).len() implies (#[trigger] save_roots(nodes, m)[k] as int) < m by {
            if k < r.len() {
                assert(save_roots(nodes, m)[k] == r[k]);
            }
        }
    }
}

/// Only stored (not virtual) nodes are in a stored subtree.
proof fn lemma_save_dfs_stored(nodes: Seq<Node>, node: usize, fuel: nat)
    ensures
        forall|k: int| 0 <= k < save_dfs(nodes, node, fuel).len() ==> nodes[#[trigger] save_dfs(nodes, node, fuel)[k] as int].managed is None,
    decreases fuel, 0nat,
{
    if (node as int) < nodes.len() && nodes[node as int].managed is None && fuel > 0 {
        lemma_save_dfs_list_stored(nodes, nodes[node as int].children@, (fuel - 1) as nat);
        let t = save_dfs_list(nodes, nodes[node as int].children@, (fuel - 1) as nat);
        assert forall|k: int| 0 <= k < save_dfs(nodes, node, fuel).len() implies nodes[#[trigger] save_dfs(nodes, node, fuel)[k] as int].managed is None by {
            if k > 0 {
                assert(save_dfs(nodes, node, fuel)[k] == t[k - 1]);
            }
        }
    }
}

/// Only stored nodes are in the stored subtrees of a list of nodes.
proof fn lemma_save_dfs_list_stored(nodes: Seq<Node>, cs: Seq<usize>, fuel: nat)
    ensures
        forall|k: int| 0 <= k < save_dfs_list(nodes, cs, fuel).len() ==> nodes[#[trigger] save_dfs_list(nodes, cs, fuel)[k] as int].managed is None,
    decreases fuel, cs.len(),
{
    if cs.len() > 0 {
        lemma_save_dfs_list_stored(nodes, cs.drop_last(), fuel);
        lemma_save_dfs_stored(nodes, cs.last(), fuel);
        let a = save_dfs_list(nodes, cs.drop_last(), fuel);
        let b = save_dfs(nodes, cs.last(), fuel);
        assert forall|k: int| 0 <= k < save_dfs_list(nodes, cs, fuel).len() implies nodes[#[trigger] save_dfs_list(nodes, cs, fuel)[k] as int].managed is None by {
            if k < a.len() {
                assert(save_dfs_list(nodes, cs, fuel)[k] == a[k]);
            } else {
                assert(save_dfs_list(nodes, cs, fuel)[k] == b[k - a.len()]);
            }
        }
    }
}

/// What is left over below `m` is exactly the stored nodes there outside `d`.
proof fn lemma_left_over(nodes: Seq<Node>, d: Seq<usize>, m: int)
    requires
        0 <= m <= nodes.len(),
        nodes.len() <= usize::MAX,
    ensures
        forall|i: int| 0 <= i < m ==> (left_over(nodes, d, m).contains(i as usize) <==> (!d.contains(i as usize) && (#[trigger] nodes[i]).managed is None)),
        forall|k: int| 0 <= k < left_over(nodes, d, m).len() ==> (#[trigger] left_over(nodes, d, m)[k] as int) < m,
    decreases m,
{
    if m > 0 {
        lemma_left_over(nodes, d, m - 1);
        let r = left_over(nodes, d, m - 1);
        let t = left_over(nodes, d, m);
        assert forall|k: int| 0 <= k < t.len() implies (#[trigger] t[k] as int) < m by {
            if k < r.len() {
                assert(t[k] == r[k]);
            }
        }
        assert forall|i: int| 0 <= i < m implies (t.contains(i as usize) <==> (!d.contains(i as usize) && (#[trigger] nodes[i]).managed is None)) by {
            if i < m - 1 {
                if t.contains(i as usize) {
                    let w = choose|w: int| 0 <= w < t.len() && #[trigger] t[w] == i as usize;
                    if w < r.len() {
                        assert(r[w] == i as usize);
                    }
                }
                if r.contains(i as usize) {
                    let w = choose|w: int| 0 <= w < r.len() && #[trigger] r[w] == i as usize;
                    assert(t[w] == i as usize);
                }
            } else {
                if t.contains(i as usize) {
                    let w = choose|w: int| 0 <= w < t.len() && #[trigger] t[w] == i as usize;
                    if w < r.len() {
                        assert(r[w] == i as usize);
                    }
                }
                if !d.contains(i as usize) && nodes[i].managed is None {
                    assert(t[r.len() as int] == i as usize);
                }
            }
        }
    }
}

/// A save stores exactly the nodes that are not virtual: every one of
/// them, and nothing else.
pub proof fn lemma_save_order_members(nodes: Seq<Node>)
    requires
        nodes.len() <= usize::MAX,
    ensures
        forall|i: int| 0 <= i < nodes.len() ==> (save_order(nodes).contains(i as usize) <==> (#[trigger] nodes[i]).managed is None),
        forall|k: int| 0 <= k < save_order(nodes).len() ==> (#[trigger] save_order(nodes)[k] as int) < nodes.len(),
{
    let d = save_dfs_list(nodes, save_roots(nodes, nodes.len() as int), nodes.len());
    let l = left_over(nodes, d, nodes.len() as int);
    let o = save_order(nodes);
    lemma_save_dfs_list_stored(nodes, save_roots(nodes, nodes.len() as int), nodes.len());
    lemma_save_dfs_list_in_range(nodes, save_roots(nodes, nodes.len() as int), nodes.len());
    lemma_left_over(nodes, d, nodes.len() as int);
    assert forall|k: int| 0 <= k < o.len() implies (#[trigger] o[k] as int) < nodes.len() by {
        if k < d.len() {
            assert(o[k] == d[k]);
        } else {
            assert(o[k] == l[k - d.len()]);
        }
    }
    assert forall|i: int| 0 <= i < nodes.len() implies (o.contains(i as usize) <==> (#[trigger] nodes[i]).managed is None) by {
        if o.contains(i as usize) {
            let w = choose|w: int| 0 <= w < o.len() && #[trigger] o[w] == i as usize;
            if w < d.len() {
                assert(d[w] == i as usize);
            } else {
                assert(l[w - d.len()] == i as usize);
                assert(l.contains(i as usize));
            }
        }
        if nodes[i].managed is None {
            if d.contains(i as usize) {
                let w = choose|w: int| 0 <= w < d.len() && #[trigger] d[w] == i as usize;
                assert(o[w] == i as usize);
            } else {
                assert(l.contains(i as usize));
                let w = choose|w: int| 0 <= w < l.len() && #[trigger] l[w] == i as usize;
                assert(o[d.len() + w] == i as usize);
            }
        }
    }
}

/// One stored node: which node, the row of its parent when that is stored
/// before it, and its position among its parent's children.
pub struct SaveRow {
    pub node: usize,
    pub parent_row: Option<usize>,
    pub sort_key: usize,
}

/// What a save writes: the nodes in storage order, the row of each node
/// (none for a node not stored) and the links between stored rows.
pub struct SavePlan {
    pub rows: Vec<SaveRow>,
    pub node_rows: Vec<Option<usize>>,
    pub links: Vec<(usize, usize)>,
}

/// The last position before `k` at which `order` holds `x`.
pub open spec fn last_before(order: Seq<usize>, x: usize, k: int) -> Option<int>
    decreases k,
{
    if k <= 0 {
        None
    } else if order[k - 1] == x {
        Some(k - 1)
    } else {
        last_before(order, x, k - 1)
    }
}

/// The position of `c` among the children of node `p`, or 0.
pub open spec fn sort_key_of(nodes: Seq<Node>, p: usize, c: usize) -> int {
    if nodes[p as int].children@.contains(c) {
        nodes[p as int].children@.index_of(c)
    } else {
        0
    }
}

/// Row `k` of a save of `nodes` in the order `order`.
pub open spec fn row_ok(nodes: Seq<Node>, order: Seq<usize>, k: int, r: SaveRow) -> bool {
    let i = order[k];
    &&& r.node == i
    &&& r.parent_row == match nodes[i as int].parent {
        Some(p) => match last_before(order, p, k) {
            Some(j) => Some(j as usize),
            None => None,
        },
        None => None,
    }
    &&& r.sort_key == match nodes[i as int].parent {
        Some(p) => sort_key_of(nodes, p, i),
        None => 0,
    }
}

/// The stored links out of node `i` whose targets are among `ts`: one
/// (source row, target row) pair per target that is a stored node.
pub open spec fn links_out(nodes: Seq<Node>, order: Seq<usize>, i: usize, ts: Seq<usize>) -> Seq<(usize, usize)>
    decreases ts.len(),
{
    if ts.len() == 0 {
        Seq::empty()
    } else {
        let r = links_out(nodes, order, i, ts.drop_last());
        let t = ts.last();
        if (t as int) < nodes.len() && nodes[t as int].managed is None && last_before(order, t, order.len() as int) is Some {
            r.push((last_before(order, i, order.len() as int)->0 as usize, last_before(order, t, order.len() as int)->0 as usize))
        } else {
            r
        }
    }
}

/// The stored links of the first `m` nodes, by source node.
pub open spec fn link_rows(nodes: Seq<Node>, order: Seq<usize>, m: int) -> Seq<(usize, usize)>
    decreases m,
{
    if m <= 0 {
        Seq::empty()
    } else {
        let r = link_rows(nodes, order, m - 1);
        let i = (m - 1) as usize;
        if nodes[m - 1].managed is None && last_before(order, i, order.len() as int) is Some {
            r + links_out(nodes, order, i, nodes[m - 1].links@)
        } else {
            r
        }
    }
}

/// `plan` is the save of `nodes`.
pub open spec fn plan_ok(nodes: Seq<Node>, plan: SavePlan) -> bool {
    let order = save_order(nodes);
    &&& plan.rows@.len() == order.len()
    &&& forall|k: int| 0 <= k < order.len() ==> #[trigger] row_ok(nodes, order, k, plan.rows@[k])
    &&& plan.node_rows@.len() == nodes.len()
    &&& forall|i: int| 0 <= i < nodes.len() ==> #[trigger] plan.node_rows@[i] == match last_before(order, i as usize, order.len() as int) {
        Some(j) => Some(j as usize),
        None => None,
    }
    &&& plan.links@ == link_rows(nodes, order, nodes.len() as int)
}

/// The save of `nodes` (see `plan_ok`).
pub fn save_plan(nodes: &Vec<Node>) -> (plan: SavePlan)
    requires
        forest(nodes@),
    ensures
        plan_ok(nodes@, plan),
{
    let order = topo_order(nodes);
    let ghost o = order@;
    let n = nodes.len();
    proof {
        lemma_save_order_members(nodes@);
    }
    let mut seen: Vec<Option<usize>> = Vec::new();
    let mut z: usize = 0;
    while z < n
        invariant
            z <= n,
            seen@.len() == z,
            forall|x: int| 0 <= x < z ==> (#[trigger] seen@[x]) is None,
        decreases n - z,
    {
        seen.push(None);
        z = z + 1;
    }
    let mut rows: Vec<SaveRow> = Vec::new();
    let mut k: usize = 0;
    while k < order.len()
        invariant
            forest(nodes@),
            n == nodes@.len(),
            o == order@,
            o == save_order(nodes@),
            forall|q: int| 0 <= q < o.len() ==> (#[trigger] o[q] as int) < n,
            k <= o.len(),
            seen@.len() == n,
            forall|x: int| 0 <= x < n ==> #[trigger] seen@[x] == match last_before(o, x as usize, k as int) {
                Some(j) => Some(j as usize),
                None => None,
            },
            rows@.len() == k,
            forall|q: int| 0 <= q < k ==> #[trigger] row_ok(nodes@, o, q, rows@[q]),
        decreases o.len() - k,
    {
        let i = order[k];
        let (parent_row, sort_key) = match nodes[i].parent {
            Some(p) => {
                proof {
                    assert(nodes@[i as int].parent == Some(p));
                }
                let key = match position_of(&nodes[p].children, i) {
                    Some(j) => {
                        proof {
                            let cs = nodes@[p as int].children@;
                            assert(cs.no_duplicates());
                            assert(cs.contains(i));
                            assert(cs[cs.index_of(i)] == i);
                        }
                        j
                    },
                    None => 0,
                };
                (seen[p], key)
            },
            None => (None, 0),
        };
        rows.push(SaveRow { node: i, parent_row, sort_key });
        let ghost before = seen@;
        seen.set(i, Some(k));
        proof {
            assert forall|x: int| 0 <= x < n implies #[trigger] seen@[x] == match last_before(o, x as usize, k as int + 1) {
                Some(j) => Some(j as usize),
                None => None,
            } by {
                if x != i as int {
                    assert(seen@[x] == before[x]);
                }
            }
            assert forall|q: int| 0 <= q < k + 1 implies #[trigger] row_ok(nodes@, o, q, rows@[q]) by {
                if q < k {
                    assert(rows@[q] == rows@[q]);
                }
            }
        }
        k = k + 1;
    }
    let mut links: Vec<(usize, usize)> = Vec::new();
    let mut i: usize = 0;
    while i < n
        invariant
            forest(nodes@),
            n == nodes@.len(),
            o == save_order(nodes@),
            seen@.len() == n,
            forall|x: int| 0 <= x < n ==> #[trigger] seen@[x] == match last_before(o, x as usize, o.len() as int) {
                Some(j) => Some(j as usize),
                None => None,
            },
            i <= n,
            links@ == link_rows(nodes@, o, i as int),
        decreases n - i,
    {
        match seen[i] {
            Some(ri) => {
                if nodes[i].managed.is_none() {
                    let ghost base = links@;
                    let mut t: usize = 0;
                    while t < nodes[i].links.len()
                        invariant
                            forest(nodes@),
                            n == nodes@.len(),
                            i < n,
                            seen@.len() == n,
                            forall|x: int| 0 <= x < n ==> #[trigger] seen@[x] == match last_before(o, x as usize, o.len() as int) {
                                Some(j) => Some(j as usize),
                                None => None,
                            },
                            seen@[i as int] == Some(ri),
                            t <= nodes@[i as int].links@.len(),
                            links@ == base + links_out(nodes@, o, i, nodes@[i as int].links@.take(t as int)),
                        decreases nodes@[i as int].links@.len() - t,
                    {
                        let tgt = nodes[i].links[t];
                        proof {
                            let ls = nodes@[i as int].links@;
                            assert(ls.take(t as int + 1).drop_last() =~= ls.take(t as int));
                            assert(ls.take(t as int + 1).last() == tgt);
                        }
                        if tgt < n && nodes[tgt].managed.is_none() {
                            match seen[tgt] {
                                Some(rt) => {
                                    links.push((ri, rt));
                                },
                                None => {},
                            }
                        }
                        t = t + 1;
                    }
                    proof {
                        assert(nodes@[i as int].links@.take(nodes@[i as int].links@.len() as int) =~= nodes@[i as int].links@);
                    }
                }
            },
            None => {},
        }
        i = i + 1;
    }
    SavePlan { rows, node_rows: seen, links }
}

/// A stored node as read back.
pub struct NodeRecord {
    pub id: i64,
    pub label: String,
    pub parent_id: Option<i64>,
    pub collapsed: bool,
    pub world_x: i32,
    pub world_y: i32,
    pub is_managed_note: bool,
}

/// A stored tag as read back.
pub struct TagRecord {
    pub node_id: i64,
    pub key: String,
    pub value: String,
}

/// A stored time tag as read back.
pub struct TimeRecord {
    pub node_id: i64,
    pub key: String,
    pub timestamp: i64,
    pub pattern: Option<String>,
}

/// The node index that stored id `id` maps to: the last record with it.
pub open spec fn id_pos(recs: Seq<NodeRecord>, id: i64) -> Option<int>
    decreases recs.len(),
{
    if recs.len() == 0 {
        None
    } else if recs.last().id == id {
        Some(recs.len() - 1)
    } else {
        id_pos(recs.drop_last(), id)
    }
}

/// The node index of an optional stored id.
pub open spec fn ref_pos(recs: Seq<NodeRecord>, id: Option<i64>) -> Option<usize> {
    match id {
        Some(x) => match id_pos(recs, x) {
            Some(k) => Some(k as usize),
            None => None,
        },
        None => None,
    }
}

/// The records among the first `m` whose parent maps to node `i`, in order.
pub open spec fn kids_of(recs: Seq<NodeRecord>, i: usize, m: int) -> Seq<usize>
    decreases m,
{
    if m <= 0 {
        Seq::empty()
    } else if ref_pos(recs, recs[m - 1].parent_id) == Some(i) {
        kids_of(recs, i, m - 1).push((m - 1) as usize)
    } else {
        kids_of(recs, i, m - 1)
    }
}

/// The link targets of node `i` among the first `m` stored links: those
/// whose source maps to `i` and whose target maps to a node.
pub open spec fn links_of(recs: Seq<NodeRecord>, ls: Seq<(i64, i64)>, i: usize, m: int) -> Seq<usize>
    decreases m,
{
    if m <= 0 {
        Seq::empty()
    } else {
        let r = links_of(recs, ls, i, m - 1);
        let (s, t) = ls[m - 1];
        if ref_pos(recs, Some(s)) == Some(i) && ref_pos(recs, Some(t)) is Some {
            r.push(ref_pos(recs, Some(t))->0)
        } else {
            r
        }
    }
}

/// The tags of node `i` after the first `m` stored tags: each sets its key.
pub open spec fn tags_of(recs: Seq<NodeRecord>, ts: Seq<TagRecord>, i: usize, m: int) -> Seq<(Seq<char>, Seq<char>)>
    decreases m,
{
    if m <= 0 {
        Seq::empty()
    } else {
        let r = tags_of(recs, ts, i, m - 1);
        if ref_pos(recs, Some(ts[m - 1].node_id)) == Some(i) {
            with_tag(r, ts[m - 1].key@, ts[m - 1].value@)
        } else {
            r
        }
    }
}

/// A time tag as plain values.
pub open spec fn time_view(e: (String, TimeTag)) -> (Seq<char>, i64, Option<Seq<char>>) {
    (e.0@, e.1.timestamp, match e.1.pattern {
        Some(p) => Some(p@),
        None => None,
    })
}

/// The first index of a time tag with key `key`.
pub open spec fn time_pos(t: Seq<(Seq<char>, i64, Option<Seq<char>>)>, key: Seq<char>) -> Option<int> {
    if exists|j: int| 0 <= j < t.len() && (#[trigger] t[j]).0 == key {
        Some(choose|j: int| 0 <= j < t.len() && (#[trigger] t[j]).0 == key && forall|i: int| 0 <= i < j ==> (#[trigger] t[i]).0 != key)
    } else {
        None
    }
}

/// Time tag `key` set to `e`: the first with that key is replaced, or it is
/// added last.
pub open spec fn with_time(t: Seq<(Seq<char>, i64, Option<Seq<char>>)>, e: (Seq<char>, i64, Option<Seq<char>>)) -> Seq<(Seq<char>, i64, Option<Seq<char>>)> {
    match time_pos(t, e.0) {
        Some(j) => t.update(j, e),
        None => t.push(e),
    }
}

/// The time tags of node `i` after the first `m` stored ones.
pub open spec fn times_of(recs: Seq<NodeRecord>, ts: Seq<TimeRecord>, i: usize, m: int) -> Seq<(Seq<char>, i64, Option<Seq<char>>)>
    decreases m,
{
    if m <= 0 {
        Seq::empty()
    } else {
        let r = times_of(recs, ts, i, m - 1);
        let x = ts[m - 1];
        if ref_pos(recs, Some(x.node_id)) == Some(i) {
            with_time(r, (x.key@, x.timestamp, match x.pattern {
                Some(p) => Some(p@),
                None => None,
            }))
        } else {
            r
        }
    }
}

/// No two entries of a list of keyed entries share a key.
pub open spec fn pair_keys_distinct<V>(t: Seq<(Seq<char>, V)>) -> bool {
    forall|a: int, b: int| 0 <= a < b < t.len() ==> (#[trigger] t[a]).0 != (#[trigger] t[b]).0
}

/// Setting a tag keeps the keys distinct.
pub proof fn lemma_with_tag_distinct(t: Seq<(Seq<char>, Seq<char>)>, key: Seq<char>, value: Seq<char>)
    requires
        pair_keys_distinct(t),
    ensures
        pair_keys_distinct(with_tag(t, key, value)),
{
    let r = with_tag(t, key, value);
    match tag_pos(t, key) {
        Some(j) => {
            assert forall|a: int, b: int| 0 <= a < b < r.len() implies (#[trigger] r[a]).0 != (#[trigger] r[b]).0 by {
                assert(r[a].0 == t[a].0 && r[b].0 == t[b].0);
            }
        },
        None => {
            assert forall|a: int, b: int| 0 <= a < b < r.len() implies (#[trigger] r[a]).0 != (#[trigger] r[b]).0 by {
                if b == t.len() {
                    assert(r[a] == t[a]);
                    assert(r[b].0 == key);
                } else {
                    assert(r[a] == t[a] && r[b] == t[b]);
                }
            }
        },
    }
}

/// Setting a time tag keeps the keys distinct.
pub proof fn lemma_with_time_distinct(t: Seq<(Seq<char>, i64, Option<Seq<char>>)>, e: (Seq<char>, i64, Option<Seq<char>>))
    requires
        forall|a: int, b: int| 0 <= a < b < t.len() ==> (#[trigger] t[a]).0 != (#[trigger] t[b]).0,
    ensures
        ({
            let r = with_time(t, e);
            forall|a: int, b: int| 0 <= a < b < r.len() ==> (#[trigger] r[a]).0 != (#[trigger] r[b]).0
        }),
{
    let r = with_time(t, e);
    match time_pos(t, e.0) {
        Some(j) => {
            assert forall|a: int, b: int| 0 <= a < b < r.len() implies (#[trigger] r[a]).0 != (#[trigger] r[b]).0 by {
                assert(r[a].0 == t[a].0 && r[b].0 == t[b].0);
            }
        },
        None => {
            assert forall|a: int, b: int| 0 <= a < b < r.len() implies (#[trigger] r[a]).0 != (#[trigger] r[b]).0 by {
                if b == t.len() {
                    assert(r[a] == t[a]);
                    assert(r[b].0 == e.0);
                } else {
                    assert(r[a] == t[a] && r[b] == t[b]);
                }
            }
        },
    }
}

proof fn lemma_tags_of_distinct(recs: Seq<NodeRecord>, ts: Seq<TagRecord>, i: usize, m: int)
    ensures
        pair_keys_distinct(tags_of(recs, ts, i, m)),
    decreases m,
{
    if m > 0 {
        lemma_tags_of_distinct(recs, ts, i, m - 1);
        if ref_pos(recs, Some(ts[m - 1].node_id)) == Some(i) {
            lemma_with_tag_distinct(tags_of(recs, ts, i, m - 1), ts[m - 1].key@, ts[m - 1].value@);
        }
    }
}

proof fn lemma_times_of_distinct(recs: Seq<NodeRecord>, ts: Seq<TimeRecord>, i: usize, m: int)
    ensures
        ({
            let r = times_of(recs, ts, i, m);
            forall|a: int, b: int| 0 <= a < b < r.len() ==> (#[trigger] r[a]).0 != (#[trigger] r[b]).0
        }),
    decreases m,
{
    if m > 0 {
        lemma_times_of_distinct(recs, ts, i, m - 1);
        let prev = times_of(recs, ts, i, m - 1);
        assert(forall|a: int, b: int| 0 <= a < b < prev.len() ==> (#[trigger] prev[a]).0 != (#[trigger] prev[b]).0);
        let x = ts[m - 1];
        let e = (x.key@, x.timestamp, match x.pattern {
            Some(p) => Some(p@),
            None => None,
        });
        if ref_pos(recs, Some(x.node_id)) == Some(i) {
            lemma_with_time_distinct(prev, e);
            assert(times_of(recs, ts, i, m) == with_time(prev, e));
        } else {
            assert(times_of(recs, ts, i, m) == times_of(recs, ts, i, m - 1));
        }
    }
}

/// A rebuilt node's tags and time tags have distinct keys.
pub proof fn lemma_loaded_keys_distinct(
    n: Node,
    recs: Seq<NodeRecord>,
    ls: Seq<(i64, i64)>,
    tags: Seq<TagRecord>,
    times: Seq<TimeRecord>,
    i: int,
)
    requires
        0 <= i < recs.len(),
        loaded_ok(n, recs, ls, tags, times, i),
    ensures
        crate::models::tag_keys_distinct(n.tags@),
        crate::managed::keys_distinct(n.times@),
{
    lemma_tags_of_distinct(recs, tags, i as usize, tags.len() as int);
    lemma_times_of_distinct(recs, times, i as usize, times.len() as int);
    let tv = tags_view(n.tags@);
    assert forall|a: int, b: int| 0 <= a < b < n.tags@.len() implies (#[trigger] n.tags@[a]).0@ != (#[trigger] n.tags@[b]).0@ by {
        assert(tv[a].0 != tv[b].0);
    }
    let mv = n.times@.map_values(|e: (String, TimeTag)| time_view(e));
    assert forall|a: int, b: int| 0 <= a < b < n.times@.len() implies (#[trigger] n.times@[a]).0@ != (#[trigger] n.times@[b]).0@ by {
        assert(mv[a].0 != mv[b].0);
    }
}

/// Every rebuilt node's tags and time tags have distinct keys.
proof fn lemma_all_loaded_distinct(
    nodes: Seq<Node>,
    recs: Seq<NodeRecord>,
    ls: Seq<(i64, i64)>,
    tags: Seq<TagRecord>,
    times: Seq<TimeRecord>,
)
    requires
        nodes.len() == recs.len(),
        forall|i: int| 0 <= i < recs.len() ==> #[trigger] loaded_ok(nodes[i], recs, ls, tags, times, i),
    ensures
        forall|i: int|
            #![trigger nodes[i]]
            0 <= i < recs.len() ==> crate::models::tag_keys_distinct(nodes[i].tags@) && crate::managed::keys_distinct(
                nodes[i].times@,
            ),
{
    assert forall|i: int|
        #![trigger nodes[i]]
        0 <= i < recs.len() implies crate::models::tag_keys_distinct(nodes[i].tags@) && crate::managed::keys_distinct(
            nodes[i].times@,
        ) by {
        assert(loaded_ok(nodes[i], recs, ls, tags, times, i));
        lemma_loaded_keys_distinct(nodes[i], recs, ls, tags, times, i);
    }
}

/// Node `i` rebuilt from what was read back.
pub open spec fn loaded_ok(n: Node, recs: Seq<NodeRecord>, ls: Seq<(i64, i64)>, tags: Seq<TagRecord>, times: Seq<TimeRecord>, i: int) -> bool {
    let r = recs[i];
    &&& n.label@ == r.label@
    &&& n.parent == ref_pos(recs, r.parent_id)
    &&& n.children@ == kids_of(recs, i as usize, recs.len() as int)
    &&& n.links@ == links_of(recs, ls, i as usize, ls.len() as int)
    &&& n.collapsed == r.collapsed
    &&& n.row == usize::MAX
    &&& n.world_x == r.world_x
    &&& n.world_y == r.world_y
    &&& n.world_x_end == 0
    &&& tags_view(n.tags@) == tags_of(recs, tags, i as usize, tags.len() as int)
    &&& n.times@.map_values(|e: (String, TimeTag)| time_view(e)) == times_of(recs, times, i as usize, times.len() as int)
    &&& n.is_managed_note == r.is_managed_note
    &&& n.managed is None
}

/// The node index of stored id `id`.
pub fn index_of_id(recs: &Vec<NodeRecord>, id: i64) -> (r: Option<usize>)
    ensures
        r == ref_pos(recs@, Some(id)),
        r matches Some(k) ==> (k as int) < recs@.len(),
{
    let mut k: usize = recs.len();
    proof {
        assert(recs@.take(k as int) =~= recs@);
    }
    while k > 0
        invariant
            k <= recs@.len(),
            id_pos(recs@, id) == id_pos(recs@.take(k as int), id),
        decreases k,
    {
        proof {
            assert(recs@.take(k as int).drop_last() =~= recs@.take(k as int - 1));
        }
        if recs[k - 1].id == id {
            return Some(k - 1);
        }
        k = k - 1;
    }
    None
}

/// Set tag `key` to `value` in a tag list.
fn set_tag(tags: &mut Vec<(String, String)>, key: &String, value: &String)
    ensures
        tags_view(final(tags)@) == with_tag(tags_view(old(tags)@), key@, value@),
{
    let ghost tv = tags_view(tags@);
    let mut j: usize = 0;
    while j < tags.len()
        invariant
            tags@ == old(tags)@,
            tv == tags_view(tags@),
            j <= tags@.len(),
            forall|i: int| 0 <= i < j ==> (#[trigger] tv[i]).0 != key@,
        decreases tags@.len() - j,
    {
        if tags[j].0 == *key {
            proof {
                assert(tv[j as int].0 == key@);
                let c = choose|c: int| 0 <= c < tv.len() && (#[trigger] tv[c]).0 == key@ && forall|i: int| 0 <= i < c ==> (#[trigger] tv[i]).0 != key@;
                if c < j {
                    assert(tv[c].0 != key@);
                } else if c > j {
                    assert(tv[j as int].0 != key@);
                }
            }
            let k = tags[j].0.clone();
            tags.set(j, (k, value.clone()));
            proof {
                assert(tags_view(tags@) =~= tv.update(j as int, (key@, value@)));
            }
            return;
        }
        j = j + 1;
    }
    tags.push((key.clone(), value.clone()));
    proof {
        assert(tags_view(tags@) =~= tv.push((key@, value@)));
    }
}

/// Set time tag `e` in a time-tag list.
fn set_time(times: &mut Vec<(String, TimeTag)>, key: &String, tag: TimeTag)
    ensures
        final(times)@.map_values(|e: (String, TimeTag)| time_view(e)) == with_time(
            old(times)@.map_values(|e: (String, TimeTag)| time_view(e)),
            time_view((*key, tag)),
        ),
{
    let ghost tv = times@.map_values(|e: (String, TimeTag)| time_view(e));
    let mut j: usize = 0;
    while j < times.len()
        invariant
            times@ == old(times)@,
            tv == times@.map_values(|e: (String, TimeTag)| time_view(e)),
            j <= times@.len(),
            forall|i: int| 0 <= i < j ==> (#[trigger] tv[i]).0 != key@,
        decreases times@.len() - j,
    {
        if times[j].0 == *key {
            proof {
                assert(tv[j as int].0 == key@);
                let c = choose|c: int| 0 <= c < tv.len() && (#[trigger] tv[c]).0 == key@ && forall|i: int| 0 <= i < c ==> (#[trigger] tv[i]).0 != key@;
                if c < j {
                    assert(tv[c].0 != key@);
                } else if c > j {
                    assert(tv[j as int].0 != key@);
                }
            }
            let k = times[j].0.clone();
            times.set(j, (k, tag));
            proof {
                assert(times@.map_values(|e: (String, TimeTag)| time_view(e)) =~= tv.update(j as int, time_view((*key, tag))));
            }
            return;
        }
        j = j + 1;
    }
    times.push((key.clone(), tag));
    proof {
        assert(times@.map_values(|e: (String, TimeTag)| time_view(e)) =~= tv.push(time_view((*key, tag))));
    }
}

/// Node `i` rebuilt as far as the first `a` records (for the children),
/// `b` links, `c` tags and `d` time tags go.
pub open spec fn loaded_upto(
    n: Node,
    recs: Seq<NodeRecord>,
    ls: Seq<(i64, i64)>,
    tags: Seq<TagRecord>,
    times: Seq<TimeRecord>,
    i: int,
    a: int,
    b: int,
    c: int,
    d: int,
) -> bool {
    let r = recs[i];
    &&& n.label@ == r.label@
    &&& n.parent == ref_pos(recs, r.parent_id)
    &&& n.children@ == kids_of(recs, i as usize, a)
    &&& n.links@ == links_of(recs, ls, i as usize, b)
    &&& n.collapsed == r.collapsed
    &&& n.row == usize::MAX
    &&& n.world_x == r.world_x
    &&& n.world_y == r.world_y
    &&& n.world_x_end == 0
    &&& tags_view(n.tags@) == tags_of(recs, tags, i as usize, c)
    &&& n.times@.map_values(|e: (String, TimeTag)| time_view(e)) == times_of(recs, times, i as usize, d)
    &&& n.is_managed_note == r.is_managed_note
    &&& n.managed is None
}

/// The node list a load rebuilds from the stored records, links, tags and
/// time tags (see `loaded_ok`).
#[verifier::rlimit(40)]
pub fn rebuild_nodes(recs: &Vec<NodeRecord>, links: &Vec<(i64, i64)>, tags: &Vec<TagRecord>, times: &Vec<TimeRecord>) -> (nodes: Vec<Node>)
    ensures
        nodes@.len() == recs@.len(),
        forall|i: int| 0 <= i < recs@.len() ==> #[trigger] loaded_ok(nodes@[i], recs@, links@, tags@, times@, i),
        forall|i: int|
            #![trigger nodes@[i]]
            0 <= i < recs@.len() ==> crate::models::tag_keys_distinct(nodes@[i].tags@) && crate::managed::keys_distinct(
                nodes@[i].times@,
            ),
{
    let n = recs.len();
    let ghost (rv, lv, tv, mv) = (recs@, links@, tags@, times@);
    let mut nodes: Vec<Node> = Vec::new();
    let mut i: usize = 0;
    while i < n
        invariant
            n == rv.len(),
            rv == recs@,
            i <= n,
            nodes@.len() == i,
            forall|k: int| 0 <= k < i ==> #[trigger] loaded_upto(nodes@[k], rv, lv, tv, mv, k, 0, 0, 0, 0),
        decreases n - i,
    {
        let r = &recs[i];
        let parent = match r.parent_id {
            Some(pid) => index_of_id(recs, pid),
            None => None,
        };
        let node = Node {
            label: r.label.clone(),
            parent,
            children: Vec::new(),
            links: Vec::new(),
            collapsed: r.collapsed,
            row: usize::MAX,
            world_x: r.world_x,
            world_y: r.world_y,
            world_x_end: 0,
            tags: Vec::new(),
            times: Vec::new(),
            is_managed_note: r.is_managed_note,
            managed: None,
        };
        let ghost before = nodes@;
        nodes.push(node);
        proof {
            assert(node.tags@.map_values(|e: (String, String)| (e.0@, e.1@)) =~= Seq::<(Seq<char>, Seq<char>)>::empty());
            assert(node.times@.map_values(|e: (String, TimeTag)| time_view(e)) =~= Seq::<(Seq<char>, i64, Option<Seq<char>>)>::empty());
            assert forall|k: int| 0 <= k < i + 1 implies #[trigger] loaded_upto(nodes@[k], rv, lv, tv, mv, k, 0, 0, 0, 0) by {
                if k < i {
                    assert(nodes@[k] == before[k]);
                }
            }
        }
        i = i + 1;
    }
    // Children, in record order.
    let mut j: usize = 0;
    while j < n
        invariant
            n == rv.len(),
            rv == recs@,
            j <= n,
            nodes@.len() == n,
            forall|k: int| 0 <= k < n ==> #[trigger] loaded_upto(nodes@[k], rv, lv, tv, mv, k, j as int, 0, 0, 0),
        decreases n - j,
    {
        let p = match recs[j].parent_id {
            Some(pid) => index_of_id(recs, pid),
            None => None,
        };
        let ghost before = nodes@;
        match p {
            Some(pi) => {
                nodes[pi].children.push(j);
            },
            None => {},
        }
        proof {
            assert forall|k: int| 0 <= k < n implies #[trigger] loaded_upto(nodes@[k], rv, lv, tv, mv, k, j as int + 1, 0, 0, 0) by {
                assert(loaded_upto(before[k], rv, lv, tv, mv, k, j as int, 0, 0, 0));
            }
        }
        j = j + 1;
    }
    // Links, in stored order.
    let mut q: usize = 0;
    while q < links.len()
        invariant
            n == rv.len(),
            rv == recs@,
            lv == links@,
            q <= lv.len(),
            nodes@.len() == n,
            forall|k: int| 0 <= k < n ==> #[trigger] loaded_upto(nodes@[k], rv, lv, tv, mv, k, n as int, q as int, 0, 0),
        decreases lv.len() - q,
    {
        let (sid, tid) = links[q];
        let si = index_of_id(recs, sid);
        let ti = index_of_id(recs, tid);
        let ghost before = nodes@;
        match (si, ti) {
            (Some(a), Some(b)) => {
                nodes[a].links.push(b);
            },
            _ => {},
        }
        proof {
            assert forall|k: int| 0 <= k < n implies #[trigger] loaded_upto(nodes@[k], rv, lv, tv, mv, k, n as int, q as int + 1, 0, 0) by {
                assert(loaded_upto(before[k], rv, lv, tv, mv, k, n as int, q as int, 0, 0));
            }
        }
        q = q + 1;
    }
    // Tags, each setting its key.
    let mut c: usize = 0;
    while c < tags.len()
        invariant
            n == rv.len(),
            rv == recs@,
            lv == links@,
            tv == tags@,
            c <= tv.len(),
            nodes@.len() == n,
            forall|k: int| 0 <= k < n ==> #[trigger] loaded_upto(nodes@[k], rv, lv, tv, mv, k, n as int, lv.len() as int, c as int, 0),
        decreases tv.len() - c,
    {
        let ni = index_of_id(recs, tags[c].node_id);
        let ghost before = nodes@;
        match ni {
            Some(a) => {
                let mut ts = crate::models::clone_tags(&nodes[a].tags);
                set_tag(&mut ts, &tags[c].key, &tags[c].value);
                nodes[a].tags = ts;
            },
            None => {},
        }
        proof {
            assert forall|k: int| 0 <= k < n implies #[trigger] loaded_upto(nodes@[k], rv, lv, tv, mv, k, n as int, lv.len() as int, c as int + 1, 0) by {
                assert(loaded_upto(before[k], rv, lv, tv, mv, k, n as int, lv.len() as int, c as int, 0));
            }
        }
        c = c + 1;
    }
    // Time tags, each setting its key.
    let mut d: usize = 0;
    while d < times.len()
        invariant
            n == rv.len(),
            rv == recs@,
            lv == links@,
            tv == tags@,
            mv == times@,
            d <= mv.len(),
            nodes@.len() == n,
            forall|k: int| 0 <= k < n ==> #[trigger] loaded_upto(nodes@[k], rv, lv, tv, mv, k, n as int, lv.len() as int, tv.len() as int, d as int),
        decreases mv.len() - d,
    {
        let ni = index_of_id(recs, times[d].node_id);
        let ghost before = nodes@;
        match ni {
            Some(a) => {
                let mut ts = crate::models::clone_times(&nodes[a].times);
                let tag = TimeTag { timestamp: times[d].timestamp, pattern: crate::models::clone_opt_string(&times[d].pattern) };
                set_time(&mut ts, &times[d].key, tag);
                nodes[a].times = ts;
            },
            None => {},
        }
        proof {
            assert forall|k: int| 0 <= k < n implies #[trigger] loaded_upto(nodes@[k], rv, lv, tv, mv, k, n as int, lv.len() as int, tv.len() as int, d as int + 1) by {
                assert(loaded_upto(before[k], rv, lv, tv, mv, k, n as int, lv.len() as int, tv.len() as int, d as int));
            }
        }
        d = d + 1;
    }
    proof {
        assert forall|k: int| 0 <= k < n implies #[trigger] loaded_ok(nodes@[k], rv, lv, tv, mv, k) by {
            assert(loaded_upto(nodes@[k], rv, lv, tv, mv, k, n as int, lv.len() as int, tv.len() as int, mv.len() as int));
        }
        lemma_all_loaded_distinct(nodes@, rv, lv, tv, mv);
    }
    nodes
}

/// The records a store keeps for the rows of a save when it numbers them
/// 1, 2, ... in order.
pub open spec fn stored_records(nodes: Seq<Node>, rows: Seq<SaveRow>) -> Seq<NodeRecord> {
    Seq::new(
        rows.len(),
        |k: int|
            {
                let n = nodes[rows[k].node as int];
                NodeRecord {
                    id: (k + 1) as i64,
                    label: n.label,
                    parent_id: match rows[k].parent_row {
                        Some(p) => Some((p + 1) as i64),
                        None => None,
                    },
                    collapsed: n.collapsed,
                    world_x: n.world_x,
                    world_y: n.world_y,
                    is_managed_note: n.is_managed_note,
                }
            },
    )
}

/// The rows among the first `m` whose parent row is `k`, in order.
pub open spec fn child_rows(rows: Seq<SaveRow>, k: usize, m: int) -> Seq<usize>
    decreases m,
{
    if m <= 0 {
        Seq::empty()
    } else if rows[m - 1].parent_row == Some(k) {
        child_rows(rows, k, m - 1).push((m - 1) as usize)
    } else {
        child_rows(rows, k, m - 1)
    }
}

/// Records numbered 1, 2, ... map each number back to its position.
proof fn lemma_numbered_ids(recs: Seq<NodeRecord>, j: int)
    requires
        forall|k: int| 0 <= k < recs.len() ==> (#[trigger] recs[k]).id == k + 1,
        0 <= j < recs.len(),
    ensures
        id_pos(recs, (j + 1) as i64) == Some(j),
    decreases recs.len(),
{
    if j < recs.len() - 1 {
        let r = recs.drop_last();
        assert forall|k: int| 0 <= k < r.len() implies (#[trigger] r[k]).id == k + 1 by {
            assert(r[k] == recs[k]);
        }
        lemma_numbered_ids(r, j);
    }
}

/// A position found by `last_before` lies before the bound.
proof fn lemma_last_before_bound(order: Seq<usize>, x: usize, k: int)
    ensures
        last_before(order, x, k) matches Some(j) ==> 0 <= j < k && order[j] == x,
    decreases k,
{
    if k > 0 && order[k - 1] != x {
        lemma_last_before_bound(order, x, k - 1);
    }
}

/// Reading back the rows of a save, numbered in order, gives every row the
/// node that was stored in it: the same label, fold state, position and
/// note flag, the row of its parent (when the parent was stored before it)
/// as parent, and as children the rows stored under it, in order.
pub proof fn lemma_round_trip(
    nodes: Seq<Node>,
    plan: SavePlan,
    loaded: Seq<Node>,
    ls: Seq<(i64, i64)>,
    tags: Seq<TagRecord>,
    times: Seq<TimeRecord>,
)
    requires
        plan_ok(nodes, plan),
        plan.rows@.len() < i64::MAX,
        loaded.len() == plan.rows@.len(),
        forall|i: int| 0 <= i < loaded.len() ==> #[trigger] loaded_ok(loaded[i], stored_records(nodes, plan.rows@), ls, tags, times, i),
    ensures
        forall|k: int|
            #![trigger loaded[k]]
            0 <= k < loaded.len() ==> {
                let n = nodes[save_order(nodes)[k] as int];
                &&& loaded[k].label@ == n.label@
                &&& loaded[k].collapsed == n.collapsed
                &&& loaded[k].world_x == n.world_x
                &&& loaded[k].world_y == n.world_y
                &&& loaded[k].is_managed_note == n.is_managed_note
                &&& loaded[k].parent == match n.parent {
                    Some(p) => match last_before(save_order(nodes), p, k) {
                        Some(j) => Some(j as usize),
                        None => None,
                    },
                    None => None,
                }
                &&& loaded[k].children@ == child_rows(plan.rows@, k as usize, plan.rows@.len() as int)
            },
{
    let rows = plan.rows@;
    let order = save_order(nodes);
    let recs = stored_records(nodes, rows);
    assert forall|k: int| 0 <= k < recs.len() implies (#[trigger] recs[k]).id == k + 1 by {}
    // Every stored parent reference points back at its row.
    assert forall|k: int| 0 <= k < rows.len() implies #[trigger] ref_pos(recs, recs[k].parent_id) == rows[k].parent_row by {
        assert(row_ok(nodes, order, k, rows[k]));
        let i = order[k];
        match nodes[i as int].parent {
            Some(p) => {
                lemma_last_before_bound(order, p, k);
                match rows[k].parent_row {
                    Some(j) => {
                        lemma_numbered_ids(recs, j as int);
                    },
                    None => {},
                }
            },
            None => {},
        }
    }
    assert forall|k: int|
        #![trigger loaded[k]]
        0 <= k < loaded.len() implies {
            let n = nodes[order[k] as int];
            &&& loaded[k].label@ == n.label@
            &&& loaded[k].collapsed == n.collapsed
            &&& loaded[k].world_x == n.world_x
            &&& loaded[k].world_y == n.world_y
            &&& loaded[k].is_managed_note == n.is_managed_note
            &&& loaded[k].parent == match n.parent {
                Some(p) => match last_before(order, p, k) {
                    Some(j) => Some(j as usize),
                    None => None,
                },
                None => None,
            }
            &&& loaded[k].children@ == child_rows(rows, k as usize, rows.len() as int)
        } by {
        assert(loaded_ok(loaded[k], recs, ls, tags, times, k));
        assert(row_ok(nodes, order, k, rows[k]));
        assert(ref_pos(recs, recs[k].parent_id) == rows[k].parent_row);
        lemma_kids_rows(recs, rows, k as usize, rows.len() as int);
        assert(loaded[k].label@ == recs[k].label@);
    }
}

/// The children read back are the rows whose parent row is the node's.
proof fn lemma_kids_rows(recs: Seq<NodeRecord>, rows: Seq<SaveRow>, k: usize, m: int)
    requires
        recs.len() == rows.len(),
        0 <= m <= rows.len(),
        forall|j: int| 0 <= j < rows.len() ==> #[trigger] ref_pos(recs, recs[j].parent_id) == rows[j].parent_row,
    ensures
        kids_of(recs, k, m) == child_rows(rows, k, m),
    decreases m,
{
    if m > 0 {
        lemma_kids_rows(recs, rows, k, m - 1);
        assert(ref_pos(recs, recs[m - 1].parent_id) == rows[m - 1].parent_row);
    }
}

} // verus!
