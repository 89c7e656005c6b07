//! The box-drawing prefixes that show the tree structure in front of labels.

use vstd::prelude::*;
use crate::forest::{ancestor, forest, lemma_distinct_bounded, ranked};
use crate::models::Node;

verus! {

/// The prefix drawn for a trail of "is last child" flags, one per level:
/// "  " or "│ " for each ancestor level, "╰─" or "├─" for the node itself.
pub open spec fn box_prefix_text(trail: Seq<bool>) -> Seq<char>
    decreases trail.len(),
{
    if trail.len() == 0 {
        Seq::empty()
    } else {
        inner_prefix(trail.drop_last()) + if trail.last() {
            "╰─"@
        } else {
            "├─"@
        }
    }
}

/// The ancestor columns of a prefix.
pub open spec fn inner_prefix(trail: Seq<bool>) -> Seq<char>
    decreases trail.len(),
{
    if trail.len() == 0 {
        Seq::empty()
    } else {
        inner_prefix(trail.drop_last()) + if trail.last() {
            "  "@
        } else {
            "│ "@
        }
    }
}

/// The box-drawing prefix for `trail`.
pub fn box_prefix(trail: &[bool]) -> (r: String)
    ensures
        r@ == box_prefix_text(trail@),
{
    let n = trail.len();
    if n == 0 {
        return String::new();
    }
    let mut s = String::new();
    let mut k: usize = 0;
    while k < n - 1
        invariant
            n == trail@.len(),
            n > 0,
            k <= n - 1,
            s@ == inner_prefix(trail@.take(k as int)),
        decreases n - 1 - k,
    {
        proof {
            assert(trail@.take(k as int + 1).drop_last() =~= trail@.take(k as int));
        }
        if trail[k] {
            s.append("  ");
        } else {
            s.append("│ ");
        }
        k = k + 1;
    }
    proof {
        assert(trail@.take(n - 1) =~= trail@.drop_last());
    }
    if trail[n - 1] {
        s.append("╰─");
    } else {
        s.append("├─");
    }
    s
}

/// `c` is the last child of `p`.
pub open spec fn last_child_of(nodes: Seq<Node>, p: usize, c: usize) -> bool {
    nodes[p as int].children@.len() > 0 && nodes[p as int].children@.last() == c
}

/// The number of parent steps from `x` up to its root.
pub open spec fn depth_of(nodes: Seq<Node>, x: usize) -> nat {
    choose|d: nat| #[trigger] ancestor(nodes, x, d) matches Some(a) && (a as int) < nodes.len() && nodes[a as int].parent is None
}

/// The trail of a child about to be inserted under `parent`: for each level
/// from the root down, whether that ancestor is its parent's last child,
/// ending with `true` for the new child itself.
pub open spec fn insert_trail(nodes: Seq<Node>, parent: usize) -> Seq<bool> {
    let d = depth_of(nodes, parent);
    Seq::new(
        d,
        |i: int| last_child_of(nodes, ancestor(nodes, parent, (d - i) as nat)->0, ancestor(nodes, parent, (d - i - 1) as nat)->0),
    ).push(true)
}

/// The trail for a child about to be inserted under `parent`.
pub fn compute_insert_trail(nodes: &[Node], parent: usize) -> (r: Vec<bool>)
    requires
        forest(nodes@),
        (parent as int) < nodes@.len(),
    ensures
        r@ == insert_trail(nodes@, parent),
{
    let ghost ns = nodes@;
    let ghost rank = choose|rank: Seq<nat>| ranked(ns, rank);
    let mut path: Vec<bool> = Vec::new();
    let mut cur = parent;
    let ghost mut k: nat = 0;
    proof {
        assert(ancestor(ns, parent, 0) == Some(parent));
    }
    while nodes[cur].parent.is_some()
        invariant
            forest(ns),
            ns == nodes@,
            ranked(ns, rank),
            (cur as int) < ns.len(),
            ancestor(ns, parent, k) == Some(cur),
            path@.len() == k,
            forall|i: int| 0 <= i < k ==> #[trigger] path@[i] == last_child_of(
                ns,
                ancestor(ns, parent, (i + 1) as nat)->0,
                ancestor(ns, parent, i as nat)->0,
            ),
        decreases rank[cur as int],
    {
        let p = match nodes[cur].parent {
            Some(p) => p,
            None => cur,
        };
        let n = nodes[p].children.len();
        let is_last = n > 0 && nodes[p].children[n - 1] == cur;
        proof {
            assert(ancestor(ns, parent, k + 1) == Some(p));
            if n > 0 {
                assert(nodes@[p as int].children@.last() == nodes@[p as int].children@[n - 1]);
            }
        }
        path.push(is_last);
        cur = p;
        proof {
            k = k + 1;
        }
    }
    let ghost d = depth_of(ns, parent);
    proof {
        assert(ancestor(ns, parent, k) matches Some(a) && (a as int) < ns.len() && ns[a as int].parent is None);
        lemma_depth_unique(ns, parent, k);
        assert(d == k);
    }
    let mut r: Vec<bool> = Vec::new();
    let mut i: usize = path.len();
    while i > 0
        invariant
            i <= path@.len(),
            path@.len() == d,
            r@.len() == d - i,
            forall|j: int| 0 <= j < r@.len() ==> #[trigger] r@[j] == path@[d - 1 - j],
        decreases i,
    {
        i = i - 1;
        r.push(path[i]);
    }
    r.push(true);
    proof {
        assert(r@ =~= insert_trail(ns, parent)) by {
            assert forall|j: int| 0 <= j < d implies #[trigger] r@[j] == last_child_of(
                ns,
                ancestor(ns, parent, (d - j) as nat)->0,
                ancestor(ns, parent, (d - j - 1) as nat)->0,
            ) by {
                assert(r@[j] == path@[d - 1 - j]);
            }
        }
    }
    r
}

/// The number of parent steps from `x` up to its root, and that root.
pub fn node_depth(nodes: &[Node], x: usize) -> (r: (usize, usize))
    requires
        forest(nodes@),
        (x as int) < nodes@.len(),
    ensures
        r.0 == depth_of(nodes@, x),
        (r.0 as int) < nodes@.len(),
        ancestor(nodes@, x, r.0 as nat) == Some(r.1),
        (r.1 as int) < nodes@.len(),
        nodes@[r.1 as int].parent is None,
{
    let ghost ns = nodes@;
    let ghost rank = choose|rank: Seq<nat>| ranked(ns, rank);
    let mut cur = x;
    let mut k: usize = 0;
    let ghost mut path: Seq<usize> = seq![x];
    proof {
        assert(ancestor(ns, x, 0) == Some(x));
    }
    while nodes[cur].parent.is_some()
        invariant
            forest(ns),
            ns == nodes@,
            ranked(ns, rank),
            (cur as int) < ns.len(),
            ancestor(ns, x, k as nat) == Some(cur),
            path.len() == k + 1,
            path.last() == cur,
            path.no_duplicates(),
            forall|j: int| 0 <= j < path.len() ==> (#[trigger] path[j] as int) < ns.len(),
            forall|j: int| 0 <= j < path.len() - 1 ==> rank[#[trigger] path[j] as int] > rank[cur as int],
        decreases rank[cur as int],
    {
        let p = match nodes[cur].parent {
            Some(p) => p,
            None => cur,
        };
        let ghost path2 = path.push(p);
        proof {
            assert(ancestor(ns, x, (k + 1) as nat) == Some(p));
            assert(rank[p as int] < rank[cur as int]);
            assert forall|a: int, b: int| 0 <= a < path2.len() && 0 <= b < path2.len() && a != b implies path2[a] != path2[b] by {
                if a < path.len() && b < path.len() {
                } else if a < path.len() {
                    if a < path.len() - 1 {
                        assert(rank[path[a] as int] > rank[cur as int]);
                    }
                } else {
                    if b < path.len() - 1 {
                        assert(rank[path[b] as int] > rank[cur as int]);
                    }
                }
            }
            assert forall|j: int| 0 <= j < path2.len() - 1 implies rank[#[trigger] path2[j] as int] > rank[p as int] by {
                assert(path2[j] == path[j]);
                if j < path.len() - 1 {
                    assert(rank[path[j] as int] > rank[cur as int]);
                }
            }
            assert forall|j: int| 0 <= j < path2.len() implies (#[trigger] path2[j] as int) < ns.len() by {
                if j < path.len() {
                    assert(path2[j] == path[j]);
                }
            }
            lemma_distinct_bounded(path2, ns.len());
        }
        k = k + 1;
        cur = p;
        proof {
            path = path2;
        }
    }
    proof {
        lemma_depth_unique(ns, x, k as nat);
        lemma_distinct_bounded(path, ns.len());
    }
    (k, cur)
}

/// The chain of parents from `x` ends at exactly one step count.
proof fn lemma_depth_unique(nodes: Seq<Node>, x: usize, k: nat)
    requires
        ancestor(nodes, x, k) matches Some(a) && (a as int) < nodes.len() && nodes[a as int].parent is None,
    ensures
        depth_of(nodes, x) == k,
{
    let d = depth_of(nodes, x);
    assert(ancestor(nodes, x, d) matches Some(a) && (a as int) < nodes.len() && nodes[a as int].parent is None);
    if d < k {
        crate::forest::lemma_ancestor_none(nodes, x, d + 1, k);
        assert(ancestor(nodes, x, (d + 1) as nat) is None);
    } else if k < d {
        crate::forest::lemma_ancestor_none(nodes, x, k + 1, d);
        assert(ancestor(nodes, x, (k + 1) as nat) is None);
    }
}

/// Whether entry `i` of a visible `(node, depth)` order is the last among
/// its siblings: a root always is; otherwise it is unless the next entry at
/// its depth or shallower is at its very depth.
pub open spec fn is_last_at(order: Seq<(usize, usize)>, i: int) -> bool {
    let d = order[i].1;
    if d == 0 {
        true
    } else if exists|j: int| i < j < order.len() && (#[trigger] order[j]).1 <= d {
        let j = choose|j: int|
            i < j < order.len() && (#[trigger] order[j]).1 <= d && forall|q: int| i < q < j ==> (#[trigger] order[q]).1 > d;
        order[j].1 < d
    } else {
        true
    }
}

/// For each entry of a visible order, whether it is the last of its
/// siblings.
pub fn compute_is_last(order: &[(usize, usize)]) -> (r: Vec<bool>)
    ensures
        r@.len() == order@.len(),
        forall|i: int| 0 <= i < order@.len() ==> #[trigger] r@[i] == is_last_at(order@, i),
{
    let n = order.len();
    let mut r: Vec<bool> = Vec::new();
    let mut i: usize = 0;
    while i < n
        invariant
            n == order@.len(),
            i <= n,
            r@.len() == i,
            forall|q: int| 0 <= q < i ==> #[trigger] r@[q] == is_last_at(order@, q),
        decreases n - i,
    {
        let d = order[i].1;
        if d == 0 {
            r.push(true);
        } else {
            let mut j: usize = i + 1;
            let mut found: Option<usize> = None;
            while j < n && found.is_none()
                invariant
                    n == order@.len(),
                    i < n,
                    d == order@[i as int].1,
                    i + 1 <= j <= n,
                    found is None ==> forall|q: int| i < q < j ==> (#[trigger] order@[q]).1 > d,
                    found matches Some(jj) ==> i < jj < n && order@[jj as int].1 <= d && forall|q: int| i < q < jj ==> (#[trigger] order@[q]).1 > d,
                decreases n - j,
            {
                if order[j].1 <= d {
                    found = Some(j);
                }
                j = j + 1;
            }
            let v = match found {
                None => true,
                Some(jj) => order[jj].1 < d,
            };
            proof {
                match found {
                    None => {
                        assert(!exists|q: int| i < q < order@.len() && (#[trigger] order@[q]).1 <= d);
                    },
                    Some(jj) => {
                        let c = choose|q: int|
                            i < q < order@.len() && (#[trigger] order@[q]).1 <= d && forall|p: int| i < p < q ==> (#[trigger] order@[p]).1 > d;
                        assert(order@[jj as int].1 <= d);
                        if c < jj {
                            assert(order@[c].1 > d);
                        } else if c > jj {
                            assert(order@[jj as int].1 > d);
                        }
                    },
                }
            }
            r.push(v);
        }
        i = i + 1;
    }
    r
}

/// The trail for entry `idx` at depth `depth` of a visible order: for each
/// level above it, the "is last" flag of the closest preceding entry one
/// level up (`true` when there is none), the node's own flag last.
pub open spec fn trail_for(order: Seq<(usize, usize)>, is_last: Seq<bool>, idx: int, depth: int) -> Seq<bool> {
    let t = Seq::new(
        depth as nat,
        |k: int|
            if exists|a: int| 0 <= a < idx && (#[trigger] order[a]).1 == k {
                is_last[choose|a: int|
                    0 <= a < idx && (#[trigger] order[a]).1 == k && forall|b: int| a < b < idx ==> (#[trigger] order[b]).1 != k]
            } else {
                true
            },
    );
    if depth == 0 {
        t
    } else {
        t.update(depth - 1, is_last[idx])
    }
}

/// The trail of entry `idx` (at depth `depth`) of a visible order.
pub fn build_trail_for(order: &[(usize, usize)], is_last: &[bool], idx: usize, depth: usize) -> (r: Vec<bool>)
    requires
        idx < order@.len(),
        is_last@.len() == order@.len(),
    ensures
        r@ == trail_for(order@, is_last@, idx as int, depth as int),
{
    let mut trail: Vec<bool> = Vec::new();
    if depth == 0 {
        proof {
            assert(trail@ =~= trail_for(order@, is_last@, idx as int, depth as int));
        }
        return trail;
    }
    let mut k: usize = 0;
    while k < depth
        invariant
            idx < order@.len(),
            is_last@.len() == order@.len(),
            k <= depth,
            trail@.len() == k,
            forall|q: int| 0 <= q < k ==> #[trigger] trail@[q] == Seq::new(
                depth as nat,
                |kk: int|
                    if exists|a: int| 0 <= a < idx && (#[trigger] order@[a]).1 == kk {
                        is_last@[choose|a: int|
                            0 <= a < idx && (#[trigger] order@[a]).1 == kk && forall|b: int| a < b < idx ==> (#[trigger] order@[b]).1 != kk]
                    } else {
                        true
                    },
            )[q],
        decreases depth - k,
    {
        let mut a: usize = idx;
        let mut found: Option<usize> = None;
        while a > 0 && found.is_none()
            invariant
                a <= idx,
                idx < order@.len(),
                found is None ==> forall|b: int| a <= b < idx ==> (#[trigger] order@[b]).1 != k,
                found matches Some(ai) ==> ai < idx && order@[ai as int].1 == k && forall|b: int| ai < b < idx ==> (#[trigger] order@[b]).1 != k,
            decreases a,
        {
            a = a - 1;
            if order[a].1 == k {
                found = Some(a);
            }
        }
        let v = match found {
            Some(ai) => is_last[ai],
            None => true,
        };
        proof {
            match found {
                None => {
                    assert(!exists|q: int| 0 <= q < idx && (#[trigger] order@[q]).1 == k);
                },
                Some(ai) => {
                    let c = choose|q: int|
                        0 <= q < idx && (#[trigger] order@[q]).1 == k && forall|b: int| q < b < idx ==> (#[trigger] order@[b]).1 != k;
                    assert(order@[ai as int].1 == k);
                    if c < ai {
                        assert(order@[ai as int].1 != k);
                    } else if c > ai {
                        assert(order@[c].1 != k);
                    }
                },
            }
        }
        trail.push(v);
        k = k + 1;
    }
    trail.set(depth - 1, is_last[idx]);
    proof {
        assert(trail@ =~= trail_for(order@, is_last@, idx as int, depth as int));
    }
    trail
}

} // verus!

verus! {

/// The trail after drawing an entry at `depth` that is (or is not) the last
/// of its siblings: cut back to `depth` levels, then the deepest level set
/// to `last` (added if the trail was shorter).
pub open spec fn trail_step(t: Seq<bool>, depth: int, last: bool) -> Seq<bool> {
    let u = if t.len() > depth { t.take(depth) } else { t };
    if depth > 0 {
        if u.len() < depth {
            u.push(last)
        } else {
            u.update(u.len() - 1, last)
        }
    } else {
        u
    }
}

/// The trail drawn before entry `i` of a visible order: the steps of all
/// entries up to and including `i`, from an empty trail.
pub open spec fn running_trail(order: Seq<(usize, usize)>, is_last: Seq<bool>, i: int) -> Seq<bool>
    decreases i + 1,
{
    if i < 0 {
        Seq::empty()
    } else {
        trail_step(running_trail(order, is_last, i - 1), order[i].1 as int, is_last[i])
    }
}

/// The trail of every entry of a visible order, as the bullet lists draw
/// them one after another.
pub fn bullet_trails(order: &[(usize, usize)], is_last: &[bool]) -> (r: Vec<Vec<bool>>)
    requires
        is_last@.len() == order@.len(),
    ensures
        r@.len() == order@.len(),
        forall|i: int| 0 <= i < order@.len() ==> (#[trigger] r@[i])@ == running_trail(order@, is_last@, i),
{
    let mut trail: Vec<bool> = Vec::new();
    let mut r: Vec<Vec<bool>> = Vec::new();
    let mut i: usize = 0;
    while i < order.len()
        invariant
            i <= order@.len(),
            is_last@.len() == order@.len(),
            r@.len() == i,
            trail@ == running_trail(order@, is_last@, i - 1),
            forall|j: int| 0 <= j < i ==> (#[trigger] r@[j])@ == running_trail(order@, is_last@, j),
        decreases order@.len() - i,
    {
        let depth = order[i].1;
        let last = is_last[i];
        let ghost t0 = trail@;
        trail.truncate(depth);
        proof {
            if t0.len() > depth {
                assert(trail@ =~= t0.take(depth as int));
            } else {
                assert(trail@ =~= t0);
            }
        }
        if depth > 0 {
            if trail.len() < depth {
                trail.push(last);
            } else {
                let k = trail.len() - 1;
                trail.set(k, last);
            }
        }
        proof {
            assert(trail@ =~= trail_step(t0, depth as int, last));
        }
        let mut copy: Vec<bool> = Vec::new();
        let mut k: usize = 0;
        while k < trail.len()
            invariant
                k <= trail@.len(),
                copy@ == trail@.take(k as int),
            decreases trail@.len() - k,
        {
            copy.push(trail[k]);
            k = k + 1;
            proof {
                assert(copy@ =~= trail@.take(k as int));
            }
        }
        proof {
            assert(copy@ =~= trail@);
        }
        r.push(copy);
        i = i + 1;
    }
    r
}

} // verus!
