use vstd::prelude::*;
use crate::models::Node;

verus! {

/// `rank` strictly increases from every parent to each of its children,
/// which witnesses that following parent pointers always terminates.
pub open spec fn ranked(nodes: Seq<Node>, rank: Seq<nat>) -> bool {
    &&& rank.len() == nodes.len()
    &&& forall|c: int|
        #![trigger nodes[c].parent]
        0 <= c < nodes.len() && nodes[c].parent is Some ==> rank[nodes[c].parent->0 as int]
            < rank[c]
}

/// Every parent pointer is in range and is mirrored by the parent's children.
pub open spec fn parents_ok(nodes: Seq<Node>) -> bool {
    forall|c: int|
        #![trigger nodes[c].parent]
        0 <= c < nodes.len() && nodes[c].parent is Some ==> {
            &&& (nodes[c].parent->0 as int) < nodes.len()
            &&& nodes[nodes[c].parent->0 as int].children@.contains(c as usize)
        }
}

/// Every child index is in range, points back to its parent, and no list
/// holds a child twice.
pub open spec fn children_ok(nodes: Seq<Node>) -> bool {
    forall|p: int|
        #![trigger nodes[p].children]
        0 <= p < nodes.len() ==> {
            &&& nodes[p].children@.no_duplicates()
            &&& forall|j: int|
                #![trigger nodes[p].children@[j]]
                0 <= j < nodes[p].children@.len() ==> {
                    &&& (nodes[p].children@[j] as int) < nodes.len()
                    &&& nodes[nodes[p].children@[j] as int].parent == Some(p as usize)
                }
        }
}

/// Every link target is in range.
pub open spec fn links_ok(nodes: Seq<Node>) -> bool {
    forall|i: int, k: int|
        #![trigger nodes[i].links@[k]]
        0 <= i < nodes.len() && 0 <= k < nodes[i].links@.len() ==> (nodes[i].links@[k] as int)
            < nodes.len()
}

/// The node list is a well-formed forest: consistent, in-range parent and
/// child indices, in-range links, and no cycle through parent pointers.
pub open spec fn forest(nodes: Seq<Node>) -> bool {
    &&& parents_ok(nodes)
    &&& children_ok(nodes)
    &&& links_ok(nodes)
    &&& exists|rank: Seq<nat>| ranked(nodes, rank)
}

/// The concatenation of the child lists of the nodes in `s`, in order.
pub open spec fn expand(nodes: Seq<Node>, s: Seq<usize>) -> Seq<usize>
    decreases s.len(),
{
    if s.len() == 0 {
        Seq::empty()
    } else {
        expand(nodes, s.drop_last()) + nodes[s.last() as int].children@
    }
}

/// `r` is the breadth-first listing of the subtree rooted at `root`: the root
/// followed by the children of each listed node, in listing order.
pub open spec fn is_subtree_listing(nodes: Seq<Node>, root: usize, r: Seq<usize>) -> bool {
    &&& r.len() >= 1
    &&& r == seq![root] + expand(nodes, r)
    &&& r.no_duplicates()
    &&& forall|k: int| 0 <= k < r.len() ==> (#[trigger] r[k] as int) < nodes.len()
}

/// A sequence of distinct indices below `n` has at most `n` elements.
pub proof fn lemma_distinct_bounded(s: Seq<usize>, n: nat)
    requires
        s.no_duplicates(),
        forall|k: int| 0 <= k < s.len() ==> (#[trigger] s[k] as int) < n,
    ensures
        s.len() <= n,
    decreases n,
{
    if n == 0 {
        if s.len() > 0 {
            assert(s[0] < 0);
        }
    } else {
        let top = (n - 1) as usize;
        if s.contains(top) {
            let m = choose|m: int| 0 <= m < s.len() && s[m] == top;
            let t = s.remove(m);
            assert forall|k: int| 0 <= k < t.len() implies (#[trigger] t[k] as int) < n - 1 by {
                if k < m {
                    assert(t[k] == s[k]);
                } else {
                    assert(t[k] == s[k + 1]);
                }
            }
            assert forall|a: int, b: int| 0 <= a < t.len() && 0 <= b < t.len() && a != b implies t[a]
                != t[b] by {
                let ia = if a < m { a } else { a + 1 };
                let ib = if b < m { b } else { b + 1 };
                assert(t[a] == s[ia]);
                assert(t[b] == s[ib]);
            }
            lemma_distinct_bounded(t, (n - 1) as nat);
        } else {
            assert forall|k: int| 0 <= k < s.len() implies (#[trigger] s[k] as int) < n - 1 by {
                assert(s.contains(s[k]));
            }
            lemma_distinct_bounded(s, (n - 1) as nat);
        }
    }
}

/// Every element of `expand(nodes, s)` is a child of some element of `s`.
pub proof fn lemma_expand_member(nodes: Seq<Node>, s: Seq<usize>, x: int)
    requires
        0 <= x < expand(nodes, s).len(),
    ensures
        exists|m: int|
            0 <= m < s.len() && #[trigger] nodes[s[m] as int].children@.contains(expand(nodes, s)[x]),
    decreases s.len(),
{
    let prev = expand(nodes, s.drop_last());
    if x < prev.len() {
        lemma_expand_member(nodes, s.drop_last(), x);
        let m = choose|m: int|
            0 <= m < s.drop_last().len() && #[trigger] nodes[s.drop_last()[m] as int].children@.contains(
                prev[x],
            );
        assert(s[m] == s.drop_last()[m]);
        assert(nodes[s[m] as int].children@.contains(expand(nodes, s)[x]));
    } else {
        let ch = nodes[s.last() as int].children@;
        assert(expand(nodes, s)[x] == ch[x - prev.len()]);
        assert(ch.contains(ch[x - prev.len()]));
        assert(nodes[s[s.len() - 1] as int].children@.contains(expand(nodes, s)[x]));
    }
}

/// Expanding a longer prefix extends the expansion of the shorter one.
pub proof fn lemma_expand_push(nodes: Seq<Node>, s: Seq<usize>, v: usize)
    ensures
        expand(nodes, s.push(v)) == expand(nodes, s) + nodes[v as int].children@,
{
    assert(s.push(v).drop_last() =~= s);
}

/// The nodes of the subtree rooted at `root`, breadth first, starting with
/// `root` itself.
pub fn collect_subtree(nodes: &Vec<Node>, root: usize) -> (r: Vec<usize>)
    requires
        forest(nodes@),
        root < nodes@.len(),
    ensures
        is_subtree_listing(nodes@, root, r@),
{
    let ghost ns = nodes@;
    let ghost rank = choose|rank: Seq<nat>| ranked(ns, rank);
    let mut result: Vec<usize> = Vec::new();
    result.push(root);
    assert(result@.take(0) =~= Seq::<usize>::empty());
    assert(result@ =~= seq![root] + expand(ns, result@.take(0)));
    let mut i: usize = 0;
    while i < result.len()
        invariant
            forest(ns),
            ranked(ns, rank),
            nodes@ == ns,
            root < ns.len(),
            i <= result@.len(),
            result@ == seq![root] + expand(ns, result@.take(i as int)),
            result@.no_duplicates(),
            forall|k: int| 0 <= k < result@.len() ==> (#[trigger] result@[k] as int) < ns.len(),
            forall|k: int| 0 <= k < result@.len() ==> rank[#[trigger] result@[k] as int] >= rank[root as int],
        decreases ns.len() - i,
    {
        proof {
            lemma_distinct_bounded(result@, ns.len());
        }
        let node = result[i];
        let ghost before = result@;
        let ghost ch = ns[node as int].children@;
        let mut j: usize = 0;
        assert(ns[node as int].children == nodes[node as int].children);
        while j < nodes[node].children.len()
            invariant
                forest(ns),
                ranked(ns, rank),
                nodes@ == ns,
                root < ns.len(),
                i < before.len(),
                node == before[i as int],
                ch == ns[node as int].children@,
                before == seq![root] + expand(ns, before.take(i as int)),
                before.no_duplicates(),
                forall|k: int| 0 <= k < before.len() ==> (#[trigger] before[k] as int) < ns.len(),
                forall|k: int| 0 <= k < before.len() ==> rank[#[trigger] before[k] as int] >= rank[root as int],
                j <= ch.len(),
                result@ == before + ch.take(j as int),
                result@.no_duplicates(),
                forall|k: int| 0 <= k < result@.len() ==> (#[trigger] result@[k] as int) < ns.len(),
                forall|k: int| 0 <= k < result@.len() ==> rank[#[trigger] result@[k] as int] >= rank[root as int],
            decreases ch.len() - j,
        {
            let c = nodes[node].children[j];
            proof {
                assert(ns[node as int].children@[j as int] == c);
                assert(ns[c as int].parent == Some(node));
                assert(rank[node as int] < rank[c as int]);
                assert forall|k: int| 0 <= k < result@.len() implies result@[k] != c by {
                    if k == 0 {
                        assert(result@[0] == root);
                    } else if k < before.len() {
                        let x = k - 1;
                        let e = expand(ns, before.take(i as int));
                        assert(before[k] == e[x]);
                        lemma_expand_member(ns, before.take(i as int), x);
                        let m = choose|m: int|
                            0 <= m < before.take(i as int).len()
                                && #[trigger] ns[before.take(i as int)[m] as int].children@.contains(e[x]);
                        let pm = before[m];
                        assert(before.take(i as int)[m] == pm);
                        if before[k] == c {
                            let q = choose|q: int| 0 <= q < ns[pm as int].children@.len() && ns[pm as int].children@[q] == c;
                            assert(ns[c as int].parent == Some(pm));
                            assert(pm == node);
                            assert(before[m] == before[i as int]);
                        }
                    } else {
                        let q = k - before.len();
                        assert(result@[k] == ch[q]);
                        assert(q < j);
                    }
                }
                assert(ch.take(j as int).push(c) =~= ch.take(j as int + 1));
            }
            result.push(c);
            j = j + 1;
        }
        proof {
            assert(ch.take(ch.len() as int) =~= ch);
            assert(result@.take(i as int + 1) =~= before.take(i as int).push(node)) by {
                assert(before.take(i as int + 1) =~= before.take(i as int).push(node));
            }
            lemma_expand_push(ns, before.take(i as int), node);
            assert(result@ =~= seq![root] + expand(ns, result@.take(i as int + 1)));
        }
        i = i + 1;
    }
    assert(result@.take(result@.len() as int) =~= result@);
    result
}

} // verus!

verus! {

/// The number of indices below `i` that are not in `del`.
pub open spec fn kept_before(del: Set<usize>, i: int) -> int
    decreases i,
{
    if i <= 0 {
        0
    } else {
        kept_before(del, i - 1) + if del.contains((i - 1) as usize) {
            0int
        } else {
            1int
        }
    }
}

/// The new index of old index `i` once the indices in `del` are removed.
pub open spec fn remap_index(del: Set<usize>, i: usize) -> Option<usize> {
    if del.contains(i) {
        None
    } else {
        Some(kept_before(del, i as int) as usize)
    }
}

/// `remap_index` lifted to an optional index.
pub open spec fn remap_opt(del: Set<usize>, o: Option<usize>) -> Option<usize> {
    match o {
        Some(p) => remap_index(del, p),
        None => None,
    }
}

/// The surviving indices of `s`, renumbered, in order.
pub open spec fn remap_list(del: Set<usize>, s: Seq<usize>) -> Seq<usize>
    decreases s.len(),
{
    if s.len() == 0 {
        Seq::empty()
    } else {
        let r = remap_list(del, s.drop_last());
        if del.contains(s.last()) {
            r
        } else {
            r.push(kept_before(del, s.last() as int) as usize)
        }
    }
}

/// `b` is node `a` carried over into the numbering without `del`: indices
/// renumbered, dangling ones dropped, the layout row reset.
pub open spec fn remapped(del: Set<usize>, a: Node, b: Node) -> bool {
    &&& b.label == a.label
    &&& b.parent == remap_opt(del, a.parent)
    &&& b.children@ == remap_list(del, a.children@)
    &&& b.links@ == remap_list(del, a.links@)
    &&& b.collapsed == a.collapsed
    &&& b.row == usize::MAX
    &&& b.world_x == a.world_x
    &&& b.world_y == a.world_y
    &&& b.world_x_end == a.world_x_end
    &&& b.tags@ == a.tags@
    &&& b.times@ == a.times@
    &&& b.is_managed_note == a.is_managed_note
    &&& b.managed == a.managed
}

/// `new` is `old` with the nodes whose indices are in `del` removed and every
/// remaining index renumbered.
pub open spec fn removal_of(old: Seq<Node>, del: Set<usize>, new: Seq<Node>) -> bool {
    &&& new.len() == kept_before(del, old.len() as int)
    &&& forall|i: int|
        0 <= i < old.len() && !del.contains(i as usize) ==> remapped(
            del,
            old[i],
            #[trigger] new[kept_before(del, i)],
        )
}

pub proof fn lemma_kept_before_bounds(del: Set<usize>, i: int, j: int)
    requires
        0 <= i <= j,
    ensures
        0 <= kept_before(del, i) <= kept_before(del, j),
        kept_before(del, j) - kept_before(del, i) <= j - i,
        i < j && !del.contains(i as usize) ==> kept_before(del, i) < kept_before(del, j),
    decreases j - i,
{
    if i < j {
        lemma_kept_before_bounds(del, i, j - 1);
        if i == j - 1 {
        }
    }
    if i == j {
    }
    if i >= 0 {
        lemma_kept_before_nonneg(del, i);
    }
}

pub proof fn lemma_kept_before_nonneg(del: Set<usize>, i: int)
    ensures
        0 <= kept_before(del, i),
        i >= 0 ==> kept_before(del, i) <= i,
    decreases i,
{
    if i > 0 {
        lemma_kept_before_nonneg(del, i - 1);
    }
}

/// Every new index comes from some surviving old index.
pub proof fn lemma_kept_before_onto(del: Set<usize>, m: int, r: int)
    requires
        0 <= r < kept_before(del, m),
        m <= usize::MAX + 1,
    ensures
        exists|j: int| 0 <= j < m && !del.contains(j as usize) && #[trigger] kept_before(del, j) == r,
    decreases m,
{
    if m <= 0 {
    } else {
        lemma_kept_before_nonneg(del, m - 1);
        if r < kept_before(del, m - 1) {
            lemma_kept_before_onto(del, m - 1, r);
            let j = choose|j: int| 0 <= j < m - 1 && !del.contains(j as usize) && #[trigger] kept_before(del, j) == r;
            assert(0 <= j < m && !del.contains(j as usize) && kept_before(del, j) == r);
        } else {
            assert(!del.contains((m - 1) as usize));
            assert(kept_before(del, m - 1) == r);
        }
    }
}

/// Membership in a renumbered list.
pub proof fn lemma_remap_list_member(del: Set<usize>, s: Seq<usize>)
    ensures
        forall|k: int|
            0 <= k < s.len() && !del.contains(s[k]) ==> remap_list(del, s).contains(
                kept_before(del, #[trigger] s[k] as int) as usize,
            ),
        forall|x: usize|
            remap_list(del, s).contains(x) ==> exists|k: int|
                0 <= k < s.len() && !del.contains(s[k]) && x == kept_before(del, #[trigger] s[k] as int) as usize,
    decreases s.len(),
{
    if s.len() > 0 {
        let t = s.drop_last();
        lemma_remap_list_member(del, t);
        let r = remap_list(del, t);
        assert forall|k: int|
            0 <= k < s.len() && !del.contains(s[k]) implies remap_list(del, s).contains(
            kept_before(del, #[trigger] s[k] as int) as usize,
        ) by {
            if k < s.len() - 1 {
                assert(t[k] == s[k]);
                assert(r.contains(kept_before(del, t[k] as int) as usize));
                if !del.contains(s.last()) {
                    let y = kept_before(del, t[k] as int) as usize;
                    let i = choose|i: int| 0 <= i < r.len() && r[i] == y;
                    assert(remap_list(del, s)[i] == y);
                }
            } else {
                assert(remap_list(del, s).last() == kept_before(del, s[k] as int) as usize);
            }
        }
        assert forall|x: usize| remap_list(del, s).contains(x) implies exists|k: int|
            0 <= k < s.len() && !del.contains(s[k]) && x == kept_before(del, #[trigger] s[k] as int) as usize by {
            let i = choose|i: int| 0 <= i < remap_list(del, s).len() && remap_list(del, s)[i] == x;
            if i < r.len() {
                assert(r[i] == x);
                assert(r.contains(x));
                let k = choose|k: int| 0 <= k < t.len() && !del.contains(t[k]) && x == kept_before(del, #[trigger] t[k] as int) as usize;
                assert(s[k] == t[k]);
            } else {
                assert(!del.contains(s.last()));
                assert(s[s.len() - 1] == s.last());
            }
        }
    }
}

/// A renumbered list is no longer than the original.
pub proof fn lemma_remap_list_len(del: Set<usize>, s: Seq<usize>)
    ensures
        remap_list(del, s).len() <= s.len(),
    decreases s.len(),
{
    if s.len() > 0 {
        lemma_remap_list_len(del, s.drop_last());
    }
}

/// Renumbering keeps distinct lists distinct.
pub proof fn lemma_remap_list_distinct(del: Set<usize>, s: Seq<usize>, bound: int)
    requires
        s.no_duplicates(),
        bound <= usize::MAX + 1,
        forall|k: int| 0 <= k < s.len() ==> (#[trigger] s[k] as int) < bound,
    ensures
        remap_list(del, s).no_duplicates(),
        forall|k: int|
            0 <= k < remap_list(del, s).len() ==> (#[trigger] remap_list(del, s)[k] as int) < kept_before(
                del,
                bound,
            ),
    decreases s.len(),
{
    if s.len() > 0 {
        let t = s.drop_last();
        assert forall|a: int, b: int| 0 <= a < t.len() && 0 <= b < t.len() && a != b implies t[a] != t[b] by {
            assert(t[a] == s[a] && t[b] == s[b]);
        }
        assert forall|k: int| 0 <= k < t.len() implies (#[trigger] t[k] as int) < bound by {
            assert(t[k] == s[k]);
        }
        lemma_remap_list_distinct(del, t, bound);
        let r = remap_list(del, t);
        if !del.contains(s.last()) {
            let y = kept_before(del, s.last() as int);
            lemma_kept_before_bounds(del, s.last() as int, bound);
            lemma_remap_list_member(del, t);
            assert forall|i: int| 0 <= i < r.len() implies r[i] != y as usize by {
                assert(r.contains(r[i]));
                let k = choose|k: int| 0 <= k < t.len() && !del.contains(t[k]) && r[i] == kept_before(del, #[trigger] t[k] as int) as usize;
                assert(t[k] == s[k]);
                assert(s[k] != s.last());
                lemma_kept_before_nonneg(del, bound);
                lemma_kept_before_nonneg(del, t[k] as int);
                lemma_kept_before_nonneg(del, s.last() as int);
                if (t[k] as int) < (s.last() as int) {
                    lemma_kept_before_bounds(del, t[k] as int, s.last() as int);
                } else {
                    lemma_kept_before_bounds(del, s.last() as int, t[k] as int);
                }
            }
            let rs = r.push(y as usize);
            assert forall|a: int, b: int| 0 <= a < rs.len() && 0 <= b < rs.len() && a != b implies rs[a] != rs[b] by {
                if a < r.len() && b < r.len() {
                } else if a < r.len() {
                    assert(rs[b] == y as usize);
                } else {
                    assert(rs[a] == y as usize);
                }
            }
            lemma_kept_before_nonneg(del, s.last() as int);
        }
    }
}

/// Removing any set of nodes from a forest and renumbering leaves a forest.
pub proof fn lemma_removal_preserves_forest(old: Seq<Node>, del: Set<usize>, new: Seq<Node>)
    requires
        forest(old),
        removal_of(old, del, new),
        old.len() <= usize::MAX,
    ensures
        forest(new),
{
    let n = old.len() as int;
    lemma_kept_before_nonneg(del, n);
    // parents
    assert forall|c: int|
        #![trigger new[c].parent]
        0 <= c < new.len() && new[c].parent is Some implies {
            &&& (new[c].parent->0 as int) < new.len()
            &&& new[new[c].parent->0 as int].children@.contains(c as usize)
        } by {
        lemma_kept_before_onto(del, n, c);
        let i = choose|j: int| 0 <= j < n && !del.contains(j as usize) && #[trigger] kept_before(del, j) == c;
        assert(remapped(del, old[i], new[kept_before(del, i)]));
        let p = old[i].parent->0;
        assert(old[i].parent is Some);
        assert(!del.contains(p));
        assert((p as int) < n);
        lemma_kept_before_bounds(del, p as int, n);
        assert(remapped(del, old[p as int], new[kept_before(del, p as int)]));
        assert(old[p as int].children@.contains(i as usize));
        let k = choose|k: int| 0 <= k < old[p as int].children@.len() && old[p as int].children@[k] == i as usize;
        lemma_remap_list_member(del, old[p as int].children@);
        assert(remap_list(del, old[p as int].children@).contains(kept_before(del, old[p as int].children@[k] as int) as usize));
        lemma_kept_before_nonneg(del, i);
    }
    // children
    assert forall|p: int|
        #![trigger new[p].children]
        0 <= p < new.len() implies {
            &&& new[p].children@.no_duplicates()
            &&& forall|j: int|
                #![trigger new[p].children@[j]]
                0 <= j < new[p].children@.len() ==> {
                    &&& (new[p].children@[j] as int) < new.len()
                    &&& new[new[p].children@[j] as int].parent == Some(p as usize)
                }
        } by {
        lemma_kept_before_onto(del, n, p);
        let i = choose|j: int| 0 <= j < n && !del.contains(j as usize) && #[trigger] kept_before(del, j) == p;
        assert(remapped(del, old[i], new[kept_before(del, i)]));
        let ch = old[i].children@;
        assert(ch.no_duplicates());
        assert forall|k: int| 0 <= k < ch.len() implies (#[trigger] ch[k] as int) < n by {
            assert(old[i].children@[k] == ch[k]);
        }
        lemma_remap_list_distinct(del, ch, n);
        lemma_remap_list_member(del, ch);
        assert forall|j: int|
            #![trigger new[p].children@[j]]
            0 <= j < new[p].children@.len() implies {
                &&& (new[p].children@[j] as int) < new.len()
                &&& new[new[p].children@[j] as int].parent == Some(p as usize)
            } by {
            let x = new[p].children@[j];
            assert(remap_list(del, ch).contains(x));
            let k = choose|k: int| 0 <= k < ch.len() && !del.contains(ch[k]) && x == kept_before(del, #[trigger] ch[k] as int) as usize;
            let c = ch[k];
            assert(old[i].children@[k] == c);
            assert(old[c as int].parent == Some(i as usize));
            lemma_kept_before_nonneg(del, c as int);
            assert(remapped(del, old[c as int], new[kept_before(del, c as int)]));
            lemma_kept_before_nonneg(del, i);
        }
    }
    // links
    assert forall|r: int, k: int|
        #![trigger new[r].links@[k]]
        0 <= r < new.len() && 0 <= k < new[r].links@.len() implies (new[r].links@[k] as int) < new.len() by {
        lemma_kept_before_onto(del, n, r);
        let i = choose|j: int| 0 <= j < n && !del.contains(j as usize) && #[trigger] kept_before(del, j) == r;
        assert(remapped(del, old[i], new[kept_before(del, i)]));
        let ls = old[i].links@;
        assert forall|q: int| 0 <= q < ls.len() implies (#[trigger] ls[q] as int) < n by {
            assert(old[i].links@[q] == ls[q]);
        }
        lemma_remap_list_len(del, ls);
        lemma_remap_list_member(del, ls);
        let x = new[r].links@[k];
        assert(remap_list(del, ls).contains(x));
        let q = choose|q: int| 0 <= q < ls.len() && !del.contains(ls[q]) && x == kept_before(del, #[trigger] ls[q] as int) as usize;
        lemma_kept_before_bounds(del, ls[q] as int, n);
    }
    // acyclicity
    let rank = choose|rank: Seq<nat>| ranked(old, rank);
    let nr = Seq::new(new.len(), |r: int| rank[choose|j: int| 0 <= j < n && !del.contains(j as usize) && #[trigger] kept_before(del, j) == r]);
    assert forall|c: int|
        #![trigger new[c].parent]
        0 <= c < new.len() && new[c].parent is Some implies nr[new[c].parent->0 as int] < nr[c] by {
        lemma_kept_before_onto(del, n, c);
        let i = choose|j: int| 0 <= j < n && !del.contains(j as usize) && #[trigger] kept_before(del, j) == c;
        assert(remapped(del, old[i], new[kept_before(del, i)]));
        let p = old[i].parent->0;
        assert((p as int) < n);
        let pr = new[c].parent->0 as int;
        lemma_kept_before_nonneg(del, p as int);
        assert(pr == kept_before(del, p as int));
        lemma_kept_before_onto(del, n, pr);
        let ip = choose|j: int| 0 <= j < n && !del.contains(j as usize) && #[trigger] kept_before(del, j) == pr;
        if ip < p {
            lemma_kept_before_bounds(del, ip, p as int);
        } else if ip > p {
            lemma_kept_before_bounds(del, p as int, ip);
        }
        assert(ip == p);
        assert(nr[c] == rank[i]);
        assert(nr[pr] == rank[ip]);
    }
    assert(ranked(new, nr));
}

} // verus!

verus! {

/// The renumbered copy of a list of indices.
fn remap_indices(s: &Vec<usize>, remap: &Vec<Option<usize>>, Ghost(del): Ghost<Set<usize>>) -> (r: Vec<usize>)
    requires
        forall|k: int| 0 <= k < s@.len() ==> (#[trigger] s@[k] as int) < remap@.len(),
        forall|i: int| 0 <= i < remap@.len() ==> #[trigger] remap@[i] == remap_index(del, i as usize),
    ensures
        r@ == remap_list(del, s@),
{
    let mut r: Vec<usize> = Vec::new();
    let mut k: usize = 0;
    while k < s.len()
        invariant
            k <= s@.len(),
            forall|q: int| 0 <= q < s@.len() ==> (#[trigger] s@[q] as int) < remap@.len(),
            forall|i: int| 0 <= i < remap@.len() ==> #[trigger] remap@[i] == remap_index(del, i as usize),
            r@ == remap_list(del, s@.take(k as int)),
        decreases s@.len() - k,
    {
        let x = s[k];
        assert(s@.take(k as int + 1).drop_last() =~= s@.take(k as int));
        assert(s@.take(k as int + 1).last() == x);
        match remap[x] {
            Some(v) => {
                r.push(v);
            },
            None => {},
        }
        k = k + 1;
    }
    assert(s@.take(s@.len() as int) =~= s@);
    r
}

/// The node list without the nodes whose indices are in `del`, every
/// remaining index renumbered, together with the renumbering itself.
pub fn remove_from(nodes: &Vec<Node>, del: &std::collections::HashSet<usize>) -> (r: (Vec<Node>, Vec<Option<usize>>))
    requires
        forest(nodes@),
    ensures
        removal_of(nodes@, del@, r.0@),
        r.1@.len() == nodes@.len(),
        forall|i: int| 0 <= i < nodes@.len() ==> #[trigger] r.1@[i] == remap_index(del@, i as usize),
{
    broadcast use vstd::std_specs::hash::group_hash_axioms;
    let n = nodes.len();
    let mut remap: Vec<Option<usize>> = Vec::new();
    let mut next: usize = 0;
    let mut i: usize = 0;
    while i < n
        invariant
            n == nodes@.len(),
            i <= n,
            remap@.len() == i,
            next == kept_before(del@, i as int),
            forall|j: int| 0 <= j < i ==> #[trigger] remap@[j] == remap_index(del@, j as usize),
        decreases n - i,
    {
        proof {
            lemma_kept_before_nonneg(del@, i as int);
        }
        if !del.contains(&i) {
            remap.push(Some(next));
            next = next + 1;
        } else {
            remap.push(None);
        }
        i = i + 1;
    }
    let mut new_nodes: Vec<Node> = Vec::new();
    let mut i: usize = 0;
    while i < n
        invariant
            forest(nodes@),
            n == nodes@.len(),
            i <= n,
            remap@.len() == n,
            forall|j: int| 0 <= j < n ==> #[trigger] remap@[j] == remap_index(del@, j as usize),
            new_nodes@.len() == kept_before(del@, i as int),
            forall|j: int|
                0 <= j < i && !del@.contains(j as usize) ==> remapped(
                    del@,
                    nodes@[j],
                    #[trigger] new_nodes@[kept_before(del@, j)],
                ),
        decreases n - i,
    {
        proof {
            lemma_kept_before_nonneg(del@, i as int);
        }
        if remap[i].is_some() {
            let old = &nodes[i];
            let parent = match old.parent {
                Some(p) => remap[p],
                None => None,
            };
            proof {
                assert(old.children == nodes@[i as int].children);
                assert forall|k: int| 0 <= k < old.links@.len() implies (#[trigger] old.links@[k] as int) < remap@.len() by {
                    assert(nodes@[i as int].links@[k] == old.links@[k]);
                }
            }
            let children = remap_indices(&old.children, &remap, Ghost(del@));
            let links = remap_indices(&old.links, &remap, Ghost(del@));
            let node = Node {
                label: old.label.clone(),
                parent,
                children,
                links,
                collapsed: old.collapsed,
                row: usize::MAX,
                world_x: old.world_x,
                world_y: old.world_y,
                world_x_end: old.world_x_end,
                tags: crate::models::clone_tags(&old.tags),
                times: crate::models::clone_times(&old.times),
                is_managed_note: old.is_managed_note,
                managed: match &old.managed {
                    Some(m) => Some(m.clone_value()),
                    None => None,
                },
            };
            new_nodes.push(node);
            proof {
                assert forall|j: int|
                    0 <= j < i + 1 && !del@.contains(j as usize) implies remapped(
                        del@,
                        nodes@[j],
                        #[trigger] new_nodes@[kept_before(del@, j)],
                    ) by {
                    if j < i {
                        lemma_kept_before_bounds(del@, j, i as int);
                    }
                }
            }
        }
        i = i + 1;
    }
    (new_nodes, remap)
}

} // verus!

verus! {

/// The node reached from `x` by following `k` parent pointers.
pub open spec fn ancestor(nodes: Seq<Node>, x: usize, k: nat) -> Option<usize>
    decreases k,
{
    if k == 0 {
        Some(x)
    } else {
        match ancestor(nodes, x, (k - 1) as nat) {
            Some(a) => if (a as int) < nodes.len() {
                nodes[a as int].parent
            } else {
                None
            },
            None => None,
        }
    }
}

/// `x` lies in the subtree rooted at `root` (it is `root` or a descendant).
pub open spec fn in_subtree(nodes: Seq<Node>, x: usize, root: usize) -> bool {
    exists|k: nat| #[trigger] ancestor(nodes, x, k) == Some(root)
}

proof fn lemma_expand_contains_children(nodes: Seq<Node>, s: Seq<usize>, j: int, c: usize)
    requires
        0 <= j < s.len(),
        nodes[s[j] as int].children@.contains(c),
    ensures
        expand(nodes, s).contains(c),
    decreases s.len(),
{
    let ch = nodes[s.last() as int].children@;
    let prev = expand(nodes, s.drop_last());
    if j == s.len() - 1 {
        let q = choose|q: int| 0 <= q < ch.len() && ch[q] == c;
        assert(expand(nodes, s)[prev.len() + q] == c);
    } else {
        assert(s.drop_last()[j] == s[j]);
        lemma_expand_contains_children(nodes, s.drop_last(), j, c);
        let q = choose|q: int| 0 <= q < prev.len() && prev[q] == c;
        assert(expand(nodes, s)[q] == c);
    }
}

proof fn lemma_listing_has_descendants(nodes: Seq<Node>, root: usize, r: Seq<usize>, x: usize, k: nat)
    requires
        forest(nodes),
        is_subtree_listing(nodes, root, r),
        ancestor(nodes, x, k) == Some(root),
        (x as int) < nodes.len(),
    ensures
        r.contains(x),
    decreases k,
{
    if k == 0 {
        assert(r[0] == root);
    } else {
        let a = ancestor(nodes, x, (k - 1) as nat);
        // walk one step down: find the child of root on the path
        lemma_ancestor_step(nodes, x, (k - 1) as nat);
        let y = choose|y: usize| #[trigger] ancestor(nodes, y, 1) == Some(root) && ancestor(nodes, x, (k - 1) as nat) == Some(y) && (y as int) < nodes.len();
        // y is a child of root
        assert(nodes[y as int].parent == Some(root));
        assert(nodes[root as int].children@.contains(y));
        lemma_expand_contains_children(nodes, r, 0, y);
        let q = choose|q: int| 0 <= q < expand(nodes, r).len() && expand(nodes, r)[q] == y;
        assert(r[q + 1] == y);
        lemma_listing_desc_rec(nodes, root, r, y, x, (k - 1) as nat);
    }
}

/// If `ancestor(x, k+1) == Some(root)` then the node `k` steps above `x` is a
/// child of `root`.
proof fn lemma_ancestor_step(nodes: Seq<Node>, x: usize, k: nat)
    requires
        forest(nodes),
        (x as int) < nodes.len(),
        ancestor(nodes, x, k + 1) is Some,
    ensures
        exists|y: usize|
            #[trigger] ancestor(nodes, y, 1) == ancestor(nodes, x, k + 1) && ancestor(nodes, x, k) == Some(y)
                && (y as int) < nodes.len(),
{
    let y = ancestor(nodes, x, k)->0;
    lemma_ancestor_in_range(nodes, x, k);
    assert(ancestor(nodes, y, 0) == Some(y));
    assert(ancestor(nodes, y, 1) == ancestor(nodes, x, k + 1));
}

pub proof fn lemma_ancestor_in_range(nodes: Seq<Node>, x: usize, k: nat)
    requires
        forest(nodes),
        (x as int) < nodes.len(),
    ensures
        ancestor(nodes, x, k) matches Some(a) ==> (a as int) < nodes.len(),
    decreases k,
{
    if k > 0 {
        lemma_ancestor_in_range(nodes, x, (k - 1) as nat);
        match ancestor(nodes, x, (k - 1) as nat) {
            Some(a) => {
                if (a as int) < nodes.len() && nodes[a as int].parent is Some {
                    assert(nodes[a as int].parent == nodes[a as int].parent);
                }
            },
            None => {},
        }
    }
}

proof fn lemma_listing_desc_rec(nodes: Seq<Node>, root: usize, r: Seq<usize>, y: usize, x: usize, k: nat)
    requires
        forest(nodes),
        is_subtree_listing(nodes, root, r),
        r.contains(y),
        ancestor(nodes, x, k) == Some(y),
        (x as int) < nodes.len(),
    ensures
        r.contains(x),
    decreases k,
{
    if k == 0 {
    } else {
        lemma_ancestor_step(nodes, x, (k - 1) as nat);
        let z = choose|z: usize| #[trigger] ancestor(nodes, z, 1) == Some(y) && ancestor(nodes, x, (k - 1) as nat) == Some(z) && (z as int) < nodes.len();
        assert(nodes[z as int].parent == Some(y));
        assert((y as int) < nodes.len());
        assert(nodes[y as int].children@.contains(z));
        let j = choose|j: int| 0 <= j < r.len() && r[j] == y;
        lemma_expand_contains_children(nodes, r, j, z);
        let q = choose|q: int| 0 <= q < expand(nodes, r).len() && expand(nodes, r)[q] == z;
        assert(r[q + 1] == z);
        lemma_listing_desc_rec(nodes, root, r, z, x, (k - 1) as nat);
    }
}

proof fn lemma_listing_only_descendants(nodes: Seq<Node>, root: usize, r: Seq<usize>, rank: Seq<nat>, x: usize)
    requires
        forest(nodes),
        ranked(nodes, rank),
        is_subtree_listing(nodes, root, r),
        r.contains(x),
    ensures
        in_subtree(nodes, x, root),
    decreases rank[x as int],
{
    let i = choose|i: int| 0 <= i < r.len() && r[i] == x;
    assert((x as int) < nodes.len());
    if i == 0 {
        assert(ancestor(nodes, x, 0) == Some(root));
    } else {
        let e = expand(nodes, r);
        assert(r[i] == e[i - 1]);
        lemma_expand_member(nodes, r, i - 1);
        let m = choose|m: int| 0 <= m < r.len() && #[trigger] nodes[r[m] as int].children@.contains(e[i - 1]);
        let p = r[m];
        let q = choose|q: int| 0 <= q < nodes[p as int].children@.len() && nodes[p as int].children@[q] == x;
        assert(nodes[x as int].parent == Some(p));
        assert(rank[p as int] < rank[x as int]);
        assert(r.contains(p));
        lemma_listing_only_descendants(nodes, root, r, rank, p);
        let k = choose|k: nat| #[trigger] ancestor(nodes, p, k) == Some(root);
        lemma_ancestor_shift(nodes, x, p, k);
    }
}

/// Prepending one parent step to an ancestor path.
pub proof fn lemma_ancestor_shift(nodes: Seq<Node>, x: usize, p: usize, k: nat)
    requires
        (x as int) < nodes.len(),
        nodes[x as int].parent == Some(p),
    ensures
        ancestor(nodes, x, k + 1) == ancestor(nodes, p, k),
    decreases k,
{
    if k > 0 {
        lemma_ancestor_shift(nodes, x, p, (k - 1) as nat);
    } else {
        assert(ancestor(nodes, x, 0) == Some(x));
    }
}

/// The breadth-first listing holds exactly the nodes of the subtree.
pub proof fn lemma_listing_members(nodes: Seq<Node>, root: usize, r: Seq<usize>)
    requires
        forest(nodes),
        is_subtree_listing(nodes, root, r),
    ensures
        forall|x: usize| r.contains(x) <==> ((x as int) < nodes.len() && in_subtree(nodes, x, root)),
{
    let rank = choose|rank: Seq<nat>| ranked(nodes, rank);
    assert forall|x: usize| r.contains(x) <==> ((x as int) < nodes.len() && in_subtree(nodes, x, root)) by {
        if r.contains(x) {
            lemma_listing_only_descendants(nodes, root, r, rank, x);
        }
        if (x as int) < nodes.len() && in_subtree(nodes, x, root) {
            let k = choose|k: nat| #[trigger] ancestor(nodes, x, k) == Some(root);
            lemma_listing_has_descendants(nodes, root, r, x, k);
        }
    }
}

} // verus!

verus! {

/// Ranks never decrease from a node down into its subtree.
pub proof fn lemma_subtree_rank(nodes: Seq<Node>, rank: Seq<nat>, x: usize, s: usize, k: nat)
    requires
        forest(nodes),
        ranked(nodes, rank),
        (x as int) < nodes.len(),
        ancestor(nodes, x, k) == Some(s),
    ensures
        (s as int) < nodes.len(),
        rank[s as int] <= rank[x as int],
        k > 0 ==> rank[s as int] < rank[x as int],
    decreases k,
{
    if k == 0 {
    } else {
        let p = nodes[x as int].parent;
        assert(ancestor(nodes, x, 1) == p) by {
            assert(ancestor(nodes, x, 0) == Some(x));
        }
        if p is None {
            lemma_ancestor_none(nodes, x, 1, k);
        } else {
            let pp = p->0;
            lemma_ancestor_shift(nodes, x, pp, (k - 1) as nat);
            assert((pp as int) < nodes.len());
            lemma_subtree_rank(nodes, rank, pp, s, (k - 1) as nat);
        }
    }
}

/// Once the parent chain has ended it stays ended.
pub proof fn lemma_ancestor_none(nodes: Seq<Node>, x: usize, j: nat, k: nat)
    requires
        j <= k,
        ancestor(nodes, x, j) is None,
    ensures
        ancestor(nodes, x, k) is None,
    decreases k - j,
{
    if j < k {
        lemma_ancestor_none(nodes, x, j, (k - 1) as nat);
    }
}

/// A child of a node in the subtree of `s` is in the subtree of `s`; a node
/// of the subtree other than `s` has its parent in the subtree.
pub proof fn lemma_subtree_parent(nodes: Seq<Node>, c: usize, s: usize)
    requires
        forest(nodes),
        (c as int) < nodes.len(),
    ensures
        (nodes[c as int].parent matches Some(p) && in_subtree(nodes, p, s)) ==> in_subtree(nodes, c, s),
        (in_subtree(nodes, c, s) && c != s) ==> (nodes[c as int].parent matches Some(p) && in_subtree(nodes, p, s)),
{
    if let Some(p) = nodes[c as int].parent {
        if in_subtree(nodes, p, s) {
            let k = choose|k: nat| #[trigger] ancestor(nodes, p, k) == Some(s);
            lemma_ancestor_shift(nodes, c, p, k);
            assert(ancestor(nodes, c, k + 1) == Some(s));
        }
    }
    if in_subtree(nodes, c, s) && c != s {
        let k = choose|k: nat| #[trigger] ancestor(nodes, c, k) == Some(s);
        assert(k > 0);
        assert(ancestor(nodes, c, 1) == nodes[c as int].parent) by {
            assert(ancestor(nodes, c, 0) == Some(c));
        }
        if nodes[c as int].parent is None {
            lemma_ancestor_none(nodes, c, 1, k);
        } else {
            let p = nodes[c as int].parent->0;
            lemma_ancestor_shift(nodes, c, p, (k - 1) as nat);
            assert(ancestor(nodes, p, (k - 1) as nat) == Some(s));
        }
    }
}

/// The conditions under which node `s` has been moved under `t` (or made a
/// root when `t` is `None`) in `new`, everything else unchanged.
pub open spec fn moved(old: Seq<Node>, new: Seq<Node>, s: usize, t: Option<usize>) -> bool {
    &&& new.len() == old.len()
    &&& forall|i: int| 0 <= i < new.len() ==> (#[trigger] new[i]).parent == if i == s as int {
        t
    } else {
        old[i].parent
    }
    &&& forall|i: int| 0 <= i < new.len() ==> (#[trigger] new[i]).children@.no_duplicates()
    &&& forall|i: int, x: usize|
        0 <= i < new.len() ==> (#[trigger] new[i].children@.contains(x) <==> ((x != s && old[i].children@.contains(
            x,
        )) || (x == s && t == Some(i as usize))))
    &&& forall|i: int| 0 <= i < new.len() ==> (#[trigger] new[i]).links@ == old[i].links@
}

proof fn lemma_move_parents(old: Seq<Node>, new: Seq<Node>, s: usize, t: Option<usize>)
    requires
        forest(old),
        old.len() <= usize::MAX,
        (s as int) < old.len(),
        t matches Some(tp) ==> (tp as int) < old.len(),
        moved(old, new, s, t),
    ensures
        parents_ok(new),
        links_ok(new),
{
    assert forall|c: int|
        #![trigger new[c].parent]
        0 <= c < new.len() && new[c].parent is Some implies {
            &&& (new[c].parent->0 as int) < new.len()
            &&& new[new[c].parent->0 as int].children@.contains(c as usize)
        } by {
        let p = new[c].parent->0;
        if c == s as int {
            assert(t == Some(p));
            assert((p as int) < new.len());
            assert(new[p as int].children@.contains(s) <==> ((s != s && old[p as int].children@.contains(s)) || (s == s && t == Some(((p as int) as usize)))));
            assert(new[p as int].children@.contains(s));
            assert(c as usize == s);
        } else {
            assert(old[c].parent == Some(p));
            assert((p as int) < old.len());
            assert(old[p as int].children@.contains(c as usize));
            assert(new[p as int].children@.contains(c as usize) <==> ((c as usize != s && old[p as int].children@.contains(c as usize)) || (c as usize == s && t == Some(((p as int) as usize)))));
            assert(new[p as int].children@.contains(c as usize));
        }
    }
    assert forall|i: int, k: int|
        #![trigger new[i].links@[k]]
        0 <= i < new.len() && 0 <= k < new[i].links@.len() implies (new[i].links@[k] as int) < new.len() by {
        assert(old[i].links@[k] == new[i].links@[k]);
    }
}

proof fn lemma_move_children(old: Seq<Node>, new: Seq<Node>, s: usize, t: Option<usize>)
    requires
        forest(old),
        old.len() <= usize::MAX,
        (s as int) < old.len(),
        t matches Some(tp) ==> (tp as int) < old.len(),
        moved(old, new, s, t),
    ensures
        children_ok(new),
{
    assert forall|p: int|
        #![trigger new[p].children]
        0 <= p < new.len() implies {
            &&& new[p].children@.no_duplicates()
            &&& forall|j: int|
                #![trigger new[p].children@[j]]
                0 <= j < new[p].children@.len() ==> {
                    &&& (new[p].children@[j] as int) < new.len()
                    &&& new[new[p].children@[j] as int].parent == Some(p as usize)
                }
        } by {
        assert forall|j: int|
            #![trigger new[p].children@[j]]
            0 <= j < new[p].children@.len() implies {
                &&& (new[p].children@[j] as int) < new.len()
                &&& new[new[p].children@[j] as int].parent == Some(p as usize)
            } by {
            let x = new[p].children@[j];
            assert(new[p].children@.contains(x));
            if x == s {
                assert(t == Some(p as usize));
            } else {
                assert(old[p].children@.contains(x));
                let q = choose|q: int| 0 <= q < old[p].children@.len() && old[p].children@[q] == x;
                assert(old[p].children@[q] == x);
            }
        }
    }
}

proof fn lemma_move_ranked(old: Seq<Node>, new: Seq<Node>, s: usize, t: Option<usize>)
    requires
        forest(old),
        old.len() <= usize::MAX,
        (s as int) < old.len(),
        t matches Some(tp) ==> (tp as int) < old.len() && !in_subtree(old, tp, s),
        moved(old, new, s, t),
    ensures
        exists|r: Seq<nat>| ranked(new, r),
{
    let n = old.len();
    let rank = choose|rank: Seq<nat>| ranked(old, rank);
    let base: int = match t {
        Some(tp) => rank[tp as int] as int + 1,
        None => 0,
    };
    let nr = Seq::new(
        n,
        |x: int|
            if in_subtree(old, x as usize, s) {
                (rank[x] - rank[s as int] + base) as nat
            } else {
                rank[x]
            },
    );
    assert forall|c: int|
        #![trigger new[c].parent]
        0 <= c < new.len() && new[c].parent is Some implies nr[new[c].parent->0 as int] < nr[c] by {
        let p = new[c].parent->0;
        if c == s as int {
            assert(ancestor(old, s, 0) == Some(s));
            assert(in_subtree(old, s, s));
            let tp = t->0;
            assert(!in_subtree(old, tp, s));
        } else {
            assert(old[c].parent == Some(p));
            lemma_subtree_parent(old, c as usize, s);
            assert(rank[p as int] < rank[c]);
            assert(old[(c as usize) as int].parent == Some(p));
            if in_subtree(old, c as usize, s) {
                assert(c as usize != s);
                assert(in_subtree(old, p, s));
                let k = choose|k: nat| #[trigger] ancestor(old, p, k) == Some(s);
                lemma_subtree_rank(old, rank, p, s, k);
            } else {
                assert(!in_subtree(old, p, s));
            }
        }
    }
    assert(ranked(new, nr));
}

/// Moving node `s` (with its subtree) under `t`, or making it a root when `t`
/// is `None`, keeps a forest a forest, provided `t` is not inside the subtree
/// of `s`.
pub proof fn lemma_move_preserves_forest(old: Seq<Node>, new: Seq<Node>, s: usize, t: Option<usize>)
    requires
        forest(old),
        old.len() <= usize::MAX,
        (s as int) < old.len(),
        t matches Some(tp) ==> (tp as int) < old.len() && !in_subtree(old, tp, s),
        moved(old, new, s, t),
    ensures
        forest(new),
{
    lemma_move_parents(old, new, s, t);
    lemma_move_children(old, new, s, t);
    lemma_move_ranked(old, new, s, t);
}

} // verus!

verus! {

/// The index of the first occurrence of `x` in `v`, if any.
pub fn position_of(v: &Vec<usize>, x: usize) -> (r: Option<usize>)
    ensures
        match r {
            Some(k) => k < v.len() && v@[k as int] == x && forall|j: int| 0 <= j < k ==> v@[j] != x,
            None => !v@.contains(x),
        },
{
    let mut k: usize = 0;
    while k < v.len()
        invariant
            k <= v@.len(),
            forall|j: int| 0 <= j < k ==> v@[j] != x,
        decreases v@.len() - k,
    {
        if v[k] == x {
            return Some(k);
        }
        k = k + 1;
    }
    None
}

/// Removing the one occurrence of `s` from a list without duplicates.
pub proof fn lemma_seq_remove_elem(c: Seq<usize>, pos: int, s: usize)
    requires
        c.no_duplicates(),
        0 <= pos < c.len(),
        c[pos] == s,
    ensures
        c.remove(pos).no_duplicates(),
        forall|x: usize| #[trigger] c.remove(pos).contains(x) <==> (c.contains(x) && x != s),
        c.index_of(s) == pos,
{
    let r = c.remove(pos);
    assert forall|x: usize| #[trigger] r.contains(x) <==> (c.contains(x) && x != s) by {
        if r.contains(x) {
            let j = choose|j: int| 0 <= j < r.len() && r[j] == x;
            if j < pos {
                assert(c[j] == x);
            } else {
                assert(c[j + 1] == x);
            }
        }
        if c.contains(x) && x != s {
            let j = choose|j: int| 0 <= j < c.len() && c[j] == x;
            if j < pos {
                assert(r[j] == x);
            } else {
                assert(j != pos);
                assert(r[j - 1] == x);
            }
        }
    }
    let i = c.index_of(s);
    assert(c.contains(s));
    assert(c[i] == s);
}

/// Inserting an element that is not yet in a list without duplicates.
pub proof fn lemma_seq_insert_elem(c: Seq<usize>, j: int, s: usize)
    requires
        c.no_duplicates(),
        !c.contains(s),
        0 <= j <= c.len(),
    ensures
        c.insert(j, s).no_duplicates(),
        forall|x: usize| #[trigger] c.insert(j, s).contains(x) <==> (c.contains(x) || x == s),
{
    let r = c.insert(j, s);
    assert(r[j] == s);
    assert forall|x: usize| #[trigger] r.contains(x) <==> (c.contains(x) || x == s) by {
        if r.contains(x) {
            let q = choose|q: int| 0 <= q < r.len() && r[q] == x;
            if q < j {
                assert(c[q] == x);
            } else if q > j {
                assert(c[q - 1] == x);
            }
        }
        if c.contains(x) {
            let q = choose|q: int| 0 <= q < c.len() && c[q] == x;
            if q < j {
                assert(r[q] == x);
            } else {
                assert(r[q + 1] == x);
            }
        }
    }
    assert forall|a: int, b: int| 0 <= a < r.len() && 0 <= b < r.len() && a != b implies r[a] != r[b] by {
        if a != j && b != j {
            let a2 = if a < j { a } else { a - 1 };
            let b2 = if b < j { b } else { b - 1 };
            assert(r[a] == c[a2]);
            assert(r[b] == c[b2]);
        } else if a == j {
            let b2 = if b < j { b } else { b - 1 };
            assert(r[b] == c[b2]);
        } else {
            let a2 = if a < j { a } else { a - 1 };
            assert(r[a] == c[a2]);
        }
    }
}

/// The child list of `t` once `s` is attached at `at` (appended when `at` is
/// `None` or past the end).
pub open spec fn attach(c: Seq<usize>, s: usize, at: Option<usize>) -> Seq<usize> {
    match at {
        Some(j) => if (j as int) < c.len() {
            c.insert(j as int, s)
        } else {
            c.push(s)
        },
        None => c.push(s),
    }
}

/// `new` is `old` with node `s` detached from its parent's child list and
/// attached under `t` at `at` (or made a root), nothing else changed.
pub open spec fn moved_to(old: Seq<Node>, new: Seq<Node>, s: usize, t: Option<usize>, at: Option<usize>) -> bool {
    let op = old[s as int].parent;
    let detached = |i: int|
        if op == Some(i as usize) {
            old[i].children@.remove(old[i].children@.index_of(s))
        } else {
            old[i].children@
        };
    &&& new.len() == old.len()
    &&& new[s as int] == (Node { parent: t, children: new[s as int].children, ..old[s as int] })
    &&& forall|i: int|
        0 <= i < old.len() ==> (#[trigger] new[i]).children@ == if t == Some(i as usize) {
            attach(detached(i), s, at)
        } else {
            detached(i)
        }
    &&& forall|i: int|
        0 <= i < old.len() && i != s && op != Some(i as usize) && t != Some(i as usize) ==> #[trigger] new[i]
            == old[i]
    &&& forall|i: int|
        0 <= i < old.len() && i != s ==> (#[trigger] new[i]) == (Node { children: new[i].children, ..old[i] })
}

/// Detach node `s` from its parent and attach it under `t` at position
/// `at` (appended when `at` is `None` or past the end), or make it a root
/// when `t` is `None`.  The forest stays a forest because `t` is not inside
/// the subtree of `s`.
pub fn move_node(nodes: &mut Vec<Node>, s: usize, t: Option<usize>, at: Option<usize>)
    requires
        forest(old(nodes)@),
        (s as int) < old(nodes)@.len(),
        t matches Some(tp) ==> (tp as int) < old(nodes)@.len() && !in_subtree(old(nodes)@, tp, s),
    ensures
        forest(final(nodes)@),
        moved(old(nodes)@, final(nodes)@, s, t),
        moved_to(old(nodes)@, final(nodes)@, s, t, at),
{
    let ghost old_nodes = nodes@;
    let ghost op = old_nodes[s as int].parent;
    proof {
        assert(old_nodes.len() == nodes.len());
        if let Some(p) = op {
            assert(old_nodes[p as int].children@.contains(s));
        }
    }
    match nodes[s].parent {
        Some(p) => {
            let pos = position_of(&nodes[p].children, s);
            match pos {
                Some(k) => {
                    proof {
                        lemma_seq_remove_elem(old_nodes[p as int].children@, k as int, s);
                    }
                    nodes[p].children.remove(k);
                },
                None => {},
            }
        },
        None => {},
    }
    let ghost mid = nodes@;
    match t {
        Some(tp) => {
            proof {
                assert(!mid[tp as int].children@.contains(s)) by {
                    if mid[tp as int].children@.contains(s) {
                        if op == Some(tp) {
                        } else {
                            assert(old_nodes[tp as int].children@.contains(s));
                            let j = choose|j: int| 0 <= j < old_nodes[tp as int].children@.len() && old_nodes[tp as int].children@[j] == s;
                            assert(old_nodes[tp as int].children@[j] == s);
                        }
                    }
                }
                assert(mid[tp as int].children@.no_duplicates()) by {
                    if op == Some(tp) {
                    } else {
                        assert(mid[tp as int] == old_nodes[tp as int]);
                    }
                }
            }
            let len = nodes[tp].children.len();
            match at {
                Some(j) => {
                    if j < len {
                        nodes[tp].children.insert(j, s);
                        proof {
                            lemma_seq_insert_elem(mid[tp as int].children@, j as int, s);
                        }
                    } else {
                        nodes[tp].children.push(s);
                        proof {
                            lemma_seq_insert_elem(mid[tp as int].children@, len as int, s);
                            assert(mid[tp as int].children@.push(s) =~= mid[tp as int].children@.insert(len as int, s));
                        }
                    }
                },
                None => {
                    nodes[tp].children.push(s);
                    proof {
                        lemma_seq_insert_elem(mid[tp as int].children@, len as int, s);
                        assert(mid[tp as int].children@.push(s) =~= mid[tp as int].children@.insert(len as int, s));
                    }
                },
            }
        },
        None => {},
    }
    nodes[s].parent = t;
    proof {
        let new = nodes@;
        assert(new.len() == old_nodes.len());
        assert(new[s as int] == (Node { parent: t, children: new[s as int].children, ..old_nodes[s as int] }));
        assert forall|i: int| 0 <= i < old_nodes.len() && i != s implies (#[trigger] new[i]) == (Node { children: new[i].children, ..old_nodes[i] }) by {
        }
        assert forall|i: int|
            0 <= i < old_nodes.len() && i != s && op != Some(i as usize) && t != Some(i as usize) implies #[trigger] new[i]
                == old_nodes[i] by {
        }
        assert forall|i: int|
            0 <= i < old_nodes.len() implies (#[trigger] new[i]).children@ == if t == Some(i as usize) {
                attach(if op == Some(i as usize) {
                    old_nodes[i].children@.remove(old_nodes[i].children@.index_of(s))
                } else {
                    old_nodes[i].children@
                }, s, at)
            } else {
                if op == Some(i as usize) {
                    old_nodes[i].children@.remove(old_nodes[i].children@.index_of(s))
                } else {
                    old_nodes[i].children@
                }
            } by {
        }
        assert(moved_to(old_nodes, new, s, t, at));
        assert forall|i: int| 0 <= i < new.len() implies (#[trigger] new[i]).children@.no_duplicates() by {
            assert(old_nodes[i].children@.no_duplicates());
        }
        assert forall|i: int, x: usize|
            0 <= i < new.len() implies (#[trigger] new[i].children@.contains(x) <==> ((x != s
                && old_nodes[i].children@.contains(x)) || (x == s && t == Some(i as usize)))) by {
            if old_nodes[i].children@.contains(s) {
                let j = choose|j: int| 0 <= j < old_nodes[i].children@.len() && old_nodes[i].children@[j] == s;
                assert(old_nodes[i].children@[j] == s);
                assert(old_nodes[s as int].parent == Some(i as usize));
            }
        }
        lemma_move_preserves_forest(old_nodes, new, s, t);
    }
}

/// Node lists that agree element by element are forests alike.
pub proof fn lemma_same_nodes_forest(a: Seq<Node>, b: Seq<Node>)
    requires
        crate::models::same_nodes(a, b),
        forest(b),
    ensures
        forest(a),
{
    let rank = choose|rank: Seq<nat>| ranked(b, rank);
    assert(ranked(a, rank)) by {
        assert forall|c: int| #![trigger a[c].parent] 0 <= c < a.len() && a[c].parent is Some implies rank[a[c].parent->0 as int] < rank[c] by {
            assert(crate::models::same_node(a[c], b[c]));
        }
    }
    assert forall|c: int|
        #![trigger a[c].parent]
        0 <= c < a.len() && a[c].parent is Some implies {
            &&& (a[c].parent->0 as int) < a.len()
            &&& a[a[c].parent->0 as int].children@.contains(c as usize)
        } by {
        assert(crate::models::same_node(a[c], b[c]));
        assert(b[c].parent is Some);
        let p = b[c].parent->0 as int;
        assert(crate::models::same_node(a[p], b[p]));
    }
    assert forall|p: int|
        #![trigger a[p].children]
        0 <= p < a.len() implies {
            &&& a[p].children@.no_duplicates()
            &&& forall|j: int|
                #![trigger a[p].children@[j]]
                0 <= j < a[p].children@.len() ==> {
                    &&& (a[p].children@[j] as int) < a.len()
                    &&& a[a[p].children@[j] as int].parent == Some(p as usize)
                }
        } by {
        assert(crate::models::same_node(a[p], b[p]));
        assert(b[p].children@.no_duplicates());
        assert forall|j: int|
            #![trigger a[p].children@[j]]
            0 <= j < a[p].children@.len() implies {
                &&& (a[p].children@[j] as int) < a.len()
                &&& a[a[p].children@[j] as int].parent == Some(p as usize)
            } by {
            assert(b[p].children@[j] == a[p].children@[j]);
            let c = a[p].children@[j] as int;
            assert(crate::models::same_node(a[c], b[c]));
        }
    }
    assert forall|i: int, k: int|
        #![trigger a[i].links@[k]]
        0 <= i < a.len() && 0 <= k < a[i].links@.len() implies (a[i].links@[k] as int) < a.len() by {
        assert(crate::models::same_node(a[i], b[i]));
        assert(b[i].links@[k] == a[i].links@[k]);
    }
}

/// Following parent pointers from `x` gives the same nodes in two lists
/// whose parents agree everywhere but at `s`, until `s` is reached.
pub proof fn lemma_ancestor_agree(a: Seq<Node>, b: Seq<Node>, s: usize, x: usize, k: nat)
    requires
        a.len() == b.len(),
        forall|i: int| 0 <= i < a.len() && i != s ==> (#[trigger] a[i]).parent == b[i].parent,
        forall|j: nat| j < k ==> ancestor(a, x, j) != Some(s),
    ensures
        ancestor(a, x, k) == ancestor(b, x, k),
    decreases k,
{
    if k > 0 {
        lemma_ancestor_agree(a, b, s, x, (k - 1) as nat);
        assert(ancestor(a, x, (k - 1) as nat) != Some(s));
    }
}

/// The first step at which the parent chain from `x` reaches `s`.
pub proof fn lemma_first_hit(a: Seq<Node>, x: usize, s: usize, k: nat) -> (k2: nat)
    requires
        ancestor(a, x, k) == Some(s),
    ensures
        k2 <= k,
        ancestor(a, x, k2) == Some(s),
        forall|j: nat| j < k2 ==> ancestor(a, x, j) != Some(s),
    decreases k,
{
    if exists|j: nat| j < k && ancestor(a, x, j) == Some(s) {
        let j = choose|j: nat| j < k && ancestor(a, x, j) == Some(s);
        lemma_first_hit(a, x, s, j)
    } else {
        k
    }
}

/// Changing only the parent of `s` leaves the subtree of `s` as it was.
pub proof fn lemma_reparent_keeps_subtree(a: Seq<Node>, b: Seq<Node>, s: usize, x: usize)
    requires
        a.len() == b.len(),
        forall|i: int| 0 <= i < a.len() && i != s ==> (#[trigger] a[i]).parent == b[i].parent,
    ensures
        in_subtree(a, x, s) <==> in_subtree(b, x, s),
{
    if in_subtree(a, x, s) {
        let k = choose|k: nat| #[trigger] ancestor(a, x, k) == Some(s);
        let k2 = lemma_first_hit(a, x, s, k);
        lemma_ancestor_agree(a, b, s, x, k2);
    }
    if in_subtree(b, x, s) {
        let k = choose|k: nat| #[trigger] ancestor(b, x, k) == Some(s);
        let k2 = lemma_first_hit(b, x, s, k);
        assert forall|i: int| 0 <= i < b.len() && i != s implies (#[trigger] b[i]).parent == a[i].parent by {
            assert(a[i].parent == b[i].parent);
        }
        lemma_ancestor_agree(b, a, s, x, k2);
    }
}

/// A child list with `s` taken out of it.
pub open spec fn strip(c: Seq<usize>, s: usize) -> Seq<usize> {
    if c.contains(s) {
        c.remove(c.index_of(s))
    } else {
        c
    }
}

/// `b` is `a` except for where node `s` hangs: its parent and the child
/// lists that hold it may differ, nothing else.
pub open spec fn same_but_placement(a: Seq<Node>, b: Seq<Node>, s: usize) -> bool {
    &&& a.len() == b.len()
    &&& forall|i: int|
        0 <= i < a.len() ==> (#[trigger] b[i]) == (Node { children: b[i].children, parent: b[i].parent, ..a[i] })
    &&& forall|i: int| 0 <= i < a.len() && i != s ==> (#[trigger] b[i]).parent == a[i].parent
    &&& forall|i: int| 0 <= i < a.len() ==> strip((#[trigger] b[i]).children@, s) == strip(a[i].children@, s)
}

proof fn lemma_strip_free(c: Seq<usize>, s: usize)
    requires
        !c.contains(s),
    ensures
        strip(c, s) == c,
{
}

proof fn lemma_strip_attach(c: Seq<usize>, s: usize, at: Option<usize>)
    requires
        !c.contains(s),
        c.no_duplicates(),
    ensures
        strip(attach(c, s, at), s) == c,
{
    let j: int = match at {
        Some(j) => if (j as int) < c.len() { j as int } else { c.len() as int },
        None => c.len() as int,
    };
    assert(attach(c, s, at) =~= c.insert(j, s));
    lemma_seq_insert_elem(c, j, s);
    let d = c.insert(j, s);
    assert(d[j] == s);
    assert(d.contains(s));
    let q = d.index_of(s);
    assert(d[q] == s);
    if q != j {
        assert(d.no_duplicates());
    }
    assert(d.remove(j) =~= c);
}

proof fn lemma_detached_is_strip(b: Seq<Node>, s: usize, i: int)
    requires
        forest(b),
        b.len() <= usize::MAX,
        (s as int) < b.len(),
        0 <= i < b.len(),
    ensures
        strip(b[i].children@, s) == if b[s as int].parent == Some(i as usize) {
            b[i].children@.remove(b[i].children@.index_of(s))
        } else {
            b[i].children@
        },
        !strip(b[i].children@, s).contains(s),
        strip(b[i].children@, s).no_duplicates(),
{
    let c = b[i].children@;
    assert(c.no_duplicates());
    if c.contains(s) {
        let j = choose|j: int| 0 <= j < c.len() && c[j] == s;
        assert(c[j] == s);
        assert(b[s as int].parent == Some(i as usize));
        lemma_seq_remove_elem(c, j, s);
    }
    if b[s as int].parent == Some(i as usize) {
        assert(c.contains(s));
    }
}

/// A reparent step keeps the relation "same but for where `s` hangs".
pub proof fn lemma_move_same_but_placement(a: Seq<Node>, b: Seq<Node>, c: Seq<Node>, s: usize, t: Option<usize>, at: Option<usize>)
    requires
        same_but_placement(a, b, s),
        forest(b),
        b.len() <= usize::MAX,
        (s as int) < b.len(),
        t matches Some(tp) ==> (tp as int) < b.len(),
        moved_to(b, c, s, t, at),
    ensures
        same_but_placement(a, c, s),
{
    assert forall|i: int| 0 <= i < a.len() implies strip((#[trigger] c[i]).children@, s) == strip(a[i].children@, s) by {
        lemma_detached_is_strip(b, s, i);
        let d = strip(b[i].children@, s);
        if t == Some(i as usize) {
            lemma_strip_attach(d, s, at);
        } else {
            lemma_strip_free(d, s);
        }
    }
    assert forall|i: int|
        0 <= i < a.len() implies (#[trigger] c[i]) == (Node { children: c[i].children, parent: c[i].parent, ..a[i] }) by {
        assert(b[i] == (Node { children: b[i].children, parent: b[i].parent, ..a[i] }));
        if i != s {
            assert(c[i] == (Node { children: c[i].children, ..b[i] }));
        }
    }
}

/// Cancelling a reparent puts everything back: however node `s` was moved
/// around, attaching it again under its original parent at its original
/// position restores every node of the forest.
pub proof fn lemma_cancel_restores(orig: Seq<Node>, cur: Seq<Node>, restored: Seq<Node>, s: usize, pos: usize)
    requires
        forest(orig),
        forest(cur),
        orig.len() <= usize::MAX,
        (s as int) < orig.len(),
        orig[s as int].parent matches Some(p) ==> (pos as int) < orig[p as int].children@.len() && orig[p as int].children@[pos as int] == s,
        same_but_placement(orig, cur, s),
        moved_to(cur, restored, s, orig[s as int].parent, Some(pos)),
    ensures
        crate::models::same_nodes(restored, orig),
{
    let op = orig[s as int].parent;
    assert forall|i: int| 0 <= i < orig.len() implies crate::models::same_node(#[trigger] restored[i], orig[i]) by {
        lemma_detached_is_strip(cur, s, i);
        lemma_detached_is_strip(orig, s, i);
        let c = orig[i].children@;
        if op == Some(i as usize) {
            assert(op->0 as int == i);
            lemma_seq_remove_elem(c, pos as int, s);
            let d = c.remove(pos as int);
            assert(strip(c, s) == d);
            if (pos as int) < d.len() {
                assert(d.insert(pos as int, s) =~= c);
            } else {
                assert(d.push(s) =~= c);
            }
        } else {
            assert(!c.contains(s)) by {
                if c.contains(s) {
                    let j = choose|j: int| 0 <= j < c.len() && c[j] == s;
                    assert(c[j] == s);
                }
            }
        }
        assert(cur[i] == (Node { children: cur[i].children, parent: cur[i].parent, ..orig[i] }));
        if i != s {
            assert(restored[i] == (Node { children: restored[i].children, ..cur[i] }));
        }
    }
}

/// Append `node`, a fresh leaf under `p`, to the forest and list it last
/// among the children of `p`; returns its index.
pub fn push_child(nodes: &mut Vec<Node>, node: Node, p: usize) -> (id: usize)
    requires
        forest(old(nodes)@),
        (p as int) < old(nodes)@.len(),
        old(nodes)@.len() < usize::MAX,
        node.parent == Some(p),
        node.children@.len() == 0,
        node.links@.len() == 0,
    ensures
        id == old(nodes)@.len(),
        forest(final(nodes)@),
        final(nodes)@.len() == old(nodes)@.len() + 1,
        final(nodes)@[id as int] == node,
        final(nodes)@[p as int] == (Node { children: final(nodes)@[p as int].children, ..old(nodes)@[p as int] }),
        final(nodes)@[p as int].children@ == old(nodes)@[p as int].children@.push(id),
        forall|i: int| 0 <= i < old(nodes)@.len() && i != p ==> #[trigger] final(nodes)@[i] == old(nodes)@[i],
{
    let ghost old_nodes = nodes@;
    let id = nodes.len();
    nodes.push(node);
    proof {
        assert(!old_nodes[p as int].children@.contains(id)) by {
            if old_nodes[p as int].children@.contains(id) {
                let j = choose|j: int| 0 <= j < old_nodes[p as int].children@.len() && old_nodes[p as int].children@[j] == id;
                assert(old_nodes[p as int].children@[j] == id);
            }
        }
        lemma_seq_insert_elem(old_nodes[p as int].children@, old_nodes[p as int].children@.len() as int, id);
        assert(old_nodes[p as int].children@.push(id) =~= old_nodes[p as int].children@.insert(old_nodes[p as int].children@.len() as int, id));
    }
    nodes[p].children.push(id);
    proof {
        let new = nodes@;
        let rank = choose|rank: Seq<nat>| ranked(old_nodes, rank);
        let nr = rank.push(rank[p as int] + 1);
        assert(ranked(new, nr)) by {
            assert forall|c: int| #![trigger new[c].parent] 0 <= c < new.len() && new[c].parent is Some implies nr[new[c].parent->0 as int] < nr[c] by {
                if c < old_nodes.len() {
                    assert(new[c].parent == old_nodes[c].parent);
                }
            }
        }
        assert forall|c: int|
            #![trigger new[c].parent]
            0 <= c < new.len() && new[c].parent is Some implies {
                &&& (new[c].parent->0 as int) < new.len()
                &&& new[new[c].parent->0 as int].children@.contains(c as usize)
            } by {
            if c < old_nodes.len() {
                assert(new[c].parent == old_nodes[c].parent);
                let q = new[c].parent->0;
                assert(old_nodes[q as int].children@.contains(c as usize));
                if q == p {
                    assert(new[p as int].children@.contains(c as usize));
                }
            } else {
                assert(new[p as int].children@[new[p as int].children@.len() - 1] == id);
            }
        }
        assert forall|q: int|
            #![trigger new[q].children]
            0 <= q < new.len() implies {
                &&& new[q].children@.no_duplicates()
                &&& forall|j: int|
                    #![trigger new[q].children@[j]]
                    0 <= j < new[q].children@.len() ==> {
                        &&& (new[q].children@[j] as int) < new.len()
                        &&& new[new[q].children@[j] as int].parent == Some(q as usize)
                    }
            } by {
            if q < old_nodes.len() {
                assert(old_nodes[q].children@.no_duplicates());
                assert forall|j: int|
                    #![trigger new[q].children@[j]]
                    0 <= j < new[q].children@.len() implies {
                        &&& (new[q].children@[j] as int) < new.len()
                        &&& new[new[q].children@[j] as int].parent == Some(q as usize)
                    } by {
                    if q == p && j == new[q].children@.len() - 1 {
                    } else {
                        assert(new[q].children@[j] == old_nodes[q].children@[j]);
                        let c = old_nodes[q].children@[j] as int;
                        assert(new[c] == old_nodes[c] || c == p);
                    }
                }
            }
        }
        assert forall|i: int, k: int|
            #![trigger new[i].links@[k]]
            0 <= i < new.len() && 0 <= k < new[i].links@.len() implies (new[i].links@[k] as int) < new.len() by {
            if i < old_nodes.len() {
                assert(new[i].links@ == old_nodes[i].links@);
                assert(old_nodes[i].links@[k] == new[i].links@[k]);
            }
        }
    }
    id
}

/// Append `node`, a fresh root, to the forest; returns its index.
pub fn push_root(nodes: &mut Vec<Node>, node: Node) -> (id: usize)
    requires
        forest(old(nodes)@),
        old(nodes)@.len() < usize::MAX,
        node.parent is None,
        node.children@.len() == 0,
        node.links@.len() == 0,
    ensures
        id == old(nodes)@.len(),
        forest(final(nodes)@),
        final(nodes)@ == old(nodes)@.push(node),
{
    let ghost old_nodes = nodes@;
    let id = nodes.len();
    nodes.push(node);
    proof {
        let new = nodes@;
        let rank = choose|rank: Seq<nat>| ranked(old_nodes, rank);
        let nr = rank.push(0);
        assert(ranked(new, nr)) by {
            assert forall|c: int| #![trigger new[c].parent] 0 <= c < new.len() && new[c].parent is Some implies nr[new[c].parent->0 as int] < nr[c] by {
                assert(new[c] == old_nodes[c]);
            }
        }
        assert forall|c: int|
            #![trigger new[c].parent]
            0 <= c < new.len() && new[c].parent is Some implies {
                &&& (new[c].parent->0 as int) < new.len()
                &&& new[new[c].parent->0 as int].children@.contains(c as usize)
            } by {
            assert(new[c] == old_nodes[c]);
        }
        assert forall|q: int|
            #![trigger new[q].children]
            0 <= q < new.len() implies {
                &&& new[q].children@.no_duplicates()
                &&& forall|j: int|
                    #![trigger new[q].children@[j]]
                    0 <= j < new[q].children@.len() ==> {
                        &&& (new[q].children@[j] as int) < new.len()
                        &&& new[new[q].children@[j] as int].parent == Some(q as usize)
                    }
            } by {
            if q < old_nodes.len() {
                assert(new[q] == old_nodes[q]);
                assert forall|j: int|
                    #![trigger new[q].children@[j]]
                    0 <= j < new[q].children@.len() implies {
                        &&& (new[q].children@[j] as int) < new.len()
                        &&& new[new[q].children@[j] as int].parent == Some(q as usize)
                    } by {
                    assert(new[q].children@[j] == old_nodes[q].children@[j]);
                    let c = old_nodes[q].children@[j] as int;
                    assert(new[c] == old_nodes[c]);
                }
            }
        }
        assert forall|i: int, k: int|
            #![trigger new[i].links@[k]]
            0 <= i < new.len() && 0 <= k < new[i].links@.len() implies (new[i].links@[k] as int) < new.len() by {
            if i < old_nodes.len() {
                assert(new[i] == old_nodes[i]);
                assert(old_nodes[i].links@[k] == new[i].links@[k]);
            }
        }
    }
    id
}

} // verus!
