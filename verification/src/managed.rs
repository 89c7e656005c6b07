//! The virtual nodes that mirror a node's time tags on the canvas: a
//! "[Times]" group under the node and one node per time tag under it.

use vstd::prelude::*;
use std::collections::HashSet;
use crate::app::App;
use crate::clock::{date_range, format_local_time};
use crate::duration::{duration_text, format_duration};
use crate::forest::{forest, push_child, removal_of};
use crate::models::{ManagedNodeType, Node, TimeTag};
use crate::text::eq_lit;

verus! {

/// No two time tags of a list share a key.
pub open spec fn keys_distinct(times: Seq<(String, TimeTag)>) -> bool {
    forall|a: int, b: int| 0 <= a < b < times.len() ==> (#[trigger] times[a]).0@ != (#[trigger] times[b]).0@
}

/// Every node's time tags have distinct keys and times that chrono can turn
/// into dates.
pub open spec fn times_ok(nodes: Seq<Node>) -> bool {
    forall|i: int| 0 <= i < nodes.len() ==> {
        &&& keys_distinct(#[trigger] nodes[i].times@)
        &&& forall|j: int|
            0 <= j < nodes[i].times@.len() ==> -date_range() <= (#[trigger] nodes[i].times@[j]).1.timestamp
                <= date_range()
    }
}

/// The label of the node showing time tag `(key, tag)`: "duration: 1h 2m"
/// for a duration, otherwise the key, ": " and the local date and time
/// (whose text depends on the machine's time zone), then " (recurring)"
/// when the tag repeats.
pub open spec fn time_label_ok(key: Seq<char>, tag: TimeTag, label: Seq<char>) -> bool {
    if key == "duration"@ {
        label == "duration: "@ + duration_text(tag.timestamp as int)
    } else {
        exists|v: Seq<char>|
            label == key + ": "@ + v + (if tag.pattern is Some {
                " (recurring)"@
            } else {
                ""@
            })
    }
}

/// Node `t` is a child of `g` that shows time tag `(key, tag)`.
pub open spec fn shows_tag(nodes: Seq<Node>, g: int, t: int, key: String, tag: TimeTag) -> bool {
    &&& 0 <= t < nodes.len()
    &&& nodes[g].children@.contains(t as usize)
    &&& nodes[t].managed matches Some(ManagedNodeType::TimeTag { key: k }) && k@ == key@
    &&& time_label_ok(key@, tag, nodes[t].label@)
}

/// Node `i` has a "[Times]" child `g` that shows each of `times`, all of
/// them kept (outside `gone`).
pub open spec fn synced_at(nodes: Seq<Node>, gone: Set<usize>, i: int, times: Seq<(String, TimeTag)>) -> bool {
    exists|g: int|
        #![trigger nodes[g]]
        0 <= g < nodes.len() && nodes[i].children@.contains(g as usize) && nodes[g].managed == Some(
            ManagedNodeType::TimeGroup,
        ) && !gone.contains(g as usize) && forall|j: int|
            0 <= j < times.len() ==> exists|t: int|
                #![trigger nodes[t]]
                shows_tag(nodes, g, t, (#[trigger] times[j]).0, times[j].1) && !gone.contains(t as usize)
}

/// A node that needs a "[Times]" group: a real node with time tags.
pub open spec fn wants_group(n: Node) -> bool {
    n.managed is None && n.times@.len() > 0
}

/// The key of a managed node showing a time tag.
pub open spec fn tag_key(n: Node) -> Option<Seq<char>> {
    match n.managed {
        Some(ManagedNodeType::TimeTag { key }) => Some(key@),
        _ => None,
    }
}

/// `key` is the key of one of the time tags of `n`.
pub open spec fn has_key(n: Node, key: Seq<char>) -> bool {
    exists|j: int| 0 <= j < n.times@.len() && (#[trigger] n.times@[j]).0@ == key
}

/// `after` grows `before`: no node goes, and each node's child list only
/// gets nodes added after `before`'s appended at its end.
pub open spec fn grows(before: Seq<Node>, after: Seq<Node>) -> bool {
    &&& after.len() >= before.len()
    &&& forall|k: int|
        0 <= k < before.len() ==> {
            &&& (#[trigger] after[k]).children@.len() >= before[k].children@.len()
            &&& after[k].children@.take(before[k].children@.len() as int) == before[k].children@
            &&& forall|c: int|
                before[k].children@.len() <= c < after[k].children@.len() ==> after[k].children@[c] as int >= before.len()
        }
}

proof fn lemma_grows_trans(a: Seq<Node>, b: Seq<Node>, c: Seq<Node>)
    requires
        grows(a, b),
        grows(b, c),
    ensures
        grows(a, c),
{
    assert forall|k: int| 0 <= k < a.len() implies {
        &&& (#[trigger] c[k]).children@.len() >= a[k].children@.len()
        &&& c[k].children@.take(a[k].children@.len() as int) == a[k].children@
        &&& forall|x: int| a[k].children@.len() <= x < c[k].children@.len() ==> c[k].children@[x] as int >= a.len()
    } by {
        let la = a[k].children@.len() as int;
        let lb = b[k].children@.len() as int;
        assert(b[k] == b[k]);
        assert(c[k].children@.take(la) =~= c[k].children@.take(lb).take(la));
        assert forall|x: int| la <= x < c[k].children@.len() implies c[k].children@[x] as int >= a.len() by {
            if x < lb {
                assert(c[k].children@[x] == c[k].children@.take(lb)[x]);
                assert(b[k].children@[x] as int >= a.len());
            }
        }
    }
}

proof fn lemma_grows_refl(a: Seq<Node>)
    ensures
        grows(a, a),
{
    assert forall|k: int| 0 <= k < a.len() implies (#[trigger] a[k]).children@.take(a[k].children@.len() as int) == a[k].children@ by {
        assert(a[k].children@.take(a[k].children@.len() as int) =~= a[k].children@);
    }
}

/// Marked node `d` is accounted for by the time tags of `a`, its group
/// hanging under a node before `bound`: a marked group hangs under a real
/// node with time tags, a marked tag node under a marked group, for one of
/// the time tags of the group's parent.
pub open spec fn acc_rec(a: Seq<Node>, nodes: Seq<Node>, rec: Seq<bool>, d: int, bound: int) -> bool {
    match nodes[d].managed {
        Some(ManagedNodeType::TimeGroup) => nodes[d].parent matches Some(p) && (p as int) < bound && wants_group(
            a[p as int],
        ),
        Some(ManagedNodeType::TimeTag { key }) => nodes[d].parent matches Some(g) && (g as int) < rec.len() && rec[g as int]
            && nodes[g as int].managed == Some(ManagedNodeType::TimeGroup) && (nodes[g as int].parent matches Some(p)
            && (p as int) < bound && has_key(a[p as int], key@)),
        None => false,
    }
}

/// What the marks of a sync in progress keep: every marked node is
/// accounted for, no two marked groups share a parent, and no two marked
/// tag nodes share a parent and a key.
pub open spec fn rec_inv(a: Seq<Node>, nodes: Seq<Node>, rec: Seq<bool>, bound: int) -> bool {
    &&& bound <= a.len()
    &&& rec.len() == nodes.len()
    &&& forall|d: int| 0 <= d < rec.len() && #[trigger] rec[d] ==> acc_rec(a, nodes, rec, d, bound)
    &&& forall|d1: int, d2: int|
        #![trigger rec[d1], rec[d2]]
        0 <= d1 < rec.len() && 0 <= d2 < rec.len() && rec[d1] && rec[d2] && nodes[d1].managed == Some(
            ManagedNodeType::TimeGroup,
        ) && nodes[d2].managed == Some(ManagedNodeType::TimeGroup) && nodes[d1].parent == nodes[d2].parent ==> d1 == d2
    &&& forall|d1: int, d2: int|
        #![trigger rec[d1], rec[d2]]
        0 <= d1 < rec.len() && 0 <= d2 < rec.len() && rec[d1] && rec[d2] && tag_key(nodes[d1]) is Some && tag_key(
            nodes[d1],
        ) == tag_key(nodes[d2]) && nodes[d1].parent == nodes[d2].parent ==> d1 == d2
}

proof fn lemma_acc_transfer(a: Seq<Node>, n1: Seq<Node>, r1: Seq<bool>, n2: Seq<Node>, r2: Seq<bool>, d: int, bound: int)
    requires
        0 <= d < n1.len(),
        n1.len() <= n2.len(),
        r1.len() == n1.len(),
        r2.len() == n2.len(),
        forall|k: int| 0 <= k < n1.len() ==> (#[trigger] n2[k]).parent == n1[k].parent && n2[k].managed == n1[k].managed,
        forall|k: int| 0 <= k < r1.len() && #[trigger] r1[k] ==> r2[k],
        acc_rec(a, n1, r1, d, bound),
    ensures
        acc_rec(a, n2, r2, d, bound),
{
    assert(n2[d].parent == n1[d].parent && n2[d].managed == n1[d].managed);
    match n1[d].managed {
        Some(ManagedNodeType::TimeTag { key }) => {
            let g = n1[d].parent.unwrap();
            assert(n2[g as int].parent == n1[g as int].parent && n2[g as int].managed == n1[g as int].managed);
            assert(r2[g as int]);
        },
        _ => {},
    }
}

proof fn lemma_rec_inv_bound(a: Seq<Node>, nodes: Seq<Node>, rec: Seq<bool>, b1: int, b2: int)
    requires
        rec_inv(a, nodes, rec, b1),
        b1 <= b2 <= a.len(),
    ensures
        rec_inv(a, nodes, rec, b2),
{
    assert forall|d: int| 0 <= d < rec.len() && #[trigger] rec[d] implies acc_rec(a, nodes, rec, d, b2) by {
        assert(acc_rec(a, nodes, rec, d, b1));
    }
}

/// The marks stay in order when node `dn` is newly marked (or relabelled)
/// and nodes are only added or relabelled.
proof fn lemma_rec_inv_step(a: Seq<Node>, n1: Seq<Node>, r1: Seq<bool>, n2: Seq<Node>, r2: Seq<bool>, bound: int, dn: int)
    requires
        rec_inv(a, n1, r1, bound),
        n1.len() <= n2.len(),
        r2.len() == n2.len(),
        forall|k: int| 0 <= k < n1.len() ==> (#[trigger] n2[k]).parent == n1[k].parent && n2[k].managed == n1[k].managed,
        forall|k: int| 0 <= k < r1.len() && #[trigger] r1[k] ==> r2[k],
        forall|k: int| 0 <= k < r2.len() && #[trigger] r2[k] ==> (k < r1.len() && r1[k]) || k == dn,
        0 <= dn < n2.len(),
        r2[dn],
        acc_rec(a, n2, r2, dn, bound),
        n2[dn].managed == Some(ManagedNodeType::TimeGroup) ==> forall|d: int|
            0 <= d < r1.len() && #[trigger] r1[d] && d != dn && n1[d].managed == Some(ManagedNodeType::TimeGroup) ==> n1[d].parent
                != n2[dn].parent,
        tag_key(n2[dn]) is Some ==> forall|d: int|
            0 <= d < r1.len() && #[trigger] r1[d] && d != dn && tag_key(n1[d]) == tag_key(n2[dn]) ==> n1[d].parent != n2[dn].parent,
    ensures
        rec_inv(a, n2, r2, bound),
{
    assert forall|d: int| 0 <= d < r2.len() && #[trigger] r2[d] implies acc_rec(a, n2, r2, d, bound) by {
        if d != dn {
            lemma_acc_transfer(a, n1, r1, n2, r2, d, bound);
        }
    }
    assert forall|d1: int, d2: int|
        #![trigger r2[d1], r2[d2]]
        0 <= d1 < r2.len() && 0 <= d2 < r2.len() && r2[d1] && r2[d2] && n2[d1].managed == Some(ManagedNodeType::TimeGroup)
            && n2[d2].managed == Some(ManagedNodeType::TimeGroup) && n2[d1].parent == n2[d2].parent implies d1 == d2 by {
        if d1 != dn && d2 != dn {
            assert(r1[d1] && r1[d2]);
            assert(n2[d1] == n2[d1] && n2[d2] == n2[d2]);
        } else if d1 == dn && d2 != dn {
            assert(r1[d2]);
            assert(n2[d2].parent == n1[d2].parent);
        } else if d2 == dn && d1 != dn {
            assert(r1[d1]);
            assert(n2[d1].parent == n1[d1].parent);
        }
    }
    assert forall|d1: int, d2: int|
        #![trigger r2[d1], r2[d2]]
        0 <= d1 < r2.len() && 0 <= d2 < r2.len() && r2[d1] && r2[d2] && tag_key(n2[d1]) is Some && tag_key(n2[d1])
            == tag_key(n2[d2]) && n2[d1].parent == n2[d2].parent implies d1 == d2 by {
        if d1 != dn && d2 != dn {
            assert(r1[d1] && r1[d2]);
            assert(n2[d1] == n2[d1] && n2[d2] == n2[d2]);
        } else if d1 == dn && d2 != dn {
            assert(r1[d2]);
            assert(n2[d2].parent == n1[d2].parent);
        } else if d2 == dn && d1 != dn {
            assert(r1[d1]);
            assert(n2[d1].parent == n1[d1].parent);
        }
    }
}

/// Every managed node of `mid` outside `gone` is accounted for by the time
/// tags of `a`: a group hangs under a real node with time tags, and no
/// other kept group does; a tag node hangs under a kept group, for one of
/// the time tags of the group's parent, and no other kept tag node of that
/// group has its key.
pub open spec fn kept_accounted(a: Seq<Node>, mid: Seq<Node>, gone: Set<usize>) -> bool {
    &&& forall|d: int|
        0 <= d < mid.len() && (#[trigger] mid[d]).managed is Some && !gone.contains(d as usize) ==> match mid[d].managed {
            Some(ManagedNodeType::TimeGroup) => mid[d].parent matches Some(p) && (p as int) < a.len() && wants_group(
                a[p as int],
            ),
            Some(ManagedNodeType::TimeTag { key }) => mid[d].parent matches Some(g) && (g as int) < mid.len()
                && !gone.contains(g) && mid[g as int].managed == Some(ManagedNodeType::TimeGroup) && (mid[g as int].parent matches Some(
                p,
            ) && (p as int) < a.len() && has_key(a[p as int], key@)),
            None => true,
        }
    &&& forall|d1: int, d2: int|
        #![trigger mid[d1], mid[d2]]
        0 <= d1 < mid.len() && 0 <= d2 < mid.len() && !gone.contains(d1 as usize) && !gone.contains(d2 as usize)
            && mid[d1].managed == Some(ManagedNodeType::TimeGroup) && mid[d2].managed == Some(ManagedNodeType::TimeGroup)
            && mid[d1].parent == mid[d2].parent ==> d1 == d2
    &&& forall|d1: int, d2: int|
        #![trigger mid[d1], mid[d2]]
        0 <= d1 < mid.len() && 0 <= d2 < mid.len() && !gone.contains(d1 as usize) && !gone.contains(d2 as usize)
            && tag_key(mid[d1]) is Some && tag_key(mid[d1]) == tag_key(mid[d2]) && mid[d1].parent == mid[d2].parent ==> d1
            == d2
}

/// `mid` extends `old`: the nodes of `old` keep everything but the real
/// nodes' child lists and the managed nodes' labels and child lists, a
/// child list only gets nodes added after `old`'s appended, and the nodes
/// added are managed.
pub open spec fn extends(old: Seq<Node>, mid: Seq<Node>) -> bool {
    &&& mid.len() >= old.len()
    &&& forall|k: int|
        0 <= k < old.len() && old[k].managed is None ==> (#[trigger] mid[k]) == (Node { children: mid[k].children, ..old[k] })
    &&& forall|k: int| 0 <= k < old.len() ==> (#[trigger] mid[k]).parent == old[k].parent && mid[k].managed == old[k].managed
    &&& forall|k: int| old.len() <= k < mid.len() ==> (#[trigger] mid[k]).managed is Some
    &&& grows(old, mid)
}

/// The label for the node showing time tag `(key, tag)`.
fn time_label(key: &String, tag: &TimeTag) -> (r: String)
    requires
        -date_range() <= tag.timestamp <= date_range(),
    ensures
        time_label_ok(key@, *tag, r@),
{
    proof {
        reveal_strlit("duration");
        reveal_strlit("duration: ");
        reveal_strlit(": ");
    }
    if eq_lit(key, "duration") {
        let mut s = String::from_str("duration: ");
        let d = format_duration(tag.timestamp);
        s.append(d.as_str());
        s
    } else {
        let v = format_local_time(tag.timestamp, "%Y-%m-%d %H:%M");
        let mut s = key.clone();
        s.append(": ");
        s.append(v.as_str());
        let ghost head = s@;
        match &tag.pattern {
            Some(_) => {
                s.append(" (recurring)");
            },
            None => {
                proof {
                    reveal_strlit("");
                    assert(s@ =~= head + ""@);
                }
            },
        }
        proof {
            assert(head == key@ + ": "@ + v@);
            assert(s@ == key@ + ": "@ + v@ + (if tag.pattern is Some {
                " (recurring)"@
            } else {
                ""@
            }));
        }
        s
    }
}

/// The first child of `i` that is a "[Times]" group, if any.
fn find_group(nodes: &Vec<Node>, i: usize) -> (r: Option<usize>)
    requires
        forest(nodes@),
        (i as int) < nodes@.len(),
    ensures
        match r {
            Some(g) => (g as int) < nodes@.len() && nodes@[i as int].children@.contains(g) && nodes@[g as int].managed
                == Some(ManagedNodeType::TimeGroup) && exists|p: int|
                0 <= p < nodes@[i as int].children@.len() && nodes@[i as int].children@[p] == g && forall|j: int|
                    0 <= j < p ==> nodes@[#[trigger] nodes@[i as int].children@[j] as int].managed != Some(
                        ManagedNodeType::TimeGroup,
                    ),
            None => forall|j: int|
                0 <= j < nodes@[i as int].children@.len() ==> nodes@[#[trigger] nodes@[i as int].children@[j] as int].managed
                    != Some(ManagedNodeType::TimeGroup),
        },
{
    let cs = &nodes[i].children;
    let mut k: usize = 0;
    while k < cs.len()
        invariant
            forest(nodes@),
            (i as int) < nodes@.len(),
            cs@ == nodes@[i as int].children@,
            k <= cs@.len(),
            forall|j: int| 0 <= j < k ==> nodes@[#[trigger] cs@[j] as int].managed != Some(ManagedNodeType::TimeGroup),
        decreases cs@.len() - k,
    {
        let c = cs[k];
        proof {
            assert(nodes@[i as int].children@[k as int] == c);
        }
        match &nodes[c].managed {
            Some(ManagedNodeType::TimeGroup) => {
                proof {
                    assert(cs@[k as int] == c);
                }
                return Some(c);
            },
            _ => {
                proof {
                    assert(nodes@[cs@[k as int] as int].managed != Some(ManagedNodeType::TimeGroup));
                }
            },
        }
        k = k + 1;
    }
    None
}

/// `n` is a managed node showing the time tag `key`.
pub open spec fn tag_node_for(n: Node, key: Seq<char>) -> bool {
    n.managed matches Some(ManagedNodeType::TimeTag { key: k }) && k@ == key
}

/// The first child of `g` that shows the time tag `key`, if any.
fn find_tag(nodes: &Vec<Node>, g: usize, key: &String) -> (r: Option<usize>)
    requires
        forest(nodes@),
        (g as int) < nodes@.len(),
    ensures
        match r {
            Some(t) => (t as int) < nodes@.len() && nodes@[g as int].children@.contains(t) && tag_node_for(nodes@[t as int], key@)
                && exists|p: int|
                0 <= p < nodes@[g as int].children@.len() && nodes@[g as int].children@[p] == t && forall|j: int|
                    0 <= j < p ==> !tag_node_for(nodes@[#[trigger] nodes@[g as int].children@[j] as int], key@),
            None => forall|j: int|
                0 <= j < nodes@[g as int].children@.len() ==> !tag_node_for(nodes@[#[trigger] nodes@[g as int].children@[j] as int], key@),
        },
{
    let cs = &nodes[g].children;
    let mut k: usize = 0;
    while k < cs.len()
        invariant
            forest(nodes@),
            (g as int) < nodes@.len(),
            cs@ == nodes@[g as int].children@,
            k <= cs@.len(),
            forall|j: int| 0 <= j < k ==> !tag_node_for(nodes@[#[trigger] cs@[j] as int], key@),
        decreases cs@.len() - k,
    {
        let c = cs[k];
        proof {
            assert(nodes@[g as int].children@[k as int] == c);
        }
        match &nodes[c].managed {
            Some(ManagedNodeType::TimeTag { key: k2 }) => {
                if *k2 == *key {
                    proof {
                        assert(cs@[k as int] == c);
                    }
                    return Some(c);
                }
            },
            _ => {},
        }
        k = k + 1;
    }
    None
}

/// `rec` marks managed nodes only, one entry per node.
pub open spec fn rec_ok(nodes: Seq<Node>, rec: Seq<bool>) -> bool {
    &&& rec.len() == nodes.len()
    &&& forall|k: int| 0 <= k < rec.len() && #[trigger] rec[k] ==> nodes[k].managed is Some
}

/// The managed nodes not marked in `rec`.
pub open spec fn unmarked(rec: Seq<bool>) -> Set<usize> {
    Set::new(|k: usize| (k as int) < rec.len() && !rec[k as int])
}

/// A fresh managed leaf under `parent`.
fn managed_leaf(label: String, parent: usize, kind: ManagedNodeType) -> (r: Node)
    ensures
        r.label == label,
        r.parent == Some(parent),
        r.children@.len() == 0,
        r.links@.len() == 0,
        r.managed == Some(kind),
        r.row == usize::MAX,
{
    Node {
        label,
        parent: Some(parent),
        children: Vec::new(),
        links: Vec::new(),
        collapsed: false,
        row: usize::MAX,
        world_x: 0,
        world_y: 0,
        world_x_end: 0,
        tags: Vec::new(),
        times: Vec::new(),
        is_managed_note: false,
        managed: Some(kind),
    }
}

/// Make the children of group `g` show each of `times`: an existing node for
/// a key is relabelled and marked, a missing one is added (and marked).
#[verifier::spinoff_prover]
#[verifier::rlimit(80)]
fn reconcile_tags(
    nodes: &mut Vec<Node>,
    rec: &mut Vec<bool>,
    g: usize,
    times: &Vec<(String, TimeTag)>,
    Ghost(a): Ghost<Seq<Node>>,
    Ghost(pi): Ghost<usize>,
)
    requires
        rec_inv(a, old(nodes)@, old(rec)@, pi + 1),
        (pi as int) < a.len(),
        times@ == a[pi as int].times@,
        old(nodes)@[g as int].parent == Some(pi),
        (g as int) < old(rec)@.len() && old(rec)@[g as int],
        forall|d: int| 0 <= d < old(rec)@.len() && #[trigger] old(rec)@[d] ==> old(nodes)@[d].parent != Some(g),
        forest(old(nodes)@),
        rec_ok(old(nodes)@, old(rec)@),
        (g as int) < old(nodes)@.len(),
        old(nodes)@[g as int].managed == Some(ManagedNodeType::TimeGroup),
        old(nodes)@.len() + times@.len() < usize::MAX,
        keys_distinct(times@),
        forall|j: int| 0 <= j < times@.len() ==> -date_range() <= (#[trigger] times@[j]).1.timestamp <= date_range(),
    ensures
        forest(final(nodes)@),
        rec_ok(final(nodes)@, final(rec)@),
        old(nodes)@.len() <= final(nodes)@.len() <= old(nodes)@.len() + times@.len(),
        forall|k: int| 0 <= k < old(rec)@.len() && old(rec)@[k] ==> #[trigger] final(rec)@[k],
        forall|k: int| old(rec)@.len() <= k < final(rec)@.len() ==> #[trigger] final(rec)@[k],
        forall|j: int| 0 <= j < times@.len() ==> exists|t: int|
            #![trigger final(nodes)@[t]]
            shows_tag(final(nodes)@, g as int, t, (#[trigger] times@[j]).0, times@[j].1) && final(rec)@[t],
        final(nodes)@[g as int] == (Node { children: final(nodes)@[g as int].children, ..old(nodes)@[g as int] }),
        forall|x: usize| old(nodes)@[g as int].children@.contains(x) ==> #[trigger] final(nodes)@[g as int].children@.contains(x),
        forall|k: int|
            0 <= k < old(nodes)@.len() && k != g && !(old(nodes)@[k].parent == Some(g) && old(nodes)@[k].managed is Some)
                ==> #[trigger] final(nodes)@[k] == old(nodes)@[k],
        forall|k: int|
            0 <= k < old(nodes)@.len() && old(nodes)@[k].parent == Some(g) ==> #[trigger] final(nodes)@[k] == (Node {
                label: final(nodes)@[k].label,
                ..old(nodes)@[k]
            }),
        forall|k: int| old(nodes)@.len() <= k < final(nodes)@.len() ==> (#[trigger] final(nodes)@[k]).managed is Some
            && final(nodes)@[k].parent == Some(g),
        rec_inv(a, final(nodes)@, final(rec)@, pi + 1),
        grows(old(nodes)@, final(nodes)@),
{
    let ghost n0 = nodes@;
    let ghost r0 = rec@;
    let mut j: usize = 0;
    proof {
        lemma_grows_refl(n0);
    }
    while j < times.len()
        invariant
            rec_inv(a, nodes@, rec@, pi + 1),
            (pi as int) < a.len(),
            times@ == a[pi as int].times@,
            nodes@[g as int].parent == Some(pi),
            rec@[g as int],
            forall|d: int|
                0 <= d < rec@.len() && #[trigger] rec@[d] && nodes@[d].parent == Some(g) ==> (tag_key(nodes@[d]) matches Some(
                    kk,
                ) && exists|q: int| 0 <= q < j && (#[trigger] times@[q]).0@ == kk),
            grows(n0, nodes@),
            j <= times@.len(),
            forest(nodes@),
            rec_ok(nodes@, rec@),
            r0.len() == n0.len(),
            (g as int) < n0.len(),
            n0[g as int].managed == Some(ManagedNodeType::TimeGroup),
            n0.len() <= nodes@.len() <= n0.len() + j,
            n0.len() + times@.len() < usize::MAX,
            keys_distinct(times@),
            forall|q: int| 0 <= q < times@.len() ==> -date_range() <= (#[trigger] times@[q]).1.timestamp <= date_range(),
            forall|k: int| 0 <= k < r0.len() && r0[k] ==> #[trigger] rec@[k],
            forall|k: int| r0.len() <= k < rec@.len() ==> #[trigger] rec@[k],
            forall|q: int| 0 <= q < j ==> exists|t: int|
                #![trigger nodes@[t]]
                shows_tag(nodes@, g as int, t, (#[trigger] times@[q]).0, times@[q].1) && rec@[t],
            nodes@[g as int] == (Node { children: nodes@[g as int].children, ..n0[g as int] }),
            forall|x: usize| n0[g as int].children@.contains(x) ==> #[trigger] nodes@[g as int].children@.contains(x),
            forall|k: int|
                0 <= k < n0.len() && k != g && !(n0[k].parent == Some(g) && n0[k].managed is Some) ==> #[trigger] nodes@[k]
                    == n0[k],
            forall|k: int|
                0 <= k < n0.len() && n0[k].parent == Some(g) ==> #[trigger] nodes@[k] == (Node {
                    label: nodes@[k].label,
                    ..n0[k]
                }),
            forall|k: int| n0.len() <= k < nodes@.len() ==> (#[trigger] nodes@[k]).managed is Some && nodes@[k].parent
                == Some(g),
        decreases times@.len() - j,
    {
        let ghost before = nodes@;
        let ghost rb = rec@;
        let key = &times[j].0;
        let tag = &times[j].1;
        let label = time_label(key, tag);
        match find_tag(nodes, g, key) {
            Some(t) => {
                proof {
                    assert(before[t as int].parent == Some(g)) by {
                        let q = choose|q: int| 0 <= q < before[g as int].children@.len() && before[g as int].children@[q] == t;
                        assert(before[g as int].children@[q] == t);
                    }
                }
                proof {
                    assert(t != g);
                }
                nodes[t].label = label;
                rec.set(t, true);
                proof {
                    assert(nodes@[g as int] == before[g as int]);
                    crate::layout::lemma_forest_same_shape(before, nodes@);
                    assert(shows_tag(nodes@, g as int, t as int, times@[j as int].0, times@[j as int].1));
                    assert forall|q: int| 0 <= q < j + 1 implies exists|t2: int|
                        #![trigger nodes@[t2]]
                        shows_tag(nodes@, g as int, t2, (#[trigger] times@[q]).0, times@[q].1) && rec@[t2] by {
                        if q < j {
                            let t2 = choose|t2: int|
                                #![trigger before[t2]]
                                shows_tag(before, g as int, t2, times@[q].0, times@[q].1) && rb[t2];
                            assert(times@[q].0@ != times@[j as int].0@);
                            assert(t2 != t);
                            assert(nodes@[t2] == before[t2]);
                        }
                    }
                }
                proof {
                    assert forall|k: int| 0 <= k < before.len() implies (#[trigger] nodes@[k]).parent == before[k].parent
                        && nodes@[k].managed == before[k].managed by {
                        if k != t {
                            assert(nodes@[k] == before[k]);
                        }
                    }
                    assert(has_key(a[pi as int], key@)) by {
                        assert(times@[j as int].0@ == key@);
                    }
                    assert(nodes@[g as int] == before[g as int]);
                    assert(acc_rec(a, nodes@, rec@, t as int, pi + 1));
                    assert forall|d: int|
                        0 <= d < rb.len() && #[trigger] rb[d] && d != t && tag_key(before[d]) == tag_key(nodes@[t as int])
                            implies before[d].parent != nodes@[t as int].parent by {
                        if before[d].parent == Some(g) {
                            let q = choose|q: int| 0 <= q < j && (#[trigger] times@[q]).0@ == tag_key(before[d]).unwrap();
                            assert(times@[q].0@ != times@[j as int].0@);
                        }
                    }
                    lemma_rec_inv_step(a, before, rb, nodes@, rec@, pi + 1, t as int);
                    assert forall|d: int|
                        0 <= d < rec@.len() && #[trigger] rec@[d] && nodes@[d].parent == Some(g) implies (tag_key(nodes@[d]) matches Some(
                            kk,
                        ) && exists|q: int| 0 <= q < j + 1 && (#[trigger] times@[q]).0@ == kk) by {
                        if d == t {
                            assert(times@[j as int].0@ == key@);
                        } else {
                            assert(rb[d]);
                            assert(nodes@[d] == before[d]);
                        }
                    }
                    assert(grows(before, nodes@)) by {
                        assert forall|k: int| 0 <= k < before.len() implies (#[trigger] nodes@[k]).children@.take(before[k].children@.len() as int) == before[k].children@ by {
                            assert(nodes@[k].children == before[k].children);
                            assert(before[k].children@.take(before[k].children@.len() as int) =~= before[k].children@);
                        }
                    }
                    lemma_grows_trans(n0, before, nodes@);
                }
            },
            None => {
                let leaf = managed_leaf(label, g, ManagedNodeType::TimeTag { key: key.clone() });
                let t = push_child(nodes, leaf, g);
                rec.push(true);
                proof {
                    assert forall|x: usize| n0[g as int].children@.contains(x) implies #[trigger] nodes@[g as int].children@.contains(x) by {
                        assert(before[g as int].children@.contains(x));
                        let q = choose|q: int| 0 <= q < before[g as int].children@.len() && before[g as int].children@[q] == x;
                        assert(nodes@[g as int].children@[q] == x);
                    }
                    assert(nodes@[g as int].children@.contains(t)) by {
                        assert(nodes@[g as int].children@[nodes@[g as int].children@.len() - 1] == t);
                    }
                    assert(shows_tag(nodes@, g as int, t as int, times@[j as int].0, times@[j as int].1));
                    assert forall|q: int| 0 <= q < j + 1 implies exists|t2: int|
                        #![trigger nodes@[t2]]
                        shows_tag(nodes@, g as int, t2, (#[trigger] times@[q]).0, times@[q].1) && rec@[t2] by {
                        if q < j {
                            let t2 = choose|t2: int|
                                #![trigger before[t2]]
                                shows_tag(before, g as int, t2, times@[q].0, times@[q].1) && rb[t2];
                            assert(nodes@[t2] == before[t2] || t2 == g);
                            assert(rec@[t2] == rb[t2]);
                        }
                    }
                }
                proof {
                    assert forall|k: int| 0 <= k < before.len() implies (#[trigger] nodes@[k]).parent == before[k].parent
                        && nodes@[k].managed == before[k].managed by {
                        if k != g {
                            assert(nodes@[k] == before[k]);
                        }
                    }
                    assert forall|k: int| 0 <= k < rb.len() && #[trigger] rb[k] implies rec@[k] by {
                        assert(rec@[k] == rb[k]);
                    }
                    assert forall|k: int| 0 <= k < rec@.len() && #[trigger] rec@[k] implies (k < rb.len() && rb[k]) || k == t by {
                        if k < rb.len() {
                            assert(rec@[k] == rb[k]);
                        }
                    }
                    assert(has_key(a[pi as int], key@)) by {
                        assert(times@[j as int].0@ == key@);
                    }
                    assert(tag_key(nodes@[t as int]) == Some(key@));
                    assert(acc_rec(a, nodes@, rec@, t as int, pi + 1));
                    assert forall|d: int|
                        0 <= d < rb.len() && #[trigger] rb[d] && d != t && tag_key(before[d]) == tag_key(nodes@[t as int])
                            implies before[d].parent != nodes@[t as int].parent by {
                        if before[d].parent == Some(g) {
                            let q = choose|q: int| 0 <= q < j && (#[trigger] times@[q]).0@ == tag_key(before[d]).unwrap();
                            assert(times@[q].0@ != times@[j as int].0@);
                        }
                    }
                    lemma_rec_inv_step(a, before, rb, nodes@, rec@, pi + 1, t as int);
                    assert forall|d: int|
                        0 <= d < rec@.len() && #[trigger] rec@[d] && nodes@[d].parent == Some(g) implies (tag_key(nodes@[d]) matches Some(
                            kk,
                        ) && exists|q: int| 0 <= q < j + 1 && (#[trigger] times@[q]).0@ == kk) by {
                        if d == t {
                            assert(times@[j as int].0@ == key@);
                        } else {
                            assert(rb[d]);
                            assert(nodes@[d] == before[d]);
                        }
                    }
                    assert(grows(before, nodes@)) by {
                        assert forall|k: int| 0 <= k < before.len() implies {
                            &&& (#[trigger] nodes@[k]).children@.len() >= before[k].children@.len()
                            &&& nodes@[k].children@.take(before[k].children@.len() as int) == before[k].children@
                            &&& forall|c: int|
                                before[k].children@.len() <= c < nodes@[k].children@.len() ==> nodes@[k].children@[c] as int
                                    >= before.len()
                        } by {
                            if k == g {
                                assert(nodes@[k].children@.take(before[k].children@.len() as int) =~= before[k].children@);
                            } else {
                                assert(nodes@[k] == before[k]);
                                assert(before[k].children@.take(before[k].children@.len() as int) =~= before[k].children@);
                            }
                        }
                    }
                    lemma_grows_trans(n0, before, nodes@);
                }
            },
        }
        j = j + 1;
    }
}

/// The number of time tags on the first `k` nodes.
pub open spec fn times_total(nodes: Seq<Node>, k: int) -> nat
    decreases k,
{
    if k <= 0 {
        0
    } else {
        times_total(nodes, k - 1) + nodes[k - 1].times@.len()
    }
}

proof fn lemma_times_total_mono(nodes: Seq<Node>, j: int, k: int)
    requires
        j <= k,
    ensures
        times_total(nodes, j) <= times_total(nodes, k),
    decreases k - j,
{
    if j < k {
        lemma_times_total_mono(nodes, j, k - 1);
    }
}

/// A node synced earlier stays synced while another node `i` gets its group
/// `g`: only `i`, `g` and managed children of `g` change.
proof fn lemma_keep_synced(
    before: Seq<Node>,
    after: Seq<Node>,
    rb: Seq<bool>,
    ra: Seq<bool>,
    i: int,
    g: int,
    q: int,
    times: Seq<(String, TimeTag)>,
)
    requires
        forest(before),
        before.len() <= usize::MAX,
        rb.len() == before.len(),
        after.len() >= before.len(),
        ra.len() >= rb.len(),
        forall|k: int| 0 <= k < rb.len() && #[trigger] rb[k] ==> ra[k],
        forall|k: int|
            0 <= k < before.len() && k != i && k != g && !(before[k].parent == Some(g as usize) && before[k].managed is Some)
                ==> #[trigger] after[k] == before[k],
        0 <= g < before.len() ==> before[g].parent == Some(i as usize) && before[g].managed is Some,
        0 <= q < before.len(),
        0 <= i < before.len(),
        0 <= g < after.len(),
        after.len() <= usize::MAX,
        before[i].managed is None,
        q != i,
        before[q].managed is None,
        synced_at(before, unmarked(rb), q, times),
    ensures
        synced_at(after, unmarked(ra), q, times),
{
    let g2 = choose|g2: int|
        #![trigger before[g2]]
        0 <= g2 < before.len() && before[q].children@.contains(g2 as usize) && before[g2].managed == Some(
            ManagedNodeType::TimeGroup,
        ) && !unmarked(rb).contains(g2 as usize) && forall|j: int|
            0 <= j < times.len() ==> exists|t: int|
                #![trigger before[t]]
                shows_tag(before, g2, t, (#[trigger] times[j]).0, times[j].1) && !unmarked(rb).contains(t as usize);
    assert(before[g2].parent == Some(q as usize)) by {
        let c = choose|c: int| 0 <= c < before[q].children@.len() && before[q].children@[c] == g2 as usize;
        assert(before[q].children@[c] == g2 as usize);
    }
    assert(g2 != g);
    assert(after[g2] == before[g2]);
    assert(after[q] == before[q]);
    assert(ra[g2]);
    assert forall|j: int| 0 <= j < times.len() implies exists|t: int|
        #![trigger after[t]]
        shows_tag(after, g2, t, (#[trigger] times[j]).0, times[j].1) && !unmarked(ra).contains(t as usize) by {
        let t = choose|t: int|
            #![trigger before[t]]
            shows_tag(before, g2, t, times[j].0, times[j].1) && !unmarked(rb).contains(t as usize);
        assert(before[t].parent == Some(g2 as usize)) by {
            let c = choose|c: int| 0 <= c < before[g2].children@.len() && before[g2].children@[c] == t as usize;
            assert(before[g2].children@[c] == t as usize);
        }
        assert(t != g) by {
            if t == g {
                assert(before[g].parent == Some(i as usize));
            }
        }
        assert(t != i) by {
            assert(before[t].managed is Some);
        }
        assert(after[t] == before[t]);
        assert(ra[t]);
    }
    assert(after[g2] == after[g2]);
}

proof fn lemma_kept_from_rec(a: Seq<Node>, mid: Seq<Node>, rec: Seq<bool>, gone: Set<usize>)
    requires
        rec_inv(a, mid, rec, a.len() as int),
        rec_ok(mid, rec),
        gone == orphans(mid, rec),
        mid.len() <= usize::MAX,
    ensures
        kept_accounted(a, mid, gone),
{
    assert forall|d: int| 0 <= d < mid.len() && (#[trigger] mid[d]).managed is Some && !gone.contains(d as usize) implies rec[d] by {
        assert(!orphans(mid, rec).contains(d as usize));
    }
    assert forall|d: int| 0 <= d < mid.len() && (#[trigger] mid[d]).managed is Some && !gone.contains(d as usize) implies match mid[d].managed {
        Some(ManagedNodeType::TimeGroup) => mid[d].parent matches Some(p) && (p as int) < a.len() && wants_group(a[p as int]),
        Some(ManagedNodeType::TimeTag { key }) => mid[d].parent matches Some(g) && (g as int) < mid.len() && !gone.contains(g)
            && mid[g as int].managed == Some(ManagedNodeType::TimeGroup) && (mid[g as int].parent matches Some(p) && (p as int)
            < a.len() && has_key(a[p as int], key@)),
        None => true,
    } by {
        assert(rec[d]);
        assert(acc_rec(a, mid, rec, d, a.len() as int));
        match mid[d].managed {
            Some(ManagedNodeType::TimeTag { key }) => {
                let g = mid[d].parent.unwrap();
                assert(rec[g as int]);
                assert(!orphans(mid, rec).contains(g));
            },
            _ => {},
        }
    }
    assert forall|d1: int, d2: int|
        #![trigger mid[d1], mid[d2]]
        0 <= d1 < mid.len() && 0 <= d2 < mid.len() && !gone.contains(d1 as usize) && !gone.contains(d2 as usize)
            && mid[d1].managed == Some(ManagedNodeType::TimeGroup) && mid[d2].managed == Some(ManagedNodeType::TimeGroup)
            && mid[d1].parent == mid[d2].parent implies d1 == d2 by {
        assert(!orphans(mid, rec).contains(d1 as usize));
        assert(!orphans(mid, rec).contains(d2 as usize));
        assert(rec[d1] && rec[d2]);
    }
    assert forall|d1: int, d2: int|
        #![trigger mid[d1], mid[d2]]
        0 <= d1 < mid.len() && 0 <= d2 < mid.len() && !gone.contains(d1 as usize) && !gone.contains(d2 as usize)
            && tag_key(mid[d1]) is Some && tag_key(mid[d1]) == tag_key(mid[d2]) && mid[d1].parent == mid[d2].parent implies d1
            == d2 by {
        assert(!orphans(mid, rec).contains(d1 as usize));
        assert(!orphans(mid, rec).contains(d2 as usize));
        assert(rec[d1] && rec[d2]);
    }
}

/// The managed nodes that `rec` leaves unmarked: the ones to remove.
pub open spec fn orphans(nodes: Seq<Node>, rec: Seq<bool>) -> Set<usize> {
    Set::new(|k: usize| (k as int) < rec.len() && !rec[k as int] && nodes[k as int].managed is Some)
}

proof fn lemma_synced_fewer_gone(nodes: Seq<Node>, a: Set<usize>, b: Set<usize>, i: int, times: Seq<(String, TimeTag)>)
    requires
        synced_at(nodes, a, i, times),
        b.subset_of(a),
    ensures
        synced_at(nodes, b, i, times),
{
    let g = choose|g: int|
        #![trigger nodes[g]]
        0 <= g < nodes.len() && nodes[i].children@.contains(g as usize) && nodes[g].managed == Some(
            ManagedNodeType::TimeGroup,
        ) && !a.contains(g as usize) && forall|j: int|
            0 <= j < times.len() ==> exists|t: int|
                #![trigger nodes[t]]
                shows_tag(nodes, g, t, (#[trigger] times[j]).0, times[j].1) && !a.contains(t as usize);
    assert(nodes[g] == nodes[g]);
    assert forall|j: int| 0 <= j < times.len() implies exists|t: int|
        #![trigger nodes[t]]
        shows_tag(nodes, g, t, (#[trigger] times[j]).0, times[j].1) && !b.contains(t as usize) by {
        let t = choose|t: int|
            #![trigger nodes[t]]
            shows_tag(nodes, g, t, times[j].0, times[j].1) && !a.contains(t as usize);
        assert(nodes[t] == nodes[t]);
    }
}

/// `b` is `a` once its managed nodes are in line with the time tags: `mid`
/// is `a`'s node list with the groups and tag nodes added or relabelled, and
/// `gone` the managed nodes that no time tag accounts for, which are removed.
pub open spec fn synced(a: App, mid: Seq<Node>, gone: Set<usize>, b: App) -> bool {
    &&& extends(a.nodes@, mid)
    &&& forall|d: usize| #[trigger] gone.contains(d) ==> (d as int) < mid.len() && mid[d as int].managed is Some
    &&& kept_accounted(a.nodes@, mid, gone)
    &&& forall|i: int|
        0 <= i < a.nodes@.len() && wants_group(#[trigger] a.nodes@[i]) ==> synced_at(mid, gone, i, a.nodes@[i].times@)
    &&& gone.len() > 0 ==> {
        &&& removal_of(mid, gone, b.nodes@)
        &&& b.selected == match crate::forest::remap_index(gone, a.selected) {
            Some(i) => i,
            None => 0,
        }
        &&& b.last_link_origin == crate::forest::remap_opt(gone, a.last_link_origin)
    }
    &&& gone.len() == 0 ==> b.nodes@ == mid && b.selected == a.selected && b.last_link_origin == a.last_link_origin
    &&& b == (App { nodes: b.nodes, selected: b.selected, last_link_origin: b.last_link_origin, ..a })
}

/// Give node `i` its "[Times]" group (reusing the first existing one) with
/// one node per time tag; returns the group.
fn attach_times(nodes: &mut Vec<Node>, rec: &mut Vec<bool>, i: usize, Ghost(a): Ghost<Seq<Node>>) -> (g: usize)
    requires
        rec_inv(a, old(nodes)@, old(rec)@, i as int),
        (i as int) < a.len(),
        a.len() <= old(nodes)@.len(),
        wants_group(a[i as int]),
        old(nodes)@[i as int].times@ == a[i as int].times@,
        forall|k: int| 0 <= k < a.len() ==> (#[trigger] old(nodes)@[k]).managed == a[k].managed,
        forest(old(nodes)@),
        rec_ok(old(nodes)@, old(rec)@),
        (i as int) < old(nodes)@.len(),
        wants_group(old(nodes)@[i as int]),
        keys_distinct(old(nodes)@[i as int].times@),
        forall|j: int|
            0 <= j < old(nodes)@[i as int].times@.len() ==> -date_range() <= (#[trigger] old(nodes)@[i as int].times@[j]).1.timestamp
                <= date_range(),
        old(nodes)@.len() + 1 + old(nodes)@[i as int].times@.len() < usize::MAX,
    ensures
        forest(final(nodes)@),
        rec_ok(final(nodes)@, final(rec)@),
        (g as int) < final(nodes)@.len(),
        old(nodes)@.len() <= final(nodes)@.len() <= old(nodes)@.len() + 1 + old(nodes)@[i as int].times@.len(),
        forall|k: int| 0 <= k < old(rec)@.len() && #[trigger] old(rec)@[k] ==> final(rec)@[k],
        forall|k: int| old(rec)@.len() <= k < final(rec)@.len() ==> #[trigger] final(rec)@[k],
        forall|k: int|
            0 <= k < old(nodes)@.len() && k != i && k != g && !(old(nodes)@[k].parent == Some(g) && old(nodes)@[k].managed is Some)
                ==> #[trigger] final(nodes)@[k] == old(nodes)@[k],
        final(nodes)@[i as int] == (Node { children: final(nodes)@[i as int].children, ..old(nodes)@[i as int] }),
        (g as int) < old(nodes)@.len() ==> old(nodes)@[g as int].parent == Some(i) && old(nodes)@[g as int].managed is Some,
        forall|k: int|
            0 <= k < old(nodes)@.len() ==> (#[trigger] final(nodes)@[k]).parent == old(nodes)@[k].parent
                && final(nodes)@[k].managed == old(nodes)@[k].managed,
        forall|k: int| old(nodes)@.len() <= k < final(nodes)@.len() ==> (#[trigger] final(nodes)@[k]).managed is Some,
        synced_at(final(nodes)@, unmarked(final(rec)@), i as int, old(nodes)@[i as int].times@),
        rec_inv(a, final(nodes)@, final(rec)@, i + 1),
        grows(old(nodes)@, final(nodes)@),
{
    let ghost before = nodes@;
    let ghost rb = rec@;
    proof {
        lemma_rec_inv_bound(a, before, rb, i as int, i + 1);
    }
    let g = match find_group(nodes, i) {
        Some(g) => {
            rec.set(g, true);
            g
        },
        None => {
            let leaf = managed_leaf(String::from_str("[Times]"), i, ManagedNodeType::TimeGroup);
            let g = push_child(nodes, leaf, i);
            rec.push(true);
            g
        },
    };
    let ghost mid = nodes@;
    proof {
        assert(mid[i as int].children@.contains(g)) by {
            if (g as int) == before.len() {
                assert(mid[i as int].children@[mid[i as int].children@.len() - 1] == g);
            }
        }
        assert(mid[g as int].parent == Some(i)) by {
            let c = choose|c: int| 0 <= c < mid[i as int].children@.len() && mid[i as int].children@[c] == g;
            assert(mid[i as int].children@[c] == g);
        }
        if (g as int) < before.len() {
            assert(before[g as int] == mid[g as int]);
        }
    }
    let times = crate::models::clone_times(&nodes[i].times);
    proof {
        assert(times@ == before[i as int].times@);
    }
    proof {
        assert(g != i) by {
            assert(mid[g as int].managed is Some);
        }
        assert forall|k: int| 0 <= k < before.len() implies (#[trigger] mid[k]).parent == before[k].parent
            && mid[k].managed == before[k].managed by {
            if k != i {
                assert(mid[k] == before[k]);
            }
        }
        assert forall|k: int| 0 <= k < rb.len() && #[trigger] rb[k] implies rec@[k] by {
            if k != g {
                assert(rec@[k] == rb[k]);
            }
        }
        assert forall|k: int| 0 <= k < rec@.len() && #[trigger] rec@[k] implies (k < rb.len() && rb[k]) || k == g by {
            if k < rb.len() && k != g {
                assert(rec@[k] == rb[k]);
            }
        }
        assert(acc_rec(a, mid, rec@, g as int, i + 1));
        assert forall|d: int|
            0 <= d < rb.len() && #[trigger] rb[d] && d != g && before[d].managed == Some(ManagedNodeType::TimeGroup)
                implies before[d].parent != mid[g as int].parent by {
            assert(acc_rec(a, before, rb, d, i as int));
        }
        lemma_rec_inv_step(a, before, rb, mid, rec@, i + 1, g as int);
        assert forall|d: int| 0 <= d < rec@.len() && #[trigger] rec@[d] implies mid[d].parent != Some(g) by {
            if d != g {
                assert(rb[d]);
                assert(acc_rec(a, before, rb, d, i as int));
                assert(mid[d].parent == before[d].parent);
                if before[d].parent == Some(g) {
                    if (g as int) < a.len() {
                        assert(before[g as int].managed == a[g as int].managed);
                    }
                    match before[d].managed {
                        Some(ManagedNodeType::TimeTag { key }) => {
                            assert(rb[g as int]);
                            assert(acc_rec(a, before, rb, g as int, i as int));
                            assert(before[g as int].parent == mid[g as int].parent);
                        },
                        _ => {},
                    }
                }
            }
        }
        assert(grows(before, mid)) by {
            assert forall|k: int| 0 <= k < before.len() implies {
                &&& (#[trigger] mid[k]).children@.len() >= before[k].children@.len()
                &&& mid[k].children@.take(before[k].children@.len() as int) == before[k].children@
                &&& forall|c: int| before[k].children@.len() <= c < mid[k].children@.len() ==> mid[k].children@[c] as int >= before.len()
            } by {
                assert(mid[k].children@.take(before[k].children@.len() as int) =~= before[k].children@);
            }
        }
    }
    reconcile_tags(nodes, rec, g, &times, Ghost(a), Ghost(i));
    proof {
        lemma_grows_trans(before, mid, nodes@);
        let after = nodes@;
        let rank = choose|rank: Seq<nat>| crate::forest::ranked(mid, rank);
        assert(mid[i as int].parent != Some(g)) by {
            if mid[i as int].parent == Some(g) {
                assert(rank[g as int] < rank[i as int]);
                assert(rank[i as int] < rank[g as int]);
            }
        }
        assert(after[i as int] == mid[i as int]);
        assert(after[g as int] == (Node { children: after[g as int].children, ..mid[g as int] }));
        assert(rec@[g as int]);
        assert(after[g as int] == after[g as int]);
        assert forall|k: int|
            0 <= k < before.len() && k != i && k != g && !(before[k].parent == Some(g) && before[k].managed is Some)
            implies #[trigger] after[k] == before[k] by {
            assert(mid[k] == before[k]);
        }
        assert forall|k: int| 0 <= k < before.len() implies (#[trigger] after[k]).parent == before[k].parent
            && after[k].managed == before[k].managed by {
            assert(mid[k].parent == before[k].parent && mid[k].managed == before[k].managed);
            if k != i && k != g && !(mid[k].parent == Some(g) && mid[k].managed is Some) {
                assert(after[k] == mid[k]);
            } else if k == g {
            } else if k != i {
                assert(after[k] == (Node { label: after[k].label, ..mid[k] }));
            }
        }
    }
    g
}

impl App {
    /// Bring the managed nodes in line with the time tags: every real node
    /// with time tags gets a "[Times]" group child (an existing one is
    /// reused) holding one node per tag, labelled with the tag's time; every
    /// managed node left over is removed (the selection follows the
    /// renumbering as in `remove_nodes`).
    pub fn sync_managed_nodes(&mut self)
        requires
            old(self).wf(),
            times_ok(old(self).nodes@),
            2 * old(self).nodes@.len() + times_total(old(self).nodes@, old(self).nodes@.len() as int) < usize::MAX,
            (exists|k: int| 0 <= k < old(self).nodes@.len() && (#[trigger] old(self).nodes@[k]).managed is Some) ==> {
                &&& (old(self).selected as int) < old(self).nodes@.len()
                &&& old(self).last_link_origin matches Some(p) ==> (p as int) < old(self).nodes@.len()
            },
        ensures
            final(self).wf(),
            exists|mid: Seq<Node>, gone: Set<usize>| #[trigger] synced(*old(self), mid, gone, *final(self)),
    {
        broadcast use vstd::std_specs::hash::group_hash_axioms;
        let ghost old_nodes = self.nodes@;
        let n = self.nodes.len();
        let mut rec: Vec<bool> = Vec::new();
        let mut k: usize = 0;
        while k < n
            invariant
                k <= n,
                n == self.nodes@.len(),
                rec@.len() == k,
                forall|q: int| 0 <= q < k ==> !#[trigger] rec@[q],
            decreases n - k,
        {
            rec.push(false);
            k = k + 1;
        }
        proof {
            lemma_times_total_mono(old_nodes, 0, n as int);
            lemma_grows_refl(old_nodes);
        }
        let mut i: usize = 0;
        while i < n
            invariant
                i <= n,
                n == old_nodes.len(),
                old_nodes == old(self).nodes@,
                old(self).wf(),
                times_ok(old_nodes),
                2 * n + times_total(old_nodes, n as int) < usize::MAX,
                forest(self.nodes@),
                rec_ok(self.nodes@, rec@),
                extends(old_nodes, self.nodes@),
                rec_inv(old_nodes, self.nodes@, rec@, i as int),
                self.nodes@.len() <= n + i + times_total(old_nodes, i as int),
                forall|q: int| n <= q < rec@.len() ==> #[trigger] rec@[q],
                forall|q: int|
                    0 <= q < i && wants_group(#[trigger] old_nodes[q]) ==> synced_at(self.nodes@, unmarked(rec@), q, old_nodes[q].times@),
                *self == (App { nodes: self.nodes, ..*old(self) }),
            decreases n - i,
        {
            let ghost before = self.nodes@;
            let ghost rb = rec@;
            proof {
                lemma_times_total_mono(old_nodes, i + 1, n as int);
            }
            if self.nodes[i].managed.is_none() && self.nodes[i].times.len() > 0 {
                proof {
                    assert(before[i as int] == (Node { children: before[i as int].children, ..old_nodes[i as int] }));
                    assert(keys_distinct(old_nodes[i as int].times@));
                }
                let g = attach_times(&mut self.nodes, &mut rec, i, Ghost(old_nodes));
                proof {
                    let after = self.nodes@;
                    assert(after.len() == self.nodes.len());
                    assert forall|q: int| n <= q < rec@.len() implies #[trigger] rec@[q] by {
                        if q < rb.len() {
                            assert(rb[q]);
                        }
                    }
                    assert forall|q: int|
                        0 <= q < i && wants_group(#[trigger] old_nodes[q]) implies synced_at(after, unmarked(rec@), q, old_nodes[q].times@) by {
                        assert(before[q] == (Node { children: before[q].children, ..old_nodes[q] }));
                        lemma_keep_synced(before, after, rb, rec@, i as int, g as int, q, old_nodes[q].times@);
                    }
                    assert forall|k: int|
                        0 <= k < n && old_nodes[k].managed is None implies (#[trigger] after[k]) == (Node { children: after[k].children, ..old_nodes[k] }) by {
                        assert(before[k] == (Node { children: before[k].children, ..old_nodes[k] }));
                        if k != i {
                            assert(after[k] == before[k]);
                        }
                    }
                    lemma_grows_trans(old_nodes, before, after);
                }
            } else {
                proof {
                    lemma_rec_inv_bound(old_nodes, before, rb, i as int, i + 1);
                }
            }
            i = i + 1;
        }
        let ghost mid = self.nodes@;
        let mut gone: HashSet<usize> = HashSet::new();
        let mut q: usize = 0;
        while q < self.nodes.len()
            invariant
                q <= self.nodes@.len(),
                self.nodes@ == mid,
                rec_ok(mid, rec@),
                gone@ == Set::new(|k: usize| (k as int) < q && !rec@[k as int] && mid[k as int].managed is Some),
                gone@.finite(),
            decreases self.nodes@.len() - q,
        {
            if !rec[q] && self.nodes[q].managed.is_some() {
                gone.insert(q);
            }
            proof {
                assert(gone@ =~= Set::new(|k: usize| (k as int) < q + 1 && !rec@[k as int] && mid[k as int].managed is Some));
            }
            q = q + 1;
        }
        proof {
            assert(gone@ =~= orphans(mid, rec@));
            lemma_kept_from_rec(old_nodes, mid, rec@, gone@);
            assert(orphans(mid, rec@).subset_of(unmarked(rec@)));
            assert forall|i: int|
                0 <= i < old_nodes.len() && wants_group(#[trigger] old_nodes[i]) implies synced_at(mid, gone@, i, old_nodes[i].times@) by {
                lemma_synced_fewer_gone(mid, unmarked(rec@), gone@, i, old_nodes[i].times@);
            }
            if gone@.len() > 0 {
                let d = gone@.choose();
                assert(gone@.contains(d));
                assert(!rec@[d as int] && mid[d as int].managed is Some);
                assert((d as int) < n);
                assert(old_nodes[d as int].managed is Some);
            }
        }
        self.remove_nodes(&gone);
        proof {
            assert(synced(*old(self), mid, gone@, *self));
        }
    }
}

/// The index of the time tag with key `key`, if any.
pub open spec fn key_index(ts: Seq<(String, TimeTag)>, key: Seq<char>) -> Option<int> {
    if exists|j: int| 0 <= j < ts.len() && (#[trigger] ts[j]).0@ == key {
        Some(choose|j: int| 0 <= j < ts.len() && (#[trigger] ts[j]).0@ == key)
    } else {
        None
    }
}

/// `ts` without its tag for `key`.
pub open spec fn without_key(ts: Seq<(String, TimeTag)>, key: Seq<char>) -> Seq<(String, TimeTag)> {
    match key_index(ts, key) {
        Some(j) => ts.remove(j),
        None => ts,
    }
}

/// `b` is `a` after `push_undo`: unchanged when no project is open.
pub open spec fn pushed_then(a: App, b: App) -> bool {
    match a.project_path {
        None => b == a,
        Some(_) => crate::ops::undo_pushed(a, b),
    }
}

/// Drop the time tag with key `key` from `times`, if there is one.
fn remove_time(times: &mut Vec<(String, TimeTag)>, key: &String)
    requires
        keys_distinct(old(times)@),
    ensures
        final(times)@ == without_key(old(times)@, key@),
        keys_distinct(final(times)@),
{
    let mut j: usize = 0;
    while j < times.len()
        invariant
            j <= times@.len(),
            *times == *old(times),
            keys_distinct(times@),
            forall|q: int| 0 <= q < j ==> (#[trigger] times@[q]).0@ != key@,
        decreases times@.len() - j,
    {
        if times[j].0 == *key {
            proof {
                assert(exists|q: int| 0 <= q < times@.len() && (#[trigger] times@[q]).0@ == key@) by {
                    assert(times@[j as int].0@ == key@);
                }
                let c = choose|q: int| 0 <= q < times@.len() && (#[trigger] times@[q]).0@ == key@;
                assert(c == j);
            }
            times.remove(j);
            proof {
                assert forall|a: int, b: int| 0 <= a < b < times@.len() implies (#[trigger] times@[a]).0@ != (#[trigger] times@[b]).0@ by {
                    let a2 = if a < j { a } else { a + 1 };
                    let b2 = if b < j { b } else { b + 1 };
                    assert(times@[a] == old(times)@[a2]);
                    assert(times@[b] == old(times)@[b2]);
                }
            }
            return;
        }
        j = j + 1;
    }
}

proof fn lemma_without_key_ok(ts: Seq<(String, TimeTag)>, key: Seq<char>)
    requires
        keys_distinct(ts),
        forall|j: int| 0 <= j < ts.len() ==> -date_range() <= (#[trigger] ts[j]).1.timestamp <= date_range(),
    ensures
        without_key(ts, key).len() <= ts.len(),
        forall|j: int|
            0 <= j < without_key(ts, key).len() ==> -date_range() <= (#[trigger] without_key(ts, key)[j]).1.timestamp
                <= date_range(),
{
    if let Some(k) = key_index(ts, key) {
        assert forall|j: int| 0 <= j < without_key(ts, key).len() implies -date_range() <= (#[trigger] without_key(ts, key)[j]).1.timestamp
            <= date_range() by {
            if j < k {
                assert(without_key(ts, key)[j] == ts[j]);
            } else {
                assert(without_key(ts, key)[j] == ts[j + 1]);
            }
        }
    }
}

proof fn lemma_times_total_update(nodes: Seq<Node>, p: int, node: Node, k: int)
    requires
        0 <= p < nodes.len(),
        node.times@.len() <= nodes[p].times@.len(),
        k <= nodes.len(),
    ensures
        times_total(nodes.update(p, node), k) <= times_total(nodes, k),
    decreases k,
{
    if k > 0 {
        lemma_times_total_update(nodes, p, node, k - 1);
    }
}

impl App {
    /// Remove the time tag `key` of node `p`, then bring the managed nodes in line.
    fn drop_time_tag(&mut self, p: usize, key: &String)
        requires
            old(self).wf(),
            times_ok(old(self).nodes@),
            2 * old(self).nodes@.len() + times_total(old(self).nodes@, old(self).nodes@.len() as int) < usize::MAX,
            (old(self).selected as int) < old(self).nodes@.len(),
            old(self).last_link_origin matches Some(q) ==> (q as int) < old(self).nodes@.len(),
            (p as int) < old(self).nodes@.len(),
        ensures
            final(self).wf(),
            exists|c: App, mid: Seq<Node>, gone: Set<usize>|
                #![trigger synced(c, mid, gone, *final(self))]
                c == (App { nodes: c.nodes, ..*old(self) }) && c.nodes@ == old(self).nodes@.update(
                    p as int,
                    Node { times: c.nodes@[p as int].times, ..old(self).nodes@[p as int] },
                ) && c.nodes@[p as int].times@ == without_key(old(self).nodes@[p as int].times@, key@) && synced(
                    c,
                    mid,
                    gone,
                    *final(self),
                ),
    {
        let ghost b = *self;
        let mut times = crate::models::clone_times(&self.nodes[p].times);
        proof {
            assert(keys_distinct(self.nodes@[p as int].times@));
        }
        remove_time(&mut times, key);
        self.nodes[p].times = times;
        proof {
            let c = *self;
            crate::layout::lemma_forest_same_shape(b.nodes@, c.nodes@);
            lemma_without_key_ok(b.nodes@[p as int].times@, key@);
            lemma_times_total_update(b.nodes@, p as int, c.nodes@[p as int], b.nodes@.len() as int);
            assert(c.nodes@ == b.nodes@.update(p as int, c.nodes@[p as int]));
            assert forall|i: int| 0 <= i < c.nodes@.len() implies {
                &&& keys_distinct(#[trigger] c.nodes@[i].times@)
                &&& forall|j: int|
                    0 <= j < c.nodes@[i].times@.len() ==> -date_range() <= (#[trigger] c.nodes@[i].times@[j]).1.timestamp
                        <= date_range()
            } by {
                if i != p {
                    assert(c.nodes@[i] == b.nodes@[i]);
                }
            }
        }
        let ghost c = *self;
        self.sync_managed_nodes();
        proof {
            let (mid, gone) = choose|mid: Seq<Node>, gone: Set<usize>| #[trigger] synced(c, mid, gone, *self);
        }
    }

    /// Remove all time tags of node `p`, then bring the managed nodes in line.
    fn drop_all_times(&mut self, p: usize)
        requires
            old(self).wf(),
            times_ok(old(self).nodes@),
            2 * old(self).nodes@.len() + times_total(old(self).nodes@, old(self).nodes@.len() as int) < usize::MAX,
            (old(self).selected as int) < old(self).nodes@.len(),
            old(self).last_link_origin matches Some(q) ==> (q as int) < old(self).nodes@.len(),
            (p as int) < old(self).nodes@.len(),
        ensures
            final(self).wf(),
            exists|c: App, mid: Seq<Node>, gone: Set<usize>|
                #![trigger synced(c, mid, gone, *final(self))]
                c == (App { nodes: c.nodes, ..*old(self) }) && c.nodes@ == old(self).nodes@.update(
                    p as int,
                    Node { times: c.nodes@[p as int].times, ..old(self).nodes@[p as int] },
                ) && c.nodes@[p as int].times@.len() == 0 && synced(c, mid, gone, *final(self)),
    {
        let ghost b = *self;
        self.nodes[p].times = Vec::new();
        proof {
            let c = *self;
            crate::layout::lemma_forest_same_shape(b.nodes@, c.nodes@);
            lemma_times_total_update(b.nodes@, p as int, c.nodes@[p as int], b.nodes@.len() as int);
            assert(c.nodes@ == b.nodes@.update(p as int, c.nodes@[p as int]));
            assert forall|i: int| 0 <= i < c.nodes@.len() implies {
                &&& keys_distinct(#[trigger] c.nodes@[i].times@)
                &&& forall|j: int|
                    0 <= j < c.nodes@[i].times@.len() ==> -date_range() <= (#[trigger] c.nodes@[i].times@[j]).1.timestamp
                        <= date_range()
            } by {
                if i != p {
                    assert(c.nodes@[i] == b.nodes@[i]);
                }
            }
        }
        let ghost c = *self;
        self.sync_managed_nodes();
        proof {
            let (mid, gone) = choose|mid: Seq<Node>, gone: Set<usize>| #[trigger] synced(c, mid, gone, *self);
        }
    }

    /// Remove node `target` with its whole subtree.
    fn drop_subtree(&mut self, target: usize)
        requires
            old(self).wf(),
            (target as int) < old(self).nodes@.len(),
            (old(self).selected as int) < old(self).nodes@.len(),
            old(self).last_link_origin matches Some(q) ==> (q as int) < old(self).nodes@.len(),
        ensures
            final(self).wf(),
            ({
                let n = old(self).nodes@;
                let gone = Set::new(|x: usize| (x as int) < n.len() && crate::forest::in_subtree(n, x, target));
                &&& removal_of(n, gone, final(self).nodes@)
                &&& final(self).selected == match crate::forest::remap_index(gone, old(self).selected) {
                    Some(i) => i,
                    None => 0,
                }
                &&& final(self).last_link_origin == crate::forest::remap_opt(gone, old(self).last_link_origin)
                &&& *final(self) == (App {
                    nodes: final(self).nodes,
                    selected: final(self).selected,
                    last_link_origin: final(self).last_link_origin,
                    ..*old(self)
                })
            }),
    {
        broadcast use vstd::std_specs::hash::group_hash_axioms;
        let sub = self.collect_subtree(target);
        let mut del: HashSet<usize> = HashSet::new();
        let mut k: usize = 0;
        while k < sub.len()
            invariant
                k <= sub@.len(),
                del@ == sub@.take(k as int).to_set(),
                del@.finite(),
            decreases sub@.len() - k,
        {
            del.insert(sub[k]);
            proof {
                assert(sub@.take(k as int + 1) =~= sub@.take(k as int).push(sub@[k as int]));
                sub@.take(k as int).lemma_push_to_set_commute(sub@[k as int]);
            }
            k = k + 1;
        }
        proof {
            let n = self.nodes@;
            assert(sub@.take(sub@.len() as int) =~= sub@);
            crate::forest::lemma_listing_members(n, target, sub@);
            assert(del@ =~= Set::new(|x: usize| (x as int) < n.len() && crate::forest::in_subtree(n, x, target)));
            assert(del@.contains(target)) by {
                assert(sub@[0] == target);
            }
            assert(del@.len() > 0) by {
                if del@.len() == 0 {
                    assert(del@ =~= Set::<usize>::empty());
                }
            }
        }
        self.remove_nodes(&del);
    }

    /// What `delete_selected` does: `post` is `pre` after it.
    pub open spec fn delete_selected_done(pre: App, post: App) -> bool {
        &&& post.wf()
        &&& !pre.has_selection_spec() ==> post == pre
        &&& pre.has_selection_spec() ==> exists|b: App, c: App, mid: Seq<Node>, gone: Set<usize>|
                #![trigger deleted(b, c, mid, gone, post)]
                pushed_then(pre, b) && deleted(b, c, mid, gone, post)
    }

    /// Delete the selected node and its subtree.  For a managed node the
    /// time tags are edited instead: deleting a time tag's node removes that
    /// tag from the real node, deleting a "[Times]" group removes all of its
    /// tags, and the managed nodes are then brought in line.  The state is
    /// pushed for undo first.
    #[verifier::rlimit(50)]
    pub fn delete_selected(&mut self)
        requires
            old(self).wf(),
            times_ok(old(self).nodes@),
            2 * old(self).nodes@.len() + times_total(old(self).nodes@, old(self).nodes@.len() as int) < usize::MAX,
            old(self).last_link_origin matches Some(p) ==> (p as int) < old(self).nodes@.len(),
        ensures
            Self::delete_selected_done(*old(self), *final(self)),
    {
        if !self.has_selection() {
            return;
        }
        let ghost a = *self;
        self.push_undo();
        let ghost b = *self;
        proof {
            crate::forest::lemma_same_nodes_forest(b.nodes@, a.nodes@);
            assert(pushed_then(a, b));
        }
        self.delete_pushed();
        proof {
            let (c, mid, gone) = choose|c: App, mid: Seq<Node>, gone: Set<usize>|
                #![trigger deleted(b, c, mid, gone, *self)]
                deleted(b, c, mid, gone, *self);
            assert(deleted(b, c, mid, gone, *self));
        }
    }

    /// The body of `delete_selected` once the state is pushed for undo.
    #[verifier::rlimit(50)]
    fn delete_pushed(&mut self)
        requires
            old(self).wf(),
            times_ok(old(self).nodes@),
            2 * old(self).nodes@.len() + times_total(old(self).nodes@, old(self).nodes@.len() as int) < usize::MAX,
            old(self).last_link_origin matches Some(p) ==> (p as int) < old(self).nodes@.len(),
            (old(self).selected as int) < old(self).nodes@.len(),
        ensures
            final(self).wf(),
            exists|c: App, mid: Seq<Node>, gone: Set<usize>|
                #![trigger deleted(*old(self), c, mid, gone, *final(self))]
                deleted(*old(self), c, mid, gone, *final(self)),
    {
        let target = self.selected;
        let ghost b = *self;
        let managed = match &self.nodes[target].managed {
            Some(m) => Some(m.clone_value()),
            None => None,
        };
        match managed {
            Some(ManagedNodeType::TimeTag { key }) => {
                if let Some(group) = self.nodes[target].parent {
                    if let Some(p) = self.nodes[group].parent {
                        self.drop_time_tag(p, &key);
                        proof {
                            let (c, mid, gone) = choose|c: App, mid: Seq<Node>, gone: Set<usize>|
                                #![trigger synced(c, mid, gone, *self)]
                                c == (App { nodes: c.nodes, ..b }) && c.nodes@ == b.nodes@.update(
                                    p as int,
                                    Node { times: c.nodes@[p as int].times, ..b.nodes@[p as int] },
                                ) && c.nodes@[p as int].times@ == without_key(b.nodes@[p as int].times@, key@) && synced(c, mid, gone, *self);
                            assert(deleted(b, c, mid, gone, *self));
                        }
                        return;
                    }
                }
            },
            Some(ManagedNodeType::TimeGroup) => {
                if let Some(p) = self.nodes[target].parent {
                    self.drop_all_times(p);
                    proof {
                        let (c, mid, gone) = choose|c: App, mid: Seq<Node>, gone: Set<usize>|
                            #![trigger synced(c, mid, gone, *self)]
                            c == (App { nodes: c.nodes, ..b }) && c.nodes@ == b.nodes@.update(
                                p as int,
                                Node { times: c.nodes@[p as int].times, ..b.nodes@[p as int] },
                            ) && c.nodes@[p as int].times@.len() == 0 && synced(c, mid, gone, *self);
                        assert(deleted(b, c, mid, gone, *self));
                    }
                    return;
                }
            },
            None => {},
        }
        self.drop_subtree(target);
        proof {
            let gone = Set::new(|x: usize| (x as int) < b.nodes@.len() && crate::forest::in_subtree(b.nodes@, x, target));
            assert(deleted(b, b, b.nodes@, gone, *self));
        }
    }
}

/// The outcome of `delete_selected` once the undo push `b` is done: for a
/// time tag's node, the tag is gone from the real node (`c`) and the managed
/// nodes are brought in line (`mid`, `gone` as in `synced`); for a "[Times]"
/// group, all tags of the real node are; otherwise the subtree of the
/// selection (`gone`) is removed from `mid`, the nodes of `b`.
pub open spec fn deleted(b: App, c: App, mid: Seq<Node>, gone: Set<usize>, d: App) -> bool {
    let s = b.selected as int;
    let n = b.nodes@;
    let tag_case = n[s].managed matches Some(ManagedNodeType::TimeTag { key }) && n[s].parent matches Some(g)
        && n[g as int].parent is Some;
    let group_case = n[s].managed == Some(ManagedNodeType::TimeGroup) && n[s].parent is Some;
    if tag_case {
        let key = n[s].managed->0->TimeTag_key;
        let p = n[n[s].parent->0 as int].parent->0 as int;
        &&& c == (App { nodes: c.nodes, ..b })
        &&& c.nodes@ == n.update(p, Node { times: c.nodes@[p].times, ..n[p] })
        &&& c.nodes@[p].times@ == without_key(n[p].times@, key@)
        &&& synced(c, mid, gone, d)
    } else if group_case {
        let p = n[s].parent->0 as int;
        &&& c == (App { nodes: c.nodes, ..b })
        &&& c.nodes@ == n.update(p, Node { times: c.nodes@[p].times, ..n[p] })
        &&& c.nodes@[p].times@.len() == 0
        &&& synced(c, mid, gone, d)
    } else {
        &&& c == b
        &&& mid == n
        &&& gone == Set::new(|x: usize| (x as int) < n.len() && crate::forest::in_subtree(n, x, b.selected))
        &&& removal_of(n, gone, d.nodes@)
        &&& d.selected == match crate::forest::remap_index(gone, b.selected) {
            Some(i) => i,
            None => 0,
        }
        &&& d.last_link_origin == crate::forest::remap_opt(gone, b.last_link_origin)
        &&& d == (App { nodes: d.nodes, selected: d.selected, last_link_origin: d.last_link_origin, ..b })
    }
}

} // verus!
