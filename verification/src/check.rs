//! Run-time checks of loaded data: the node lists read back from a project
//! are only taken when they form a forest with well-formed time tags, and
//! the state of a mode is checked before the screen is drawn from it.

use vstd::prelude::*;
use crate::app::{canvas_ok, mode_ok};
use crate::buffer::{byte_len, char_index_at, on_boundary};
use crate::forest::{children_ok, collect_subtree, forest, lemma_listing_members, links_ok, parents_ok, ranked};
use crate::mode::{ArchiveState, CanvasState, InputAction, Mode, ProjectListState, StartMenuState};
use crate::managed::{keys_distinct, times_ok, times_total};
use crate::clock::date_range;
use crate::models::Node;

verus! {

/// The number of parent steps from node `c` up to a root, when that takes
/// fewer than `fuel` steps through nodes in range.
pub open spec fn chain_depth(nodes: Seq<Node>, c: int, fuel: nat) -> Option<nat>
    decreases fuel,
{
    if fuel == 0 || c < 0 || c >= nodes.len() {
        None
    } else {
        match nodes[c].parent {
            None => Some(0),
            Some(p) => match chain_depth(nodes, p as int, (fuel - 1) as nat) {
                Some(d) => Some(d + 1),
                None => None,
            },
        }
    }
}

/// More fuel finds the same depth.
proof fn lemma_chain_more_fuel(nodes: Seq<Node>, c: int, f: nat, g: nat)
    requires
        f <= g,
        chain_depth(nodes, c, f) is Some,
    ensures
        chain_depth(nodes, c, g) == chain_depth(nodes, c, f),
    decreases f,
{
    if let Some(p) = nodes[c].parent {
        lemma_chain_more_fuel(nodes, p as int, (f - 1) as nat, (g - 1) as nat);
    }
}

/// A list whose every node reaches a root is ranked by the depths.
proof fn lemma_chains_ranked(nodes: Seq<Node>)
    requires
        forall|c: int| 0 <= c < nodes.len() ==> #[trigger] chain_depth(nodes, c, nodes.len()) is Some,
    ensures
        exists|rank: Seq<nat>| ranked(nodes, rank),
{
    let n = nodes.len();
    let rank = Seq::new(n, |c: int| chain_depth(nodes, c, n)->0);
    assert forall|c: int|
        #![trigger nodes[c].parent]
        0 <= c < nodes.len() && nodes[c].parent is Some implies rank[nodes[c].parent->0 as int] < rank[c] by {
        let p = nodes[c].parent->0 as int;
        assert(chain_depth(nodes, c, n) is Some);
        assert(chain_depth(nodes, p, (n - 1) as nat) is Some);
        lemma_chain_more_fuel(nodes, p, (n - 1) as nat, n);
    }
    assert(ranked(nodes, rank));
}

/// Whether `v` holds `x`.
fn holds(v: &Vec<usize>, x: usize) -> (r: bool)
    ensures
        r == v@.contains(x),
{
    let mut k: usize = 0;
    while k < v.len()
        invariant
            k <= v@.len(),
            forall|j: int| 0 <= j < k ==> v@[j] != x,
        decreases v@.len() - k,
    {
        if v[k] == x {
            return true;
        }
        k = k + 1;
    }
    false
}

/// Whether `v` holds no value twice.
fn distinct(v: &Vec<usize>) -> (r: bool)
    ensures
        r == v@.no_duplicates(),
{
    let mut a: usize = 0;
    while a < v.len()
        invariant
            a <= v@.len(),
            forall|x: int, y: int| 0 <= x < y < v@.len() && x < a ==> v@[x] != v@[y],
        decreases v@.len() - a,
    {
        let mut b: usize = a + 1;
        while b < v.len()
            invariant
                a < v@.len(),
                a + 1 <= b <= v@.len(),
                forall|x: int, y: int| 0 <= x < y < v@.len() && x < a ==> v@[x] != v@[y],
                forall|y: int| a < y < b ==> v@[a as int] != v@[y],
            decreases v@.len() - b,
        {
            if v[a] == v[b] {
                return false;
            }
            b = b + 1;
        }
        a = a + 1;
    }
    true
}

/// Whether the node list is a forest: consistent parent and child indices,
/// links in range, and every node reaching a root.
pub fn is_forest(nodes: &Vec<Node>) -> (r: bool)
    ensures
        r == forest(nodes@),
{
    let n = nodes.len();
    let mut c: usize = 0;
    while c < n
        invariant
            n == nodes@.len(),
            c <= n,
            forall|x: int|
                #![trigger nodes@[x].parent]
                0 <= x < c && nodes@[x].parent is Some ==> {
                    &&& (nodes@[x].parent->0 as int) < n
                    &&& nodes@[nodes@[x].parent->0 as int].children@.contains(x as usize)
                },
        decreases n - c,
    {
        match nodes[c].parent {
            Some(p) => {
                if p >= n || !holds(&nodes[p].children, c) {
                    return false;
                }
            },
            None => {},
        }
        c = c + 1;
    }
    assert(parents_ok(nodes@));
    let mut p: usize = 0;
    while p < n
        invariant
            n == nodes@.len(),
            p <= n,
            parents_ok(nodes@),
            forall|q: int|
                #![trigger nodes@[q].children]
                0 <= q < p ==> {
                    &&& nodes@[q].children@.no_duplicates()
                    &&& forall|j: int|
                        #![trigger nodes@[q].children@[j]]
                        0 <= j < nodes@[q].children@.len() ==> {
                            &&& (nodes@[q].children@[j] as int) < n
                            &&& nodes@[nodes@[q].children@[j] as int].parent == Some(q as usize)
                        }
                },
        decreases n - p,
    {
        if !distinct(&nodes[p].children) {
            return false;
        }
        let mut j: usize = 0;
        while j < nodes[p].children.len()
            invariant
                n == nodes@.len(),
                p < n,
                j <= nodes@[p as int].children@.len(),
                forall|k: int|
                    #![trigger nodes@[p as int].children@[k]]
                    0 <= k < j ==> {
                        &&& (nodes@[p as int].children@[k] as int) < n
                        &&& nodes@[nodes@[p as int].children@[k] as int].parent == Some(p)
                    },
            decreases nodes@[p as int].children@.len() - j,
        {
            let ch = nodes[p].children[j];
            if ch >= n {
                return false;
            }
            match nodes[ch].parent {
                Some(q) => {
                    if q != p {
                        return false;
                    }
                },
                None => {
                    return false;
                },
            }
            j = j + 1;
        }
        p = p + 1;
    }
    assert(children_ok(nodes@));
    let mut i: usize = 0;
    while i < n
        invariant
            n == nodes@.len(),
            i <= n,
            forall|x: int, k: int|
                #![trigger nodes@[x].links@[k]]
                0 <= x < i && 0 <= k < nodes@[x].links@.len() ==> (nodes@[x].links@[k] as int) < n,
        decreases n - i,
    {
        let mut k: usize = 0;
        while k < nodes[i].links.len()
            invariant
                n == nodes@.len(),
                i < n,
                k <= nodes@[i as int].links@.len(),
                forall|x: int, q: int|
                    #![trigger nodes@[x].links@[q]]
                    0 <= x < i && 0 <= q < nodes@[x].links@.len() ==> (nodes@[x].links@[q] as int) < n,
                forall|q: int| 0 <= q < k ==> (#[trigger] nodes@[i as int].links@[q] as int) < n,
            decreases nodes@[i as int].links@.len() - k,
        {
            if nodes[i].links[k] >= n {
                return false;
            }
            k = k + 1;
        }
        i = i + 1;
    }
    assert(links_ok(nodes@));
    let mut d: usize = 0;
    while d < n
        invariant
            n == nodes@.len(),
            d <= n,
            parents_ok(nodes@),
            children_ok(nodes@),
            links_ok(nodes@),
            forall|x: int| 0 <= x < d ==> #[trigger] chain_depth(nodes@, x, n as nat) is Some,
        decreases n - d,
    {
        // Follow the parents from `d` for at most `n` steps.
        let ghost rank = choose|r: Seq<nat>| ranked(nodes@, r);
        let mut cur: usize = d;
        let mut steps: usize = 0;
        let mut done = false;
        let ghost mut path: Seq<usize> = seq![d];
        while !done && steps < n
            invariant
                n == nodes@.len(),
                d < n,
                (cur as int) < n,
                steps <= n,
                done ==> nodes@[cur as int].parent is None && steps < n,
                chain_depth(nodes@, cur as int, (n - steps) as nat) is Some ==> chain_depth(nodes@, d as int, n as nat) is Some,
                parents_ok(nodes@),
                path.len() == steps + 1,
                path.last() == cur,
                forall|k: int| 0 <= k < path.len() ==> (#[trigger] path[k] as int) < n,
                ranked(nodes@, rank) ==> forall|a: int, b: int| 0 <= a < b < path.len() ==> rank[#[trigger] path[b] as int] < rank[#[trigger] path[a] as int],
            decreases n - steps, if done { 0int } else { 1int },
        {
            match nodes[cur].parent {
                Some(q) => {
                    proof {
                        assert(nodes@[cur as int].parent == Some(q));
                        if chain_depth(nodes@, q as int, (n - steps - 1) as nat) is Some {
                            assert(chain_depth(nodes@, cur as int, (n - steps) as nat) is Some);
                        }
                        let p2 = path.push(q);
                        if ranked(nodes@, rank) {
                            assert(rank[q as int] < rank[cur as int]);
                            assert forall|a: int, b: int| 0 <= a < b < p2.len() implies rank[#[trigger] p2[b] as int] < rank[#[trigger] p2[a] as int] by {
                                if b < path.len() {
                                    assert(p2[a] == path[a] && p2[b] == path[b]);
                                } else {
                                    assert(p2[a] == path[a]);
                                    if a < path.len() - 1 {
                                        assert(rank[path[path.len() - 1] as int] < rank[path[a] as int]);
                                    }
                                }
                            }
                        }
                        path = p2;
                    }
                    cur = q;
                    steps = steps + 1;
                },
                None => {
                    done = true;
                },
            }
        }
        if !done {
            // No root within `n` steps: the parents run in a cycle.
            proof {
                if forest(nodes@) {
                    let r = choose|r: Seq<nat>| ranked(nodes@, r);
                    assert(ranked(nodes@, rank));
                    assert(path.no_duplicates()) by {
                        assert forall|a: int, b: int| 0 <= a < path.len() && 0 <= b < path.len() && a != b implies path[a] != path[b] by {
                            if a < b {
                                assert(rank[path[b] as int] < rank[path[a] as int]);
                            } else {
                                assert(rank[path[a] as int] < rank[path[b] as int]);
                            }
                        }
                    }
                    crate::forest::lemma_distinct_bounded(path, n as nat);
                }
            }
            return false;
        }
        proof {
            assert(chain_depth(nodes@, cur as int, (n - steps) as nat) == Some(0nat));
        }
        d = d + 1;
    }
    proof {
        lemma_chains_ranked(nodes@);
    }
    true
}

/// Whether every node's time tags have distinct keys and times within the
/// range that dates are shown for.
pub fn times_valid(nodes: &Vec<Node>) -> (r: bool)
    ensures
        r == times_ok(nodes@),
{
    let mut i: usize = 0;
    while i < nodes.len()
        invariant
            i <= nodes@.len(),
            forall|x: int| 0 <= x < i ==> {
                &&& keys_distinct(#[trigger] nodes@[x].times@)
                &&& forall|j: int|
                    0 <= j < nodes@[x].times@.len() ==> -date_range() <= (#[trigger] nodes@[x].times@[j]).1.timestamp <= date_range()
            },
        decreases nodes@.len() - i,
    {
        let ts = &nodes[i].times;
        let mut a: usize = 0;
        while a < ts.len()
            invariant
                i < nodes@.len(),
                ts@ == nodes@[i as int].times@,
                a <= ts@.len(),
                forall|x: int, y: int| 0 <= x < y < ts@.len() && x < a ==> (#[trigger] ts@[x]).0@ != (#[trigger] ts@[y]).0@,
                forall|j: int| 0 <= j < a ==> -date_range() <= (#[trigger] ts@[j]).1.timestamp <= date_range(),
            decreases ts@.len() - a,
        {
            let t = ts[a].1.timestamp;
            if t < -8_000_000_000_000i64 || t > 8_000_000_000_000i64 {
                proof {
                    assert(!(-date_range() <= ts@[a as int].1.timestamp <= date_range()));
                }
                return false;
            }
            let mut b: usize = a + 1;
            while b < ts.len()
                invariant
                    i < nodes@.len(),
                    ts@ == nodes@[i as int].times@,
                    a < ts@.len(),
                    a + 1 <= b <= ts@.len(),
                    forall|y: int| a < y < b ==> ts@[a as int].0@ != (#[trigger] ts@[y]).0@,
                decreases ts@.len() - b,
            {
                if ts[a].0 == ts[b].0 {
                    proof {
                        assert(!keys_distinct(nodes@[i as int].times@)) by {
                            assert(ts@[a as int].0@ == ts@[b as int].0@);
                        }
                    }
                    return false;
                }
                b = b + 1;
            }
            a = a + 1;
        }
        i = i + 1;
    }
    true
}

/// Whether the node list and its time tags are small enough for the
/// virtual time nodes to be built (see `sync_managed_nodes`).
pub fn size_fits(nodes: &Vec<Node>) -> (r: bool)
    ensures
        r == (2 * nodes@.len() + times_total(nodes@, nodes@.len() as int) < usize::MAX),
{
    let n = nodes.len();
    let mut total: u128 = 2 * (n as u128);
    let mut i: usize = 0;
    while i < n
        invariant
            n == nodes@.len(),
            i <= n,
            total == 2 * n + times_total(nodes@, i as int),
            total < usize::MAX + 2 * n + 1,
        decreases n - i,
    {
        let k = nodes[i].times.len();
        if total + (k as u128) >= usize::MAX as u128 {
            proof {
                lemma_times_total_grows(nodes@, i as int + 1, n as int);
            }
            return false;
        }
        total = total + k as u128;
        i = i + 1;
    }
    total < usize::MAX as u128
}

/// The total of time tags grows with the prefix.
proof fn lemma_times_total_grows(nodes: Seq<Node>, j: int, k: int)
    requires
        0 <= j <= k,
    ensures
        times_total(nodes, j) <= times_total(nodes, k),
    decreases k - j,
{
    if j < k {
        lemma_times_total_grows(nodes, j, k - 1);
    }
}

} // verus!

verus! {

/// Whether byte offset `cursor` is a character boundary of `s`.
pub fn boundary_ok(s: &String, cursor: usize) -> (r: bool)
    ensures
        r == on_boundary(s@, cursor as int),
{
    let _ = byte_len(s);
    char_index_at(s.as_str(), cursor).is_some()
}

/// Whether the canvas sub-state refers to nodes in range and keeps its
/// cursors on character boundaries.
#[verifier::loop_isolation(false)]
pub fn canvas_state_valid(state: &CanvasState, nodes: &Vec<Node>) -> (r: bool)
    ensures
        r == canvas_ok(*state, nodes@),
    decreases state,
{
    match state {
        CanvasState::New { buf, text_cursor } => boundary_ok(buf, *text_cursor),
        CanvasState::Pick { origin_id, buf, cursor, .. } => *origin_id < nodes.len() && boundary_ok(buf, *cursor),
        CanvasState::Link { origin_id } => *origin_id < nodes.len(),
        CanvasState::Goto { buf, cursor, matches, match_idx, previous } => {
            if !boundary_ok(buf, *cursor) {
                return false;
            }
            let mut k: usize = 0;
            while k < matches.len()
                invariant
                    k <= matches@.len(),
                    forall|j: int| 0 <= j < k ==> (#[trigger] matches@[j] as int) < nodes@.len(),
                decreases matches@.len() - k,
            {
                if matches[k] >= nodes.len() {
                    return false;
                }
                k = k + 1;
            }
            if matches.len() > 0 && *match_idx >= matches.len() {
                return false;
            }
            canvas_state_valid(&**previous, nodes)
        },
        _ => true,
    }
}

/// Whether `mode` refers to nodes in range, keeps a reparent's original
/// parent outside the moved subtree, and keeps every text cursor on a
/// character boundary (see `mode_ok`).
#[verifier::loop_isolation(false)]
pub fn mode_valid(mode: &Mode, nodes: &Vec<Node>) -> (r: bool)
    requires
        forest(nodes@),
    ensures
        r == mode_ok(*mode, nodes@),
    decreases mode,
{
    match mode {
        Mode::Input { action, buf, cursor } => {
            let b = boundary_ok(buf, *cursor);
            let inside = match action {
                InputAction::InsertChild { parent } => *parent < nodes.len(),
                InputAction::EditLabel { node } => *node < nodes.len(),
                InputAction::Overwrite { node } => *node < nodes.len(),
            };
            b && inside
        },
        Mode::Reparent { subject, orig_parent, cursor, .. } => {
            if *subject >= nodes.len() || *cursor >= nodes.len() {
                return false;
            }
            match orig_parent {
                Some(p) => {
                    if *p >= nodes.len() {
                        return false;
                    }
                    let sub = collect_subtree(nodes, *subject);
                    proof {
                        lemma_listing_members(nodes@, *subject, sub@);
                    }
                    let mut k: usize = 0;
                    while k < sub.len()
                        invariant
                            k <= sub@.len(),
                            forall|j: int| 0 <= j < k ==> sub@[j] != *p,
                        decreases sub@.len() - k,
                    {
                        if sub[k] == *p {
                            proof {
                                assert(sub@.contains(*p));
                            }
                            return false;
                        }
                        k = k + 1;
                    }
                    proof {
                        assert(!sub@.contains(*p));
                    }
                    true
                },
                None => true,
            }
        },
        Mode::Canvas { state } => canvas_state_valid(state, nodes),
        Mode::StartMenu { state } => match state {
            StartMenuState::NewPath { buf, cursor } => boundary_ok(buf, *cursor),
            StartMenuState::NewName { buf, cursor, .. } => boundary_ok(buf, *cursor),
            StartMenuState::EditSetting { buf, cursor, .. } => boundary_ok(buf, *cursor),
            StartMenuState::Import { buf, cursor, matches, match_idx, .. } => boundary_ok(buf, *cursor) && (
            matches.len() == 0 || *match_idx < matches.len()),
            _ => true,
        },
        Mode::ProjectList { state } => match state {
            ProjectListState::NewPath { buf, cursor } => boundary_ok(buf, *cursor),
            ProjectListState::NewName { buf, cursor, .. } => boundary_ok(buf, *cursor),
            _ => true,
        },
        Mode::ArchivePage { state, previous } => {
            let here = match state {
                ArchiveState::EditTitle { buf, cursor, .. } => boundary_ok(buf, *cursor),
                ArchiveState::EditContent { buf, cursor, .. } => boundary_ok(buf, *cursor),
                _ => true,
            };
            here && mode_valid(&**previous, nodes)
        },
        Mode::Help => true,
    }
}

} // verus!
