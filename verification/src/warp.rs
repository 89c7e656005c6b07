//! Cardinal warps: the cursor jumps to the next occupied row or column.

use vstd::prelude::*;
use crate::app::{follow, follow_fits, lemma_nearest_unique, nearest_node, visible, App};
use crate::models::Node;

verus! {

/// A node lies ahead of the cursor in the warp direction: below or above it
/// when `dy` is set, right or left of it otherwise.
pub open spec fn warp_cand(n: Node, cx: int, cy: int, dx: int, dy: int) -> bool {
    &&& visible(n)
    &&& if dy != 0 {
        if dy > 0 { n.world_y > cy } else { n.world_y < cy }
    } else {
        if dx > 0 { n.world_x > cx } else { n.world_x < cx }
    }
}

/// The coordinate along the warp direction.
pub open spec fn along(n: Node, dy: int) -> int {
    if dy != 0 { n.world_y as int } else { n.world_x as int }
}

/// The distance across the warp direction.
pub open spec fn across(n: Node, cx: int, cy: int, dy: int) -> int {
    let d = if dy != 0 { n.world_x - cx } else { n.world_y - cy };
    if d < 0 { -d } else { d }
}

/// The warp moves forward (down or right).
pub open spec fn forward(dx: int, dy: int) -> bool {
    if dy != 0 { dy > 0 } else { dx > 0 }
}

/// Node `i` is where the warp lands: on the nearest occupied line ahead,
/// the node closest across, the lowest index among equally close ones.
pub open spec fn warp_choice(nodes: Seq<Node>, cx: int, cy: int, dx: int, dy: int, i: int) -> bool {
    &&& 0 <= i < nodes.len()
    &&& warp_cand(nodes[i], cx, cy, dx, dy)
    &&& forall|j: int|
        #![trigger nodes[j]]
        0 <= j < nodes.len() && warp_cand(nodes[j], cx, cy, dx, dy) ==> {
            &&& if forward(dx, dy) { along(nodes[i], dy) <= along(nodes[j], dy) } else { along(nodes[i], dy) >= along(nodes[j], dy) }
            &&& along(nodes[j], dy) == along(nodes[i], dy) ==> {
                &&& across(nodes[i], cx, cy, dy) <= across(nodes[j], cx, cy, dy)
                &&& across(nodes[j], cx, cy, dy) == across(nodes[i], cx, cy, dy) ==> i <= j
            }
        }
}

/// `b` is `a` with the cursor on node `i`, the selection snapped to the
/// node nearest to it and the camera following.
pub open spec fn warped(a: App, b: App, i: int, canvas_w: u16, canvas_h: u16) -> bool {
    let n = a.nodes@[i];
    let near = choose|r: Option<usize>| nearest_node(a.nodes@, n.world_x as int, n.world_y as int, r);
    &&& b.cursor_x == n.world_x
    &&& b.cursor_y == n.world_y
    &&& b.selected == match near {
        Some(id) => id,
        None => a.selected,
    }
    &&& b.camera_x == follow(a.camera_x as int, n.world_x as int, canvas_w as int)
    &&& b.camera_y == follow(a.camera_y as int, n.world_y as int, canvas_h as int)
    &&& b == (App { cursor_x: b.cursor_x, cursor_y: b.cursor_y, camera_x: b.camera_x, camera_y: b.camera_y, selected: b.selected, ..a })
}

/// Some node lies ahead of the cursor of `a` in the warp direction.
pub open spec fn warp_ahead(a: App, dx: int, dy: int) -> bool {
    exists|j: int| 0 <= j < a.nodes@.len() && #[trigger] warp_cand(a.nodes@[j], a.cursor_x as int, a.cursor_y as int, dx, dy)
}

impl App {
    /// What `cursor_warp` does: `post` is `pre` after it.
    pub open spec fn cursor_warp_done(pre: App, post: App, dx: i32, dy: i32, canvas_w: u16, canvas_h: u16) -> bool {
        &&& warp_ahead(pre, dx as int, dy as int) ==> exists|i: int|
                #[trigger] warp_choice(pre.nodes@, pre.cursor_x as int, pre.cursor_y as int, dx as int, dy as int, i)
                    && warped(pre, post, i, canvas_w, canvas_h)
        &&& !warp_ahead(pre, dx as int, dy as int) ==> post == pre
    }

    /// Warp the cursor to the next occupied row (`dy` set) or column in
    /// its direction (see `warp_choice`); the selection snaps and the camera
    /// follows as for a move.  Nothing happens when no node lies that way.
    pub fn cursor_warp(&mut self, dx: i32, dy: i32, canvas_w: u16, canvas_h: u16)
        requires
            forall|i: int|
                #[trigger] warp_choice(old(self).nodes@, old(self).cursor_x as int, old(self).cursor_y as int, dx as int, dy as int, i) ==> {
                    &&& follow_fits(old(self).camera_x as int, old(self).nodes@[i].world_x as int)
                    &&& follow_fits(old(self).camera_y as int, old(self).nodes@[i].world_y as int)
                },
        ensures
            Self::cursor_warp_done(*old(self), *final(self), dx, dy, canvas_w, canvas_h),
    {
        let ghost nodes = self.nodes@;
        let cx = self.cursor_x;
        let cy = self.cursor_y;
        let fwd = if dy != 0 { dy > 0 } else { dx > 0 };
        // The nearest occupied line ahead.
        let mut best: Option<i32> = None;
        let mut i: usize = 0;
        while i < self.nodes.len()
            invariant
                nodes == self.nodes@,
                cx == self.cursor_x,
                cy == self.cursor_y,
                fwd == forward(dx as int, dy as int),
                i <= nodes.len(),
                match best {
                    None => forall|j: int| 0 <= j < i ==> !#[trigger] warp_cand(nodes[j], cx as int, cy as int, dx as int, dy as int),
                    Some(e) => {
                        &&& exists|j: int| 0 <= j < i && #[trigger] warp_cand(nodes[j], cx as int, cy as int, dx as int, dy as int) && along(nodes[j], dy as int) == e
                        &&& forall|j: int| 0 <= j < i && #[trigger] warp_cand(nodes[j], cx as int, cy as int, dx as int, dy as int) ==>
                            if fwd { e <= along(nodes[j], dy as int) } else { e >= along(nodes[j], dy as int) }
                    },
                },
            decreases nodes.len() - i,
        {
            let n = &self.nodes[i];
            let cand = n.row != usize::MAX && if dy != 0 {
                if dy > 0 { n.world_y > cy } else { n.world_y < cy }
            } else {
                if dx > 0 { n.world_x > cx } else { n.world_x < cx }
            };
            proof {
                assert(cand == warp_cand(nodes[i as int], cx as int, cy as int, dx as int, dy as int));
            }
            if cand {
                let a = if dy != 0 { n.world_y } else { n.world_x };
                let better = match best {
                    None => true,
                    Some(e) => if fwd { a < e } else { a > e },
                };
                if better {
                    best = Some(a);
                }
            }
            i = i + 1;
        }
        let e = match best {
            Some(e) => e,
            None => {
                proof {
                    assert(!exists|j: int| 0 <= j < nodes.len() && #[trigger] warp_cand(nodes[j], cx as int, cy as int, dx as int, dy as int));
                }
                return;
            },
        };
        // The node on that line closest across, the first among equals.
        let mut pick: usize = 0;
        let mut pick_d: i64 = 0;
        let mut found = false;
        let mut k: usize = 0;
        while k < self.nodes.len()
            invariant
                nodes == self.nodes@,
                cx == self.cursor_x,
                cy == self.cursor_y,
                fwd == forward(dx as int, dy as int),
                k <= nodes.len(),
                exists|j: int| 0 <= j < nodes.len() && #[trigger] warp_cand(nodes[j], cx as int, cy as int, dx as int, dy as int) && along(nodes[j], dy as int) == e,
                forall|j: int| 0 <= j < nodes.len() && #[trigger] warp_cand(nodes[j], cx as int, cy as int, dx as int, dy as int) ==>
                    if fwd { e <= along(nodes[j], dy as int) } else { e >= along(nodes[j], dy as int) },
                found ==> {
                    &&& pick < k
                    &&& warp_cand(nodes[pick as int], cx as int, cy as int, dx as int, dy as int)
                    &&& along(nodes[pick as int], dy as int) == e
                    &&& pick_d == across(nodes[pick as int], cx as int, cy as int, dy as int)
                    &&& forall|j: int| 0 <= j < k && #[trigger] warp_cand(nodes[j], cx as int, cy as int, dx as int, dy as int) && along(nodes[j], dy as int) == e ==> {
                        &&& pick_d <= across(nodes[j], cx as int, cy as int, dy as int)
                        &&& across(nodes[j], cx as int, cy as int, dy as int) == pick_d ==> pick <= j
                    }
                },
                !found ==> forall|j: int| 0 <= j < k ==> !(#[trigger] warp_cand(nodes[j], cx as int, cy as int, dx as int, dy as int) && along(nodes[j], dy as int) == e),
            decreases nodes.len() - k,
        {
            let n = &self.nodes[k];
            let cand = n.row != usize::MAX && if dy != 0 {
                if dy > 0 { n.world_y > cy } else { n.world_y < cy }
            } else {
                if dx > 0 { n.world_x > cx } else { n.world_x < cx }
            };
            let a = if dy != 0 { n.world_y } else { n.world_x };
            proof {
                assert(cand == warp_cand(nodes[k as int], cx as int, cy as int, dx as int, dy as int));
            }
            if cand && a == e {
                let diff: i64 = if dy != 0 { n.world_x as i64 - cx as i64 } else { n.world_y as i64 - cy as i64 };
                let d: i64 = if diff < 0 { -diff } else { diff };
                if !found || d < pick_d {
                    pick = k;
                    pick_d = d;
                    found = true;
                }
            }
            k = k + 1;
        }
        proof {
            if !found {
                let j = choose|j: int| 0 <= j < nodes.len() && #[trigger] warp_cand(nodes[j], cx as int, cy as int, dx as int, dy as int) && along(nodes[j], dy as int) == e;
                assert(false);
            }
            assert(warp_choice(nodes, cx as int, cy as int, dx as int, dy as int, pick as int));
        }
        self.cursor_x = self.nodes[pick].world_x;
        self.cursor_y = self.nodes[pick].world_y;
        let near = self.node_near_cursor(self.cursor_x, self.cursor_y);
        proof {
            lemma_nearest_unique(self.nodes@, self.cursor_x as int, self.cursor_y as int, near);
        }
        if let Some(id) = near {
            self.selected = id;
        }
        self.follow_cursor(canvas_w, canvas_h);
        proof {
            let j = choose|j: int| 0 <= j < nodes.len() && #[trigger] warp_cand(nodes[j], cx as int, cy as int, dx as int, dy as int) && along(nodes[j], dy as int) == e;
            assert(exists|j: int| 0 <= j < nodes.len() && #[trigger] warp_cand(nodes[j], cx as int, cy as int, dx as int, dy as int));
            assert(warped(*old(self), *self, pick as int, canvas_w, canvas_h));
            assert(warp_choice(old(self).nodes@, old(self).cursor_x as int, old(self).cursor_y as int, dx as int, dy as int, pick as int));
        }
    }
}

} // verus!
