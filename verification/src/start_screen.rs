//! The start screen: where the banner and the menu go, how wide the menu
//! is, which menu entries have a shortcut key, and the prompt shown in place
//! of the entry being edited.

use vstd::prelude::*;
use crate::app::App;
use crate::mode::{Mode, StartMenuState};
use crate::models::Node;
use crate::query::{contains_str, has_substring};
use crate::text::{has_prefix, lowercase, replace_all, replaced, starts_with, to_lowercase};
use crate::titlebar::Role;

verus! {

/// The shortcut key shown beside a top-level menu entry, by the first word
/// its lowercased label contains.
pub open spec fn shortcut_of(label: Seq<char>, is_root: bool) -> Option<char> {
    let low = lowercase(label);
    if !is_root {
        None
    } else if has_substring(low, "open"@) {
        Some('o')
    } else if has_substring(low, "find"@) {
        Some('f')
    } else if has_substring(low, "import"@) {
        Some('i')
    } else if has_substring(low, "settings"@) {
        Some('s')
    } else if has_substring(low, "+ new"@) {
        Some('n')
    } else if has_substring(low, "help"@) {
        Some('?')
    } else {
        None
    }
}

/// The prompt that replaces the selected menu entry while text is typed
/// into it, with its colour; none outside the typing states.
pub open spec fn start_prompt_of(mode: Mode) -> Option<(Seq<char>, Role)> {
    match mode {
        Mode::StartMenu { state } => match state {
            StartMenuState::NewPath { .. } => Some(("location: "@, Role::Insert)),
            StartMenuState::NewName { .. } => Some(("project: "@, Role::Insert)),
            StartMenuState::EditSetting { key, .. } => Some(
                (
                    if starts_with(key@, "rename_project:"@) {
                        "rename: "@
                    } else if starts_with(key@, "repath_project:"@) {
                        "repath: "@
                    } else {
                        replaced(key@, "_"@, " "@) + ": "@
                    },
                    Role::Edit,
                ),
            ),
            StartMenuState::Import { editing_root, .. } => Some(
                (if editing_root { "location: "@ } else { "search: "@ }, Role::Insert),
            ),
            StartMenuState::Main { .. } => None,
        },
        _ => None,
    }
}

/// The prompt for the menu entry being typed into (see `start_prompt_of`).
pub fn start_prompt(mode: &Mode) -> (r: Option<(String, Role)>)
    ensures
        match r {
            Some(p) => start_prompt_of(*mode) == Some((p.0@, p.1)),
            None => start_prompt_of(*mode) is None,
        },
{
    match mode {
        Mode::StartMenu { state } => match state {
            StartMenuState::NewPath { .. } => Some((String::from_str("location: "), Role::Insert)),
            StartMenuState::NewName { .. } => Some((String::from_str("project: "), Role::Insert)),
            StartMenuState::EditSetting { key, .. } => {
                let text = if has_prefix(key.as_str(), "rename_project:") {
                    String::from_str("rename: ")
                } else if has_prefix(key.as_str(), "repath_project:") {
                    String::from_str("repath: ")
                } else {
                    proof {
                        reveal_strlit("_");
                    }
                    let mut t = replace_all(key.as_str(), "_", " ");
                    t.append(": ");
                    t
                };
                Some((text, Role::Edit))
            },
            StartMenuState::Import { editing_root, .. } => {
                if *editing_root {
                    Some((String::from_str("location: "), Role::Insert))
                } else {
                    Some((String::from_str("search: "), Role::Insert))
                }
            },
            StartMenuState::Main { .. } => None,
        },
        _ => None,
    }
}

impl App {
    /// The shortcut key shown beside menu entry `id` (see `shortcut_of`).
    pub fn menu_shortcut(&self, id: usize) -> (r: Option<char>)
        requires
            (id as int) < self.nodes@.len(),
        ensures
            r == shortcut_of(self.nodes@[id as int].label@, self.nodes@[id as int].parent is None),
    {
        let n = &self.nodes[id];
        if n.parent.is_some() {
            return None;
        }
        let low = to_lowercase(n.label.as_str());
        let l = low.as_str();
        if contains_str(l, "open") {
            Some('o')
        } else if contains_str(l, "find") {
            Some('f')
        } else if contains_str(l, "import") {
            Some('i')
        } else if contains_str(l, "settings") {
            Some('s')
        } else if contains_str(l, "+ new") {
            Some('n')
        } else if contains_str(l, "help") {
            Some('?')
        } else {
            None
        }
    }
}

/// The width a menu entry asks for: its label, two cells per level of
/// depth, and six more.
pub open spec fn entry_width(nodes: Seq<Node>, e: (usize, usize)) -> int {
    nodes[e.0 as int].label@.len() + e.1 * 2 + 6
}

/// The entry widths of a visible order fit in `u16` (so that counting them
/// in `u16`, as the screen does, neither wraps nor overflows).
pub open spec fn widths_fit(nodes: Seq<Node>, order: Seq<(usize, usize)>) -> bool {
    forall|k: int| #![trigger order[k]] 0 <= k < order.len() ==> {
        &&& (order[k].0 as int) < nodes.len()
        &&& entry_width(nodes, order[k]) <= u16::MAX
    }
}

/// Whether the entry widths of `order` fit in `u16` (see `widths_fit`).
pub fn widths_fit_check(nodes: &[Node], order: &[(usize, usize)]) -> (r: bool)
    ensures
        r == widths_fit(nodes@, order@),
{
    let mut k: usize = 0;
    while k < order.len()
        invariant
            k <= order@.len(),
            forall|j: int| #![trigger order@[j]] 0 <= j < k ==> {
                &&& (order@[j].0 as int) < nodes@.len()
                &&& entry_width(nodes@, order@[j]) <= u16::MAX
            },
        decreases order@.len() - k,
    {
        let (id, depth) = order[k];
        if id >= nodes.len() {
            proof {
                assert(!((order@[k as int].0 as int) < nodes@.len() && entry_width(nodes@, order@[k as int]) <= u16::MAX));
            }
            return false;
        }
        let c = nodes[id].label.unicode_len() as u64;
        let d = depth as u64;
        proof {
            assert(order@[k as int] == (id, depth));
        }
        if d > 65535 || c > 65535 || c + d * 2 + 6 > 65535 {
            proof {
                assert(entry_width(nodes@, order@[k as int]) > u16::MAX);
            }
            return false;
        }
        proof {
            assert(entry_width(nodes@, order@[k as int]) <= u16::MAX);
            assert((order@[k as int].0 as int) < nodes@.len());
        }
        k = k + 1;
    }
    true
}

/// The widest of the first `m` entries, and at least 40.
pub open spec fn widest(nodes: Seq<Node>, order: Seq<(usize, usize)>, m: int) -> int
    decreases m,
{
    if m <= 0 {
        40
    } else {
        let w = widest(nodes, order, m - 1);
        let e = entry_width(nodes, order[m - 1]);
        if e > w { e } else { w }
    }
}

/// `a - b`, or 0 when `b` is larger.
pub open spec fn sat_sub(a: int, b: int) -> int {
    if a > b { a - b } else { 0 }
}

/// The width of the menu: the widest entry (at least 40), but no more than
/// the screen width less 4.
pub open spec fn menu_width_of(nodes: Seq<Node>, order: Seq<(usize, usize)>, inner_width: u16) -> int {
    let w = widest(nodes, order, order.len() as int);
    let cap = sat_sub(inner_width as int, 4);
    if w < cap { w } else { cap }
}

/// The width of the start menu for the visible entries `order` on a screen
/// `inner_width` cells wide.
pub fn start_menu_width(nodes: &[Node], order: &[(usize, usize)], inner_width: u16) -> (r: u16)
    requires
        widths_fit(nodes@, order@),
    ensures
        r == menu_width_of(nodes@, order@, inner_width),
{
    let mut w: u16 = 40;
    let mut k: usize = 0;
    while k < order.len()
        invariant
            k <= order@.len(),
            widths_fit(nodes@, order@),
            w == widest(nodes@, order@, k as int),
        decreases order@.len() - k,
    {
        let (id, depth) = order[k];
        proof {
            assert(entry_width(nodes@, order@[k as int]) <= u16::MAX);
        }
        let c = nodes[id].label.unicode_len() as u64;
        let e = (c + (depth as u64) * 2 + 6) as u16;
        if e > w {
            w = e;
        }
        k = k + 1;
    }
    let cap = inner_width.saturating_sub(4);
    if w < cap { w } else { cap }
}

/// Where the parts of the start screen go, for a screen area starting at
/// `(x, y)` of `width` by `height` cells and a banner of `banner_w` by
/// `banner_h` cells: the banner centred, the menu two rows below it and
/// left-aligned with it.
pub struct StartLayout {
    pub banner_x: u16,
    pub banner_y: u16,
    /// The column just right of the banner, where shortcut keys end.
    pub banner_right_x: u16,
    pub menu_x: u16,
    pub menu_y: u16,
    /// How many menu rows fit.
    pub visible_height: u16,
}

pub open spec fn banner_x_of(x: u16, width: u16, banner_w: u16) -> int {
    x + sat_sub(width as int, banner_w as int) / 2
}

pub open spec fn banner_y_of(y: u16, height: u16, banner_h: u16) -> int {
    y + sat_sub(height as int, banner_h + 12) / 2
}

/// The layout fits in `u16` coordinates.
pub open spec fn start_layout_fits(x: u16, y: u16, width: u16, height: u16, banner_w: u16, banner_h: u16) -> bool {
    &&& banner_x_of(x, width, banner_w) + banner_w <= u16::MAX
    &&& banner_y_of(y, height, banner_h) + banner_h + 2 <= u16::MAX
    &&& banner_h + 12 <= u16::MAX
}

/// The start-screen layout (see `StartLayout`).
pub fn start_layout(x: u16, y: u16, width: u16, height: u16, banner_w: u16, banner_h: u16) -> (r: StartLayout)
    requires
        start_layout_fits(x, y, width, height, banner_w, banner_h),
    ensures
        r.banner_x == banner_x_of(x, width, banner_w),
        r.banner_y == banner_y_of(y, height, banner_h),
        r.banner_right_x == r.banner_x + banner_w,
        r.menu_x == r.banner_x,
        r.menu_y == r.banner_y + banner_h + 2,
        r.visible_height == sat_sub(height as int, banner_h + 4),
{
    let banner_x = x + width.saturating_sub(banner_w) / 2;
    let banner_y = y + height.saturating_sub(banner_h + 12) / 2;
    StartLayout {
        banner_x,
        banner_y,
        banner_right_x: banner_x + banner_w,
        menu_x: banner_x,
        menu_y: banner_y + banner_h + 2,
        visible_height: height.saturating_sub(banner_h + 4),
    }
}

/// The screen row of menu entry `idx` when the menu is scrolled by
/// `camera_y`, if it falls within the `visible_height` rows.
pub fn menu_row(idx: usize, camera_y: i32, visible_height: u16) -> (r: Option<u16>)
    requires
        idx <= i32::MAX,
        i32::MIN <= idx - camera_y <= i32::MAX,
    ensures
        r == if (idx as int) - camera_y >= 0 && (idx as int) - camera_y < visible_height {
            Some(((idx as int) - camera_y) as u16)
        } else {
            None
        },
{
    let sy: i32 = idx as i32 - camera_y;
    if sy < 0 || sy >= visible_height as i32 {
        None
    } else {
        Some(sy as u16)
    }
}

} // verus!
