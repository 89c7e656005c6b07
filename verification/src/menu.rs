//! The start menu: its node tree (projects, actions, settings, themes) and
//! the moves through it.

use vstd::prelude::*;
use vstd::string::StringExecFns;
use crate::app::App;
use crate::mode::{ArrowSettings, Mode, StartMenuState};
use crate::ops::saved;
use crate::persistence::Registry;
use crate::forest::{children_ok, forest, links_ok, parents_ok, ranked};
use crate::models::{Node};
use crate::persistence::{GlobalSettings, ProjectEntry};

verus! {

/// The label of menu node `k` for `p` projects and `t` themes.
pub open spec fn menu_label(
    reg: Seq<ProjectEntry>,
    s: GlobalSettings,
    themes: Seq<String>,
    palette: Seq<char>,
    k: int,
) -> Seq<char> {
    let p = reg.len() as int;
    let t = themes.len() as int;
    if k == 0 {
        "📁 Open"@
    } else if k <= p {
        reg[k - 1].name@ + "  ("@ + reg[k - 1].path@ + ")"@
    } else if k == p + 1 {
        "+ New"@
    } else if k == p + 2 {
        "📥 Import"@
    } else if k == p + 3 {
        "🔍 Find"@
    } else if k == p + 4 {
        "⚙ Settings"@
    } else if k == p + 5 {
        "Default filaments path: "@ + s.default_projects_path@
    } else if k == p + 6 {
        "Username: "@ + s.username@
    } else if k == p + 7 {
        "🎨 Themes"@
    } else if k < p + 8 + t {
        let n = themes[k - p - 8]@;
        if n == palette {
            "• "@ + n
        } else {
            n
        }
    } else {
        "❓ Help"@
    }
}

/// The parent of menu node `k`: "Open" for the projects, "Settings" for the
/// settings and "Themes" for the palettes.
pub open spec fn menu_parent(p: int, t: int, k: int) -> Option<usize> {
    if 1 <= k <= p {
        Some(0)
    } else if p + 5 <= k <= p + 7 {
        Some((p + 4) as usize)
    } else if p + 8 <= k < p + 8 + t {
        Some((p + 7) as usize)
    } else {
        None
    }
}

/// The indices `start`, `start + 1`, ... (`count` of them).
pub open spec fn index_run(start: int, count: nat) -> Seq<usize> {
    Seq::new(count, |i: int| (start + i) as usize)
}

/// The children of menu node `k`.
pub open spec fn menu_children(p: int, t: int, k: int) -> Seq<usize> {
    if k == 0 {
        index_run(1, p as nat)
    } else if k == p + 4 {
        index_run(p + 5, 3)
    } else if k == p + 7 {
        index_run(p + 8, t as nat)
    } else {
        Seq::empty()
    }
}

/// Node `n` is a plain menu node at row and height `k` with the given
/// label, parent, children and fold state.
pub open spec fn menu_node_ok(n: Node, label: Seq<char>, parent: Option<usize>, children: Seq<usize>, collapsed: bool, k: int) -> bool {
    &&& n.label@ == label
    &&& n.parent == parent
    &&& n.children@ == children
    &&& n.links@.len() == 0
    &&& n.collapsed == collapsed
    &&& n.row == k
    &&& n.world_x == 0
    &&& n.world_y == k
    &&& n.world_x_end == 0
    &&& n.tags@.len() == 0
    &&& n.times@.len() == 0
    &&& !n.is_managed_note
    &&& n.managed is None
}

/// `nodes` is the start menu for the registry `reg`, the settings `s`, the
/// palettes `themes` and the active palette `palette`: "Open" with one
/// child per project, "+ New", "Import", "Find", "Settings" (folded) with
/// the default path, the user name and "Themes" (folded, one child per
/// palette, the active one marked), and "Help".
pub open spec fn is_main_menu(
    nodes: Seq<Node>,
    reg: Seq<ProjectEntry>,
    s: GlobalSettings,
    themes: Seq<String>,
    palette: Seq<char>,
) -> bool {
    let p = reg.len() as int;
    let t = themes.len() as int;
    &&& nodes.len() == p + t + 9
    &&& forall|k: int|
        #![trigger nodes[k]]
        0 <= k < nodes.len() ==> menu_node_ok(
            nodes[k],
            menu_label(reg, s, themes, palette, k),
            menu_parent(p, t, k),
            menu_children(p, t, k),
            k == p + 4 || k == p + 7,
            k,
        )
}

/// The depth of menu node `k`.
pub open spec fn menu_rank(p: int, t: int, k: int) -> nat {
    if 1 <= k <= p || p + 5 <= k <= p + 7 {
        1
    } else if p + 8 <= k < p + 8 + t {
        2
    } else {
        0
    }
}

/// The start menu is a forest.
pub proof fn lemma_menu_forest(
    nodes: Seq<Node>,
    reg: Seq<ProjectEntry>,
    s: GlobalSettings,
    themes: Seq<String>,
    palette: Seq<char>,
)
    requires
        is_main_menu(nodes, reg, s, themes, palette),
        nodes.len() <= usize::MAX,
    ensures
        forest(nodes),
{
    let p = reg.len() as int;
    let t = themes.len() as int;
    assert forall|c: int|
        #![trigger nodes[c].parent]
        0 <= c < nodes.len() && nodes[c].parent is Some implies {
            &&& (nodes[c].parent->0 as int) < nodes.len()
            &&& nodes[nodes[c].parent->0 as int].children@.contains(c as usize)
        } by {
        let q = nodes[c].parent->0 as int;
        assert(menu_node_ok(nodes[c], menu_label(reg, s, themes, palette, c), menu_parent(p, t, c), menu_children(p, t, c), c == p + 4 || c == p + 7, c));
        assert(menu_node_ok(nodes[q], menu_label(reg, s, themes, palette, q), menu_parent(p, t, q), menu_children(p, t, q), q == p + 4 || q == p + 7, q));
        if 1 <= c <= p {
            assert(nodes[q].children@[c - 1] == c as usize);
        } else if p + 5 <= c <= p + 7 {
            assert(nodes[q].children@[c - p - 5] == c as usize);
        } else {
            assert(nodes[q].children@[c - p - 8] == c as usize);
        }
    }
    assert(parents_ok(nodes));
    assert forall|q: int|
        #![trigger nodes[q].children]
        0 <= q < nodes.len() implies {
            &&& nodes[q].children@.no_duplicates()
            &&& forall|j: int|
                #![trigger nodes[q].children@[j]]
                0 <= j < nodes[q].children@.len() ==> {
                    &&& (nodes[q].children@[j] as int) < nodes.len()
                    &&& nodes[nodes[q].children@[j] as int].parent == Some(q as usize)
                }
        } by {
        assert(menu_node_ok(nodes[q], menu_label(reg, s, themes, palette, q), menu_parent(p, t, q), menu_children(p, t, q), q == p + 4 || q == p + 7, q));
        let cs = nodes[q].children@;
        assert forall|a: int, b: int| 0 <= a < cs.len() && 0 <= b < cs.len() && a != b implies cs[a] != cs[b] by {
            if q == 0 {
                assert(cs[a] as int == 1 + a);
                assert(cs[b] as int == 1 + b);
            } else if q == p + 4 {
                assert(cs[a] as int == p + 5 + a);
                assert(cs[b] as int == p + 5 + b);
            } else {
                assert(cs[a] as int == p + 8 + a);
                assert(cs[b] as int == p + 8 + b);
            }
        }
        assert forall|j: int|
            #![trigger nodes[q].children@[j]]
            0 <= j < nodes[q].children@.len() implies {
                &&& (nodes[q].children@[j] as int) < nodes.len()
                &&& nodes[nodes[q].children@[j] as int].parent == Some(q as usize)
            } by {
            let c = nodes[q].children@[j] as int;
            if q == 0 {
                assert(c == 1 + j);
            } else if q == p + 4 {
                assert(c == p + 5 + j);
            } else {
                assert(c == p + 8 + j);
            }
            assert(menu_node_ok(nodes[c], menu_label(reg, s, themes, palette, c), menu_parent(p, t, c), menu_children(p, t, c), c == p + 4 || c == p + 7, c));
        }
    }
    assert(children_ok(nodes));
    assert forall|i: int, k: int|
        #![trigger nodes[i].links@[k]]
        0 <= i < nodes.len() && 0 <= k < nodes[i].links@.len() implies (nodes[i].links@[k] as int) < nodes.len() by {
        assert(menu_node_ok(nodes[i], menu_label(reg, s, themes, palette, i), menu_parent(p, t, i), menu_children(p, t, i), i == p + 4 || i == p + 7, i));
    }
    assert(links_ok(nodes));
    let rank = Seq::new(nodes.len(), |k: int| menu_rank(p, t, k));
    assert forall|c: int|
        #![trigger nodes[c].parent]
        0 <= c < nodes.len() && nodes[c].parent is Some implies rank[nodes[c].parent->0 as int] < rank[c] by {
        assert(menu_node_ok(nodes[c], menu_label(reg, s, themes, palette, c), menu_parent(p, t, c), menu_children(p, t, c), c == p + 4 || c == p + 7, c));
    }
    assert(ranked(nodes, rank));
}

/// A plain node with the given label, parent, children and fold state at
/// row and height `k`.
fn menu_node(label: String, parent: Option<usize>, children: Vec<usize>, collapsed: bool, k: usize) -> (n: Node)
    requires
        k <= i32::MAX,
    ensures
        menu_node_ok(n, label@, parent, children@, collapsed, k as int),
{
    Node {
        label,
        parent,
        children,
        links: Vec::new(),
        collapsed,
        row: k,
        world_x: 0,
        world_y: k as i32,
        world_x_end: 0,
        tags: Vec::new(),
        times: Vec::new(),
        is_managed_note: false,
        managed: None,
    }
}

/// The indices `start .. start + count`.
pub(crate) fn index_vec(start: usize, count: usize) -> (v: Vec<usize>)
    requires
        start + count <= usize::MAX,
    ensures
        v@ == index_run(start as int, count as nat),
{
    let mut v: Vec<usize> = Vec::new();
    let mut i: usize = 0;
    while i < count
        invariant
            i <= count,
            start + count <= usize::MAX,
            v@ == index_run(start as int, i as nat),
        decreases count - i,
    {
        v.push(start + i);
        proof {
            assert(v@ =~= index_run(start as int, (i + 1) as nat));
        }
        i = i + 1;
    }
    v
}

/// `a` followed by `b`.
fn joined(a: &str, b: &str) -> (r: String)
    ensures
        r@ == a@ + b@,
{
    let mut r = String::from_str(a);
    r.append(b);
    r
}

/// The first `k` nodes of the start menu are in place.
pub open spec fn menu_prefix(
    nodes: Seq<Node>,
    reg: Seq<ProjectEntry>,
    s: GlobalSettings,
    themes: Seq<String>,
    palette: Seq<char>,
    k: int,
) -> bool {
    let p = reg.len() as int;
    let t = themes.len() as int;
    &&& nodes.len() == k
    &&& forall|j: int|
        #![trigger nodes[j]]
        0 <= j < k ==> menu_node_ok(
            nodes[j],
            menu_label(reg, s, themes, palette, j),
            menu_parent(p, t, j),
            menu_children(p, t, j),
            j == p + 4 || j == p + 7,
            j,
        )
}

/// The start menu for the registry `reg`, the settings `s`, the palettes
/// `themes` and the active palette `palette`.
pub fn main_menu_nodes(reg: &Vec<ProjectEntry>, s: &GlobalSettings, themes: &Vec<String>, palette: &String) -> (nodes: Vec<Node>)
    requires
        reg@.len() + themes@.len() + 9 <= i32::MAX,
    ensures
        is_main_menu(nodes@, reg@, *s, themes@, palette@),
{
    let p = reg.len();
    let t = themes.len();
    let ghost g = (reg@, *s, themes@, palette@);
    let mut nodes: Vec<Node> = Vec::new();
    nodes.push(menu_node(String::from_str("📁 Open"), None, index_vec(1, p), false, 0));
    proof {
        assert(menu_prefix(nodes@, reg@, *s, themes@, palette@, 1));
    }
    let mut i: usize = 0;
    while i < p
        invariant
            p == reg@.len(),
            t == themes@.len(),
            p + t + 9 <= i32::MAX,
            i <= p,
            menu_prefix(nodes@, reg@, *s, themes@, palette@, i + 1),
        decreases p - i,
    {
        let e = &reg[i];
        let label = joined(joined(joined(e.name.as_str(), "  (").as_str(), e.path.as_str()).as_str(), ")");
        let n = menu_node(label, Some(0), Vec::new(), false, i + 1);
        let ghost before = nodes@;
        nodes.push(n);
        proof {
            assert(nodes@[i + 1] == n);
            assert forall|j: int| #![trigger nodes@[j]] 0 <= j < i + 1 implies nodes@[j] == before[j] by {}
            assert(menu_prefix(nodes@, reg@, *s, themes@, palette@, i + 2));
        }
        i = i + 1;
    }
    nodes.push(menu_node(String::from_str("+ New"), None, Vec::new(), false, p + 1));
    nodes.push(menu_node(String::from_str("📥 Import"), None, Vec::new(), false, p + 2));
    nodes.push(menu_node(String::from_str("🔍 Find"), None, Vec::new(), false, p + 3));
    nodes.push(menu_node(String::from_str("⚙ Settings"), None, index_vec(p + 5, 3), true, p + 4));
    nodes.push(menu_node(joined("Default filaments path: ", s.default_projects_path.as_str()), Some(p + 4), Vec::new(), false, p + 5));
    nodes.push(menu_node(joined("Username: ", s.username.as_str()), Some(p + 4), Vec::new(), false, p + 6));
    nodes.push(menu_node(String::from_str("🎨 Themes"), Some(p + 4), index_vec(p + 8, t), true, p + 7));
    proof {
        assert(menu_prefix(nodes@, reg@, *s, themes@, palette@, p + 8));
    }
    let mut k: usize = 0;
    while k < t
        invariant
            p == reg@.len(),
            t == themes@.len(),
            p + t + 9 <= i32::MAX,
            k <= t,
            menu_prefix(nodes@, reg@, *s, themes@, palette@, p + 8 + k),
        decreases t - k,
    {
        let name = &themes[k];
        let label = if *name == *palette {
            joined("• ", name.as_str())
        } else {
            name.clone()
        };
        let n = menu_node(label, Some(p + 7), Vec::new(), false, p + 8 + k);
        let ghost before = nodes@;
        nodes.push(n);
        proof {
            assert(nodes@[p + 8 + k] == n);
            assert forall|j: int| #![trigger nodes@[j]] 0 <= j < p + 8 + k implies nodes@[j] == before[j] by {}
            assert(menu_prefix(nodes@, reg@, *s, themes@, palette@, p + 8 + k + 1));
        }
        k = k + 1;
    }
    nodes.push(menu_node(String::from_str("❓ Help"), None, Vec::new(), false, p + 8 + t));
    proof {
        assert(menu_prefix(nodes@, reg@, *s, themes@, palette@, p + 9 + t));
    }
    nodes
}

impl App {
    /// Replace the nodes with the start menu for the current registry,
    /// settings and palettes.
    pub fn init_main_menu_nodes(&mut self)
        requires
            old(self).registry.projects@.len() + old(self).themes@.len() + 9 <= i32::MAX,
        ensures
            is_main_menu(final(self).nodes@, old(self).registry.projects@, old(self).settings, old(self).themes@, old(self).palette@),
            forest(final(self).nodes@),
            *final(self) == (App { nodes: final(self).nodes, ..*old(self) }),
    {
        self.nodes = main_menu_nodes(&self.registry.projects, &self.settings, &self.themes, &self.palette);
        proof {
            lemma_menu_forest(self.nodes@, self.registry.projects@, self.settings, self.themes@, self.palette@);
        }
    }
}

impl App {
    /// A fresh application on the start menu, for the given settings,
    /// registry, active palette and available palettes.
    pub fn new(settings: GlobalSettings, registry: Registry, palette: String, themes: Vec<String>) -> (app: App)
        requires
            registry.projects@.len() + themes@.len() + 9 <= i32::MAX,
        ensures
            app.wf(),
            is_main_menu(app.nodes@, registry.projects@, settings, themes@, palette@),
            app == (App {
                arrow: ArrowSettings { global: false, incoming: crate::mode::ArrowFidelity::Tree, outgoing: crate::mode::ArrowFidelity::Tree },
                nodes: app.nodes,
                queries: app.queries,
                notes: app.notes,
                selected: 0,
                camera_x: 0,
                camera_y: 0,
                cursor_x: 0,
                cursor_y: 0,
                mode: Mode::StartMenu { state: StartMenuState::Main { selected: 0 } },
                project_path: None,
                project_name: app.project_name,
                project_created_at: 0,
                registry,
                settings,
                palette,
                themes,
                status_message: None,
                undo_stack: app.undo_stack,
                last_link_origin: None,
                last_link_idx: 0,
                help_previous_mode: None,
                show_note_previews: true,
                effects: app.effects,
            }),
            app.queries@.len() == 0,
            app.notes@.len() == 0,
            app.project_name@.len() == 0,
            app.undo_stack@.len() == 0,
            app.effects@.len() == 0,
    {
        let nodes = main_menu_nodes(&registry.projects, &settings, &themes, &palette);
        proof {
            lemma_menu_forest(nodes@, registry.projects@, settings, themes@, palette@);
        }
        App {
            arrow: ArrowSettings { global: false, incoming: crate::mode::ArrowFidelity::Tree, outgoing: crate::mode::ArrowFidelity::Tree },
            nodes,
            queries: Vec::new(),
            notes: Vec::new(),
            selected: 0,
            camera_x: 0,
            camera_y: 0,
            cursor_x: 0,
            cursor_y: 0,
            mode: Mode::StartMenu { state: StartMenuState::Main { selected: 0 } },
            project_path: None,
            project_name: String::new(),
            project_created_at: 0,
            registry,
            settings,
            palette,
            themes,
            status_message: None,
            undo_stack: Vec::new(),
            last_link_origin: None,
            last_link_idx: 0,
            help_previous_mode: None,
            show_note_previews: true,
            effects: Vec::new(),
        }
    }

    /// What `quit_to_main_menu` does: `post` is `pre` after it.
    pub open spec fn quit_to_main_menu_done(pre: App, post: App) -> bool {
        &&& post.wf()
        &&& is_main_menu(post.nodes@, pre.registry.projects@, pre.settings, pre.themes@, pre.palette@)
        &&& post.project_name@.len() == 0
        &&& exists|mid: App|
                #[trigger] saved(pre, mid) && post == (App {
                    nodes: post.nodes,
                    project_path: None,
                    project_name: post.project_name,
                    selected: 0,
                    mode: Mode::StartMenu { state: StartMenuState::Main { selected: 0 } },
                    ..mid
                })
    }

    /// Save and close the open project and go back to the start menu.
    pub fn quit_to_main_menu(&mut self)
        requires
            old(self).wf(),
            old(self).registry.projects@.len() + old(self).themes@.len() + 9 <= i32::MAX,
        ensures
            Self::quit_to_main_menu_done(*old(self), *final(self)),
    {
        self.save_project();
        let ghost mid = *self;
        self.project_path = None;
        self.project_name = String::new();
        self.init_main_menu_nodes();
        self.selected = 0;
        self.mode = Mode::StartMenu { state: StartMenuState::Main { selected: 0 } };
        proof {
            assert(saved(*old(self), mid));
        }
    }
}

} // verus!
