//! What Enter does on the start menu, and the host's answers to the work it
//! asks for (creating and importing projects).

use vstd::prelude::*;
use vstd::string::{StrSliceExecFns, StringExecFns};
use crate::app::{mode_ok, App, Effect};
use crate::buffer::utf8_len;
use crate::forest::{forest, push_child};
use crate::help::help_opened;
use crate::menu::is_main_menu;
use crate::mode::{CanvasState, Mode, StartMenuState};
use crate::models::Node;
use crate::persistence::{expand_home, expanded, home_dir_text, join_path, path_join, ProjectEntry};
use crate::query::{contains_str, has_substring};
use crate::start_menu::{edit_target, editing, import_opened, new_started, project_of, under_open};
use crate::layout::layout_of;
use crate::ops::{advanced, saved};
use crate::start_menu::main_selected;
use crate::text::{eq_lit, has_prefix, lowercase, parse_usize, starts_with, strip_prefixes, stripped, to_lowercase, trim, trimmed, usize_text};

verus! {

/// `b` is `a` with one more piece of work for the host, `e`.
pub open spec fn asked(a: App, b: App) -> bool {
    &&& b.effects@.len() == a.effects@.len() + 1
    &&& b.effects@.take(a.effects@.len() as int) == a.effects@
}

/// `b` is `a` asking the host to open the project at `path`.
pub open spec fn loads(a: App, b: App, path: Seq<char>) -> bool {
    &&& asked(a, b)
    &&& b.effects@.last() matches Effect::LoadProject { path: p } && p@ == path
    &&& b == (App { effects: b.effects, ..a })
}

/// Menu node `s` hangs under a node whose label mentions "themes" but not
/// "open".
pub open spec fn under_themes(a: App, s: usize) -> bool {
    a.nodes@[s as int].parent matches Some(q) && !has_substring(lowercase(a.nodes@[q as int].label@), "open"@)
        && has_substring(lowercase(a.nodes@[q as int].label@), "themes"@)
}

/// `b` is `a` with palette `name` chosen: the host switches to it and saves
/// the settings, and the menu is rebuilt with it marked.
pub open spec fn theme_chosen(a: App, b: App, name: Seq<char>) -> bool {
    let n = a.effects@.len() as int;
    &&& b.palette@ == name
    &&& is_main_menu(b.nodes@, a.registry.projects@, a.settings, a.themes@, name)
    &&& b.effects@.len() == n + 2
    &&& b.effects@.take(n) == a.effects@
    &&& b.effects@[n] matches Effect::UsePalette { name: p } && p@ == name
    &&& b.effects@[n + 1] == Effect::SaveSettings
    &&& b == (App { nodes: b.nodes, palette: b.palette, effects: b.effects, ..a })
}

/// `b` is `a` with the fold state of the selected node flipped.
pub open spec fn fold_toggled(a: App, b: App) -> bool {
    let s = a.selected as int;
    &&& b.nodes@ == a.nodes@.update(s, Node { collapsed: !a.nodes@[s].collapsed, ..a.nodes@[s] })
    &&& b == (App { nodes: b.nodes, ..a })
}

/// What Enter does on a leaf of the start menu's main list, by the label
/// of the selected node (in lower case): "find" says it is not there yet,
/// "new" starts a new project, "import" opens the import dialog, "help"
/// shows the help tree, the default path and the user name are edited; a
/// project is opened; a palette is chosen.
pub open spec fn main_confirmed(a: App, b: App) -> bool {
    let s = a.selected;
    let l = lowercase(a.nodes@[s as int].label@);
    if has_substring(l, "find"@) {
        &&& b.status_message matches Some(m) && m@ == "Find not implemented yet"@
        &&& b == (App { status_message: b.status_message, ..a })
    } else if has_substring(l, "new"@) {
        new_started(a, b)
    } else if has_substring(l, "import"@) {
        import_opened(a, b)
    } else if has_substring(l, "help"@) {
        help_opened(a, b)
    } else if has_substring(l, "default filaments path"@) || has_substring(l, "username"@) {
        match edit_target(a, s) {
            Some((key, value)) => editing(a, b, key, value),
            None => b == a,
        }
    } else if under_open(a, s) {
        match project_of(a, s) {
            Some(k) => loads(a, b, a.registry.projects@[k].path@),
            None => b == a,
        }
    } else if under_themes(a, s) {
        theme_chosen(a, b, stripped(a.nodes@[s as int].label@, "• "@))
    } else {
        b == a
    }
}

/// `r2` is `r1` with entry `i` renamed to `name`.
pub open spec fn renamed(r1: Seq<ProjectEntry>, r2: Seq<ProjectEntry>, i: int, name: Seq<char>) -> bool {
    &&& r2.len() == r1.len()
    &&& forall|j: int| 0 <= j < r1.len() && j != i ==> #[trigger] r2[j] == r1[j]
    &&& r2[i].name@ == name
    &&& r2[i].path == r1[i].path
}

/// `r2` is `r1` with entry `i` moved to `path`.
pub open spec fn repathed(r1: Seq<ProjectEntry>, r2: Seq<ProjectEntry>, i: int, path: Seq<char>) -> bool {
    &&& r2.len() == r1.len()
    &&& forall|j: int| 0 <= j < r1.len() && j != i ==> #[trigger] r2[j] == r1[j]
    &&& r2[i].path@ == path
    &&& r2[i].name == r1[i].name
}

/// The registry index named by a setting key "<prefix><index>".
pub open spec fn key_index(key: Seq<char>, prefix: Seq<char>) -> Option<usize> {
    if starts_with(key, prefix) {
        usize_text(stripped(key, prefix))
    } else {
        None
    }
}

/// What Enter does when editing setting `key` with the text `buf`: a
/// project is renamed or moved (and the registry saved) when the key names
/// one, the default path or the user name is set otherwise (and the
/// settings saved); then the menu is rebuilt and its main list comes back.
pub open spec fn setting_confirmed(a: App, b: App, key: Seq<char>, buf: Seq<char>) -> bool {
    let reg = a.registry.projects@;
    let n = a.effects@.len() as int;
    let rn = starts_with(key, "rename_project:"@);
    let rp = !rn && starts_with(key, "repath_project:"@);
    let idx = if rn { key_index(key, "rename_project:"@) } else { key_index(key, "repath_project:"@) };
    let hit = idx matches Some(i) && (i as int) < reg.len();
    &&& if rn || rp {
        &&& b.settings == a.settings
        &&& if hit {
            let i = idx->0 as int;
            &&& if rn { renamed(reg, b.registry.projects@, i, buf) } else { repathed(reg, b.registry.projects@, i, buf) }
            &&& b.effects@ == a.effects@.push(Effect::SaveRegistry)
        } else {
            &&& b.registry == a.registry
            &&& b.effects == a.effects
        }
    } else {
        &&& b.registry == a.registry
        &&& b.effects@ == a.effects@.push(Effect::SaveSettings)
        &&& b.settings.default_projects_path@ == (if key == "default_projects_path"@ { buf } else { a.settings.default_projects_path@ })
        &&& b.settings.username@ == (if key == "username"@ { buf } else { a.settings.username@ })
    }
    &&& is_main_menu(b.nodes@, b.registry.projects@, b.settings, a.themes@, a.palette@)
    &&& b.mode == (Mode::StartMenu { state: StartMenuState::Main { selected: a.selected } })
    &&& b == (App { nodes: b.nodes, registry: b.registry, settings: b.settings, effects: b.effects, mode: b.mode, ..a })
}

/// What Esc does in the start menu (see `start_menu_cancel`).
pub open spec fn menu_cancelled(a: App, b: App) -> bool {
    &&& a.project_path is Some ==> b == (App { mode: Mode::Canvas { state: CanvasState::Browse }, ..a })
    &&& a.project_path is None ==> {
        &&& is_main_menu(b.nodes@, a.registry.projects@, a.settings, a.themes@, a.palette@)
        &&& b == (App { nodes: b.nodes, mode: Mode::StartMenu { state: StartMenuState::Main { selected: 0 } }, ..a })
    }
}

/// What Enter does on the path of a new project: a blank path cancels;
/// otherwise the path (a leading "~" expanded with the home folder) is
/// kept, the placeholder entry reads "project: project" and the name is
/// edited from "project".
pub open spec fn path_confirmed(a: App, b: App, buf: Seq<char>) -> bool {
    let raw = trimmed(buf);
    let s = a.selected as int;
    if raw.len() == 0 {
        menu_cancelled(a, b)
    } else {
        exists|home: Option<Seq<char>>|
            #![trigger expanded(raw, home)]
            {
                &&& b.nodes@.len() == a.nodes@.len()
                &&& forall|j: int| 0 <= j < a.nodes@.len() && j != s ==> #[trigger] b.nodes@[j] == a.nodes@[j]
                &&& b.nodes@[s] == (Node { label: b.nodes@[s].label, ..a.nodes@[s] })
                &&& b.nodes@[s].label@ == "project: project"@
                &&& b.mode matches Mode::StartMenu { state: StartMenuState::NewName { path, buf: nb, cursor } }
                    && path@ == expanded(raw, home) && nb@ == "project"@ && cursor == 7
                &&& b == (App { nodes: b.nodes, mode: b.mode, ..a })
            }
    }
}

/// The name a new project gets from the typed text: the text trimmed, or
/// "project" when that is blank.
pub open spec fn project_name_of(buf: Seq<char>) -> Seq<char> {
    if trimmed(buf).len() == 0 {
        "project"@
    } else {
        trimmed(buf)
    }
}

/// `b` is `a` asking the host to create project `name` in the folder `name`
/// under `base`.
pub open spec fn creates(a: App, b: App, base: Seq<char>, name: Seq<char>) -> bool {
    &&& asked(a, b)
    &&& b.effects@.last() matches Effect::CreateProject { root, name: n } && root@ == path_join(base, name) && n@ == name
    &&& b == (App { effects: b.effects, ..a })
}

/// What Enter does in the import dialog: the chosen match is imported, or
/// the main list comes back when there is none.
pub open spec fn import_confirmed(a: App, b: App, matches: Seq<String>, idx: usize) -> bool {
    if (idx as int) < matches.len() {
        &&& asked(a, b)
        &&& b.effects@.last() matches Effect::ImportProject { path } && path@ == matches[idx as int]@
        &&& b == (App { effects: b.effects, ..a })
    } else {
        b == (App { mode: Mode::StartMenu { state: StartMenuState::Main { selected: a.selected } }, ..a })
    }
}

/// What Enter does in the start menu: a node with children folds or
/// unfolds; otherwise it depends on the dialog.
pub open spec fn menu_confirmed(a: App, b: App) -> bool {
    if a.nodes@[a.selected as int].children@.len() > 0 {
        fold_toggled(a, b)
    } else {
        match a.mode {
            Mode::StartMenu { state: StartMenuState::Main { .. } } => main_confirmed(a, b),
            Mode::StartMenu { state: StartMenuState::EditSetting { key, buf, .. } } => setting_confirmed(a, b, key@, buf@),
            Mode::StartMenu { state: StartMenuState::NewPath { buf, .. } } => path_confirmed(a, b, buf@),
            Mode::StartMenu { state: StartMenuState::NewName { path, buf, .. } } => creates(a, b, path@, project_name_of(buf@)),
            Mode::StartMenu { state: StartMenuState::Import { matches, match_idx, .. } } => import_confirmed(a, b, matches@, match_idx),
            _ => b == a,
        }
    }
}

/// What the start menu's actions need of the state.
pub open spec fn menu_ready(a: App) -> bool {
    &&& a.wf()
    &&& (a.selected as int) < a.nodes@.len()
    &&& mode_ok(a.mode, a.nodes@)
    &&& a.nodes@.len() < usize::MAX
    &&& a.registry.projects@.len() + a.themes@.len() + 9 <= i32::MAX
}

impl App {
    /// Ask the host to create project `name` in the folder `name` under
    /// `base`; it reports back with `register_and_open`.
    pub fn create_project(&mut self, base: &str, name: &str)
        ensures
            creates(*old(self), *final(self), base@, name@),
    {
        let root = join_path(base, name);
        let ghost e0 = self.effects@;
        self.effects.push(Effect::CreateProject { root, name: String::from_str(name) });
        proof {
            assert(self.effects@.take(e0.len() as int) =~= e0);
        }
    }

    /// The host created or found the project `name` at `path`: it is
    /// registered (or renamed when the path is known), the registry is
    /// saved and the project is opened.
    pub fn register_and_open(&mut self, name: String, path: String)
        ensures
            match crate::persistence::first_with_path(old(self).registry.projects@, path@) {
                Some(k) => final(self).registry.projects@ == old(self).registry.projects@.update(
                    k,
                    ProjectEntry { name, path: old(self).registry.projects@[k].path },
                ),
                None => final(self).registry.projects@ == old(self).registry.projects@.push(ProjectEntry { name, path }),
            },
            final(self).effects@.len() == old(self).effects@.len() + 2,
            final(self).effects@.take(old(self).effects@.len() as int) == old(self).effects@,
            final(self).effects@[old(self).effects@.len() as int] == Effect::SaveRegistry,
            final(self).effects@.last() matches Effect::LoadProject { path: p } && p@ == path@,
            *final(self) == (App { registry: final(self).registry, effects: final(self).effects, ..*old(self) }),
    {
        let load = path.clone();
        self.registry.add_project(ProjectEntry { name, path });
        let ghost e0 = self.effects@;
        self.effects.push(Effect::SaveRegistry);
        self.effects.push(Effect::LoadProject { path: load });
        proof {
            assert(self.effects@.take(e0.len() as int) =~= e0);
        }
    }

    /// The host could not read the settings of the project chosen in the
    /// import dialog: the status bar says so and the main list comes back.
    pub fn import_failed(&mut self)
        ensures
            final(self).status_message matches Some(m) && m@ == "Invalid project file"@,
            *final(self) == (App {
                status_message: final(self).status_message,
                mode: Mode::StartMenu { state: StartMenuState::Main { selected: old(self).selected } },
                ..*old(self)
            }),
    {
        self.status_message = Some(String::from_str("Invalid project file"));
        self.mode = Mode::StartMenu { state: StartMenuState::Main { selected: self.selected } };
    }

    /// Enter on a leaf of the start menu's main list.
    #[verifier::rlimit(60)]
    fn confirm_main(&mut self)
        requires
            menu_ready(*old(self)),
            old(self).mode matches Mode::StartMenu { state: StartMenuState::Main { .. } },
        ensures
            final(self).wf(),
            main_confirmed(*old(self), *final(self)),
    {
        proof {
            reveal_strlit("find");
            reveal_strlit("new");
            reveal_strlit("import");
            reveal_strlit("help");
            reveal_strlit("default filaments path");
            reveal_strlit("username");
            reveal_strlit("open");
            reveal_strlit("themes");
            reveal_strlit("• ");
        }
        let s = self.selected;
        let l = to_lowercase(self.nodes[s].label.as_str());
        if contains_str(l.as_str(), "find") {
            self.status_message = Some(String::from_str("Find not implemented yet"));
            return;
        }
        if contains_str(l.as_str(), "new") {
            self.start_menu_start_new();
            return;
        }
        if contains_str(l.as_str(), "import") {
            self.start_menu_import();
            return;
        }
        if contains_str(l.as_str(), "help") {
            self.canvas_start_help();
            return;
        }
        if contains_str(l.as_str(), "default filaments path") || contains_str(l.as_str(), "username") {
            self.start_menu_edit();
            return;
        }
        let q = match self.nodes[s].parent {
            Some(q) => q,
            None => {
                return;
            },
        };
        let pl = to_lowercase(self.nodes[q].label.as_str());
        if contains_str(pl.as_str(), "open") {
            match self.project_index(s) {
                Some(k) => {
                    let path = self.registry.projects[k].path.clone();
                    let ghost e0 = self.effects@;
                    self.effects.push(Effect::LoadProject { path });
                    proof {
                        assert(self.effects@.take(e0.len() as int) =~= e0);
                    }
                },
                None => {},
            }
        } else if contains_str(pl.as_str(), "themes") {
            let name = strip_prefixes(self.nodes[s].label.as_str(), "• ");
            self.palette = name.clone();
            let ghost e0 = self.effects@;
            self.effects.push(Effect::UsePalette { name });
            self.effects.push(Effect::SaveSettings);
            proof {
                assert(self.effects@.take(e0.len() as int) =~= e0);
            }
            self.init_main_menu_nodes();
        }
    }
}

/// The registry index named by `key` after `prefix`.
fn index_after(key: &str, prefix: &str) -> (r: Option<usize>)
    requires
        prefix@.len() > 0,
    ensures
        r == key_index(key@, prefix@),
{
    if has_prefix(key, prefix) {
        let rest = strip_prefixes(key, prefix);
        parse_usize(rest.as_str())
    } else {
        None
    }
}

impl App {
    /// Enter while editing a setting.
    #[verifier::rlimit(60)]
    fn confirm_setting(&mut self)
        requires
            menu_ready(*old(self)),
            old(self).mode matches Mode::StartMenu { state: StartMenuState::EditSetting { .. } },
        ensures
            final(self).wf(),
            old(self).mode matches Mode::StartMenu { state: StartMenuState::EditSetting { key, buf, .. } }
                && setting_confirmed(*old(self), *final(self), key@, buf@),
    {
        proof {
            reveal_strlit("rename_project:");
            reveal_strlit("repath_project:");
            reveal_strlit("default_projects_path");
            reveal_strlit("username");
        }
        let (key, buf) = match &self.mode {
            Mode::StartMenu { state: StartMenuState::EditSetting { key, buf, .. } } => (key.clone(), buf.clone()),
            _ => {
                return;
            },
        };
        let ghost a = *self;
        let rn = has_prefix(key.as_str(), "rename_project:");
        let rp = !rn && has_prefix(key.as_str(), "repath_project:");
        if rn || rp {
            let idx = if rn {
                index_after(key.as_str(), "rename_project:")
            } else {
                index_after(key.as_str(), "repath_project:")
            };
            match idx {
                Some(i) => {
                    if i < self.registry.projects.len() {
                        if rn {
                            self.registry.projects[i].name = buf;
                        } else {
                            self.registry.projects[i].path = buf;
                        }
                        self.effects.push(Effect::SaveRegistry);
                    }
                },
                None => {},
            }
        } else {
            if eq_lit(&key, "default_projects_path") {
                self.settings.default_projects_path = buf;
            } else if eq_lit(&key, "username") {
                self.settings.username = buf;
            }
            self.effects.push(Effect::SaveSettings);
        }
        self.init_main_menu_nodes();
        self.mode = Mode::StartMenu { state: StartMenuState::Main { selected: self.selected } };
    }

    /// Enter on the path of a new project.
    fn confirm_path(&mut self)
        requires
            menu_ready(*old(self)),
            old(self).mode matches Mode::StartMenu { state: StartMenuState::NewPath { .. } },
        ensures
            final(self).wf(),
            old(self).mode matches Mode::StartMenu { state: StartMenuState::NewPath { buf, .. } }
                && path_confirmed(*old(self), *final(self), buf@),
    {
        proof {
            reveal_strlit("project: project");
            reveal_strlit("project");
        }
        let raw = match &self.mode {
            Mode::StartMenu { state: StartMenuState::NewPath { buf, .. } } => String::from_str(trim(buf.as_str())),
            _ => {
                return;
            },
        };
        if raw.as_str().unicode_len() == 0 {
            self.start_menu_cancel();
            return;
        }
        let home = home_dir_text();
        let ghost h = match &home {
            Some(x) => Some(x@),
            None => None::<Seq<char>>,
        };
        let path = expand_home(raw.as_str(), home);
        let ghost before = self.nodes@;
        let s = self.selected;
        self.nodes[s].label = String::from_str("project: project");
        proof {
            crate::layout::lemma_forest_same_shape(before, self.nodes@);
        }
        self.mode = Mode::StartMenu { state: StartMenuState::NewName { path, buf: String::from_str("project"), cursor: 7 } };
        proof {
            assert(expanded(raw@, h) == expanded(raw@, h));
        }
    }

    /// Enter on the name of a new project.
    fn confirm_name(&mut self)
        requires
            old(self).mode matches Mode::StartMenu { state: StartMenuState::NewName { .. } },
        ensures
            old(self).mode matches Mode::StartMenu { state: StartMenuState::NewName { path, buf, .. } }
                && creates(*old(self), *final(self), path@, project_name_of(buf@)),
    {
        proof {
            reveal_strlit("project");
        }
        let (path, name) = match &self.mode {
            Mode::StartMenu { state: StartMenuState::NewName { path, buf, .. } } => {
                let t = trim(buf.as_str());
                let name = if t.unicode_len() == 0 {
                    String::from_str("project")
                } else {
                    String::from_str(t)
                };
                (path.clone(), name)
            },
            _ => {
                return;
            },
        };
        self.create_project(path.as_str(), name.as_str());
    }

    /// Enter in the import dialog.
    fn confirm_import(&mut self)
        requires
            old(self).mode matches Mode::StartMenu { state: StartMenuState::Import { .. } },
        ensures
            old(self).mode matches Mode::StartMenu { state: StartMenuState::Import { matches, match_idx, .. } }
                && import_confirmed(*old(self), *final(self), matches@, match_idx),
    {
        let pick = match &self.mode {
            Mode::StartMenu { state: StartMenuState::Import { matches, match_idx, .. } } => {
                if *match_idx < matches.len() {
                    Some(matches[*match_idx].clone())
                } else {
                    None
                }
            },
            _ => {
                return;
            },
        };
        match pick {
            Some(path) => {
                let ghost e0 = self.effects@;
                self.effects.push(Effect::ImportProject { path });
                proof {
                    assert(self.effects@.take(e0.len() as int) =~= e0);
                }
            },
            None => {
                self.mode = Mode::StartMenu { state: StartMenuState::Main { selected: self.selected } };
            },
        }
    }

    /// What `start_menu_confirm` does: `post` is `pre` after it.
    pub open spec fn start_menu_confirm_done(pre: App, post: App) -> bool {
        &&& post.wf()
        &&& menu_confirmed(pre, post)
    }

    /// Enter in the start menu (see `menu_confirmed`).
    pub fn start_menu_confirm(&mut self)
        requires
            menu_ready(*old(self)),
        ensures
            Self::start_menu_confirm_done(*old(self), *final(self)),
    {
        let s = self.selected;
        if self.nodes[s].children.len() > 0 {
            let ghost before = self.nodes@;
            self.nodes[s].collapsed = !self.nodes[s].collapsed;
            proof {
                crate::layout::lemma_forest_same_shape(before, self.nodes@);
            }
            return;
        }
        match &self.mode {
            Mode::StartMenu { state: StartMenuState::Main { .. } } => self.confirm_main(),
            Mode::StartMenu { state: StartMenuState::EditSetting { .. } } => self.confirm_setting(),
            Mode::StartMenu { state: StartMenuState::NewPath { .. } } => self.confirm_path(),
            Mode::StartMenu { state: StartMenuState::NewName { .. } } => self.confirm_name(),
            Mode::StartMenu { state: StartMenuState::Import { .. } } => self.confirm_import(),
            _ => {},
        }
    }
}

/// What a label shortcut looks for: "new" means "+ new", "help" itself,
/// anything else its lower-case form.
pub open spec fn label_goal(target: Seq<char>) -> Seq<char> {
    if target == "new"@ {
        "+ new"@
    } else if target == "help"@ {
        "help"@
    } else {
        lowercase(target)
    }
}

/// The first top-level node whose label, in lower case, contains `goal`.
pub open spec fn goal_root(nodes: Seq<Node>, goal: Seq<char>) -> Option<int> {
    if exists|i: int| 0 <= i < nodes.len() && (#[trigger] nodes[i]).parent is None && has_substring(lowercase(nodes[i].label@), goal) {
        Some(choose|i: int| 0 <= i < nodes.len() && (#[trigger] nodes[i]).parent is None && has_substring(lowercase(nodes[i].label@), goal)
            && forall|j: int| 0 <= j < i ==> !((#[trigger] nodes[j]).parent is None && has_substring(lowercase(nodes[j].label@), goal)))
    } else {
        None
    }
}

/// `b` is `a` after a fresh layout that gave the visible order `order`
/// (see `recompute_layout`).
pub open spec fn relaid(a: App, b: App, order: Seq<(usize, usize)>) -> bool {
    exists|now: i64, mid: App|
        {
            &&& #[trigger] advanced(a.nodes@, mid.nodes@, now)
            &&& (mid == a || saved(App { nodes: mid.nodes, ..a }, mid))
            &&& b.nodes@ == layout_of(mid.nodes@, mid.mode).0
            &&& order == layout_of(mid.nodes@, mid.mode).1
            &&& b == (App { nodes: b.nodes, ..mid })
        }
}

/// `b` is `a` after a layout that stopped short: recurring time tags moved
/// on (and saved when any did), the nodes' content kept.
pub open spec fn relaid_partly(a: App, b: App) -> bool {
    exists|now: i64, mid: App|
        {
            &&& #[trigger] advanced(a.nodes@, mid.nodes@, now)
            &&& (mid == a || saved(App { nodes: mid.nodes, ..a }, mid))
            &&& crate::layout::same_contents(mid.nodes@, b.nodes@)
            &&& b == (App { nodes: b.nodes, ..mid })
        }
}

/// The position of the first entry of `order` for node `sel`, or 0.
pub open spec fn order_pos(order: Seq<(usize, usize)>, sel: usize) -> int {
    if exists|k: int| 0 <= k < order.len() && (#[trigger] order[k]).0 == sel {
        choose|k: int| 0 <= k < order.len() && (#[trigger] order[k]).0 == sel && forall|j: int| 0 <= j < k ==> (#[trigger] order[j]).0 != sel
    } else {
        0
    }
}

/// The node `delta` steps from `sel` in the nonempty visible order,
/// stopping at either end.
pub open spec fn nav_pick(order: Seq<(usize, usize)>, sel: usize, delta: int) -> usize {
    let p = order_pos(order, sel) + delta;
    let q = if p < 0 { 0 } else if p > order.len() - 1 { order.len() - 1 } else { p };
    order[q].0
}

impl App {
    /// What `start_menu_go_to_label` does: `post` is `pre` after it.
    pub open spec fn start_menu_go_to_label_done(pre: App, post: App, target: &str) -> bool {
        &&& post.wf()
        &&& match goal_root(pre.nodes@, label_goal(target@)) {
                Some(i) => menu_confirmed(App { selected: i as usize, mode: main_selected(pre.mode, i as usize), ..pre }, post),
                None => post == pre,
            }
    }

    /// Jump to the first top-level entry whose label contains `target`
    /// (see `label_goal`) and act on it as Enter does.  Nothing happens
    /// when there is none.
    pub fn start_menu_go_to_label(&mut self, target: &str)
        requires
            menu_ready(*old(self)),
        ensures
            Self::start_menu_go_to_label_done(*old(self), *final(self), target),
    {
        proof {
            reveal_strlit("new");
            reveal_strlit("help");
            reveal_strlit("+ new");
        }
        let goal = if eq_lit(&String::from_str(target), "new") {
            String::from_str("+ new")
        } else if eq_lit(&String::from_str(target), "help") {
            String::from_str("help")
        } else {
            to_lowercase(target)
        };
        let ghost g = label_goal(target@);
        assert(goal@ == g);
        let mut i: usize = 0;
        let mut found = false;
        while !found && i < self.nodes.len()
            invariant
                i <= self.nodes@.len(),
                goal@ == g,
                forall|j: int| 0 <= j < i ==> !((#[trigger] self.nodes@[j]).parent is None && has_substring(lowercase(self.nodes@[j].label@), g)),
                found ==> (i as int) < self.nodes@.len() && self.nodes@[i as int].parent is None && has_substring(lowercase(self.nodes@[i as int].label@), g),
            decreases self.nodes@.len() - i, if found { 0int } else { 1int },
        {
            let l = to_lowercase(self.nodes[i].label.as_str());
            if self.nodes[i].parent.is_none() && contains_str(l.as_str(), goal.as_str()) {
                found = true;
            } else {
                i = i + 1;
            }
        }
        proof {
            let nodes = self.nodes@;
            if found {
                let m = choose|m: int| 0 <= m < nodes.len() && (#[trigger] nodes[m]).parent is None && has_substring(lowercase(nodes[m].label@), g)
                    && forall|j: int| 0 <= j < m ==> !((#[trigger] nodes[j]).parent is None && has_substring(lowercase(nodes[j].label@), g));
                assert(nodes[i as int].parent is None && has_substring(lowercase(nodes[i as int].label@), g));
                if m < i {
                    assert(!(nodes[m].parent is None && has_substring(lowercase(nodes[m].label@), g)));
                } else if m > i {
                    assert(!(nodes[i as int].parent is None && has_substring(lowercase(nodes[i as int].label@), g)));
                }
                assert(goal_root(nodes, g) == Some(i as int));
            } else {
                if exists|j: int| 0 <= j < nodes.len() && (#[trigger] nodes[j]).parent is None && has_substring(lowercase(nodes[j].label@), g) {
                    let m = choose|j: int| 0 <= j < nodes.len() && (#[trigger] nodes[j]).parent is None && has_substring(lowercase(nodes[j].label@), g);
                    assert(!(nodes[m].parent is None && has_substring(lowercase(nodes[m].label@), g)));
                }
            }
        }
        if !found {
            return;
        }
        self.selected = i;
        match &mut self.mode {
            Mode::StartMenu { state: StartMenuState::Main { selected } } => {
                *selected = i;
            },
            _ => {},
        }
        self.start_menu_confirm();
    }

    /// What `start_menu_nav` does: `post` is `pre` after it.
    pub open spec fn start_menu_nav_done(pre: App, post: App, delta: i32) -> bool {
        &&& post.wf()
        &&& layout_of(pre.nodes@, pre.mode).2 ==> exists|l: App, order: Seq<(usize, usize)>|
                #[trigger] relaid(pre, l, order) && (order.len() == 0 ==> post == l) && (order.len() > 0 ==> {
                    let pick = nav_pick(order, l.selected, delta as int);
                    post == (App { selected: pick, mode: main_selected(l.mode, pick), ..l })
                })
        &&& !layout_of(pre.nodes@, pre.mode).2 ==> relaid_partly(pre, post)
    }

    /// Move the start-menu selection `delta` entries along the visible
    /// order of a fresh layout, stopping at either end; when the layout's
    /// arithmetic does not fit, the selection stays.
    pub fn start_menu_nav(&mut self, delta: i32)
        requires
            old(self).wf(),
        ensures
            Self::start_menu_nav_done(*old(self), *final(self), delta),
    {
        let order = match self.try_recompute_layout() {
            Some(o) => o,
            None => {
                return;
            },
        };
        let ghost l = *self;
        proof {
            assert(relaid(*old(self), l, order@));
        }
        let count = order.len();
        if count == 0 {
            return;
        }
        let mut k: usize = 0;
        let mut found = false;
        while !found && k < count
            invariant
                count == order@.len(),
                k <= count,
                self.selected == l.selected,
                forall|j: int| 0 <= j < k ==> (#[trigger] order@[j]).0 != l.selected,
                found ==> k < count && order@[k as int].0 == l.selected,
            decreases count - k, if found { 0int } else { 1int },
        {
            if order[k].0 == self.selected {
                found = true;
            } else {
                k = k + 1;
            }
        }
        let pos: usize = if found { k } else { 0 };
        proof {
            let o = order@;
            if found {
                let m = choose|m: int| 0 <= m < o.len() && (#[trigger] o[m]).0 == l.selected && forall|j: int| 0 <= j < m ==> (#[trigger] o[j]).0 != l.selected;
                if m < k {
                    assert(o[m].0 != l.selected);
                } else if m > k {
                    assert(o[k as int].0 != l.selected);
                }
                assert(order_pos(o, l.selected) == pos);
            } else {
                if exists|j: int| 0 <= j < o.len() && (#[trigger] o[j]).0 == l.selected {
                    let m = choose|j: int| 0 <= j < o.len() && (#[trigger] o[j]).0 == l.selected;
                    assert(o[m].0 != l.selected);
                }
                assert(order_pos(o, l.selected) == 0);
            }
        }
        let p: i128 = pos as i128 + delta as i128;
        let q: usize = if p < 0 {
            0
        } else if p > (count - 1) as i128 {
            count - 1
        } else {
            p as usize
        };
        let pick = order[q].0;
        self.selected = pick;
        match &mut self.mode {
            Mode::StartMenu { state: StartMenuState::Main { selected } } => {
                *selected = pick;
            },
            _ => {},
        }
    }
}

} // verus!
