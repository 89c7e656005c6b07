use vstd::prelude::*;
use crate::clock::unix_now_secs;

verus! {

/// The result of joining path component `part` onto `base` with the
/// platform's path rules.
pub uninterp spec fn path_join(base: Seq<char>, part: Seq<char>) -> Seq<char>;

/// `std::path::Path::join`, on paths held as strings.
#[verifier::external_body]
pub(crate) fn join_path(base: &str, part: &str) -> (r: String)
    ensures
        r@ == path_join(base@, part@),
{
    std::path::Path::new(base).join(part).to_string_lossy().into_owned()
}

/// `dirs::home_dir`: the user's home folder, when one is known (it comes
/// from the environment, so nothing is promised of it).
#[verifier::external_body]
pub(crate) fn home_dir_text() -> (r: Option<String>) {
    dirs::home_dir().map(|h| h.to_string_lossy().into_owned())
}

/// A typed path with a leading "~" expanded: "~" alone or "~/rest" becomes
/// the home folder joined with `rest` (all leading "~/" taken off) when a
/// home folder is known; any other path stays as typed.
pub open spec fn expanded(raw: Seq<char>, home: Option<Seq<char>>) -> Seq<char> {
    if crate::text::starts_with(raw, "~/"@) || raw == "~"@ {
        match home {
            Some(h) => path_join(h, crate::text::stripped(raw, "~/"@)),
            None => raw,
        }
    } else {
        raw
    }
}

/// Expand a leading "~" of `raw` with the home folder `home`.
pub fn expand_home(raw: &str, home: Option<String>) -> (r: String)
    ensures
        r@ == expanded(raw@, match home { Some(h) => Some(h@), None => None }),
{
    proof {
        reveal_strlit("~/");
        reveal_strlit("~");
    }
    let tilde = crate::text::has_prefix(raw, "~/") || crate::text::eq_lit(&String::from_str(raw), "~");
    if !tilde {
        return String::from_str(raw);
    }
    match home {
        Some(h) => {
            let rest = crate::text::strip_prefixes(raw, "~/");
            join_path(h.as_str(), rest.as_str())
        },
        None => String::from_str(raw),
    }
}

/// The directory that holds a project's files.
pub fn project_dir(base: &str) -> (r: String)
    ensures
        r@ == path_join(base@, ".filament"@),
{
    join_path(base, ".filament")
}

/// The project settings file.
pub fn settings_path(base: &str) -> (r: String)
    ensures
        r@ == path_join(path_join(base@, ".filament"@), "project.toml"@),
{
    let d = project_dir(base);
    join_path(d.as_str(), "project.toml")
}

/// The project database file.
pub fn db_path(base: &str) -> (r: String)
    ensures
        r@ == path_join(path_join(base@, ".filament"@), "canvas.db"@),
{
    let d = project_dir(base);
    join_path(d.as_str(), "canvas.db")
}

/// Camera, cursor and selection as saved with a project.
#[derive(Clone, Copy)]
pub struct ViewState {
    pub camera_x: i32,
    pub camera_y: i32,
    pub cursor_x: i32,
    pub cursor_y: i32,
    /// Database row id of the selected node, 0 = no selection.
    pub selected_db_id: i64,
    pub show_note_previews: bool,
}

impl Default for ViewState {
    fn default() -> (r: Self)
        ensures
            r == (ViewState {
                camera_x: 0,
                camera_y: 0,
                cursor_x: 0,
                cursor_y: 0,
                selected_db_id: 0,
                show_note_previews: false,
            }),
    {
        ViewState {
            camera_x: 0,
            camera_y: 0,
            cursor_x: 0,
            cursor_y: 0,
            selected_db_id: 0,
            show_note_previews: false,
        }
    }
}

/// Arrow display settings as saved with a project.
pub struct SavedArrows {
    pub global: bool,
    /// "Tree" or "Selected"
    pub incoming: String,
    /// "Tree" or "Selected"
    pub outgoing: String,
}

impl Default for SavedArrows {
    fn default() -> (r: Self)
        ensures
            !r.global,
            r.incoming@ == "Tree"@,
            r.outgoing@ == "Tree"@,
    {
        SavedArrows { global: false, incoming: String::from_str("Tree"), outgoing: String::from_str("Tree") }
    }
}

/// The settings stored in a project's settings file.
pub struct ProjectSettings {
    pub name: String,
    pub created_at: u64,
    pub view: ViewState,
    pub arrows: SavedArrows,
}

impl ProjectSettings {
    /// Fresh settings for a project called `name`, stamped with the current
    /// time as the system clock reads it (see `stamped`).
    pub fn new(name: &str) -> (r: Self)
        ensures
            r.name@ == name@,
            r.view == ViewState::default_spec(),
            !r.arrows.global,
            r.arrows.incoming@ == "Tree"@,
            r.arrows.outgoing@ == "Tree"@,
    {
        let now = unix_now_secs();
        Self::stamped(name, now)
    }

    /// Fresh settings for a project called `name`, created at Unix time
    /// `now`: the default view and arrows "Tree" both ways, not global.
    pub fn stamped(name: &str, now: u64) -> (r: Self)
        ensures
            r.name@ == name@,
            r.created_at == now,
            r.view == ViewState::default_spec(),
            !r.arrows.global,
            r.arrows.incoming@ == "Tree"@,
            r.arrows.outgoing@ == "Tree"@,
    {
        ProjectSettings {
            name: name.to_owned(),
            created_at: now,
            view: ViewState::default(),
            arrows: SavedArrows::default(),
        }
    }
}

impl ViewState {
    pub open spec fn default_spec() -> ViewState {
        ViewState {
            camera_x: 0,
            camera_y: 0,
            cursor_x: 0,
            cursor_y: 0,
            selected_db_id: 0,
            show_note_previews: false,
        }
    }
}

/// A project known to the registry.
pub struct ProjectEntry {
    pub name: String,
    pub path: String,
}

impl ProjectEntry {
    pub fn clone_value(&self) -> (r: Self)
        ensures
            r == *self,
    {
        ProjectEntry { name: self.name.clone(), path: self.path.clone() }
    }
}

/// The list of known projects.
pub struct Registry {
    pub projects: Vec<ProjectEntry>,
}

/// The index of the first entry whose path is `path`, if any.
pub open spec fn first_with_path(ps: Seq<ProjectEntry>, path: Seq<char>) -> Option<int> {
    if exists|k: int| 0 <= k < ps.len() && (#[trigger] ps[k]).path@ == path {
        Some(
            choose|k: int|
                0 <= k < ps.len() && (#[trigger] ps[k]).path@ == path && forall|j: int|
                    0 <= j < k ==> (#[trigger] ps[j]).path@ != path,
        )
    } else {
        None
    }
}

impl Default for Registry {
    fn default() -> (r: Self)
        ensures
            r.projects@.len() == 0,
    {
        Registry { projects: Vec::new() }
    }
}

impl Registry {
    /// Registers `entry`; an entry with the same path is renamed instead of
    /// added twice.
    pub fn add_project(&mut self, entry: ProjectEntry)
        ensures
            match first_with_path(old(self).projects@, entry.path@) {
                Some(k) => final(self).projects@ == old(self).projects@.update(
                    k,
                    ProjectEntry { name: entry.name, path: old(self).projects@[k].path },
                ),
                None => final(self).projects@ == old(self).projects@.push(entry),
            },
    {
        let mut i: usize = 0;
        while i < self.projects.len()
            invariant
                i <= self.projects.len(),
                self.projects@ == old(self).projects@,
                forall|j: int| 0 <= j < i ==> (#[trigger] self.projects@[j]).path@ != entry.path@,
            decreases self.projects.len() - i,
        {
            if self.projects[i].path == entry.path {
                proof {
                    let ps = old(self).projects@;
                    assert(exists|k: int| 0 <= k < ps.len() && (#[trigger] ps[k]).path@ == entry.path@) by {
                        assert(ps[i as int].path@ == entry.path@);
                    }
                    let k = choose|k: int|
                        0 <= k < ps.len() && (#[trigger] ps[k]).path@ == entry.path@ && forall|j: int|
                            0 <= j < k ==> (#[trigger] ps[j]).path@ != entry.path@;
                    if k < i {
                        assert(ps[k].path@ != entry.path@);
                    }
                    if k > i {
                        assert(ps[i as int].path@ != entry.path@);
                    }
                    assert(k == i);
                }
                self.projects[i].name = entry.name;
                return;
            }
            i = i + 1;
        }
        self.projects.push(entry);
    }

    /// Removes the entry at `idx`; out-of-range indices are ignored.
    pub fn remove_at(&mut self, idx: usize)
        ensures
            idx < old(self).projects@.len() ==> final(self).projects@ == old(self).projects@.remove(
                idx as int,
            ),
            idx >= old(self).projects@.len() ==> final(self).projects@ == old(self).projects@,
    {
        if idx < self.projects.len() {
            self.projects.remove(idx);
        }
    }
}

/// Application-wide settings.
pub struct GlobalSettings {
    pub default_projects_path: String,
    pub username: String,
}

impl Default for GlobalSettings {
    fn default() -> (r: Self)
        ensures
            r.default_projects_path@ == "~/Documents/filaments"@,
            r.username@ == "user"@,
    {
        GlobalSettings {
            default_projects_path: String::from_str("~/Documents/filaments"),
            username: String::from_str("user"),
        }
    }
}

impl GlobalSettings {
    pub fn clone_value(&self) -> (r: Self)
        ensures
            r == *self,
    {
        GlobalSettings {
            default_projects_path: self.default_projects_path.clone(),
            username: self.username.clone(),
        }
    }
}

} // verus!
