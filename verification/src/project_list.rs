//! The project list: opening, forgetting and creating projects.

use vstd::prelude::*;
use vstd::string::{StrSliceExecFns, StringExecFns};
use crate::app::{App, Effect};
use crate::buffer::{at_char, buf_backspace, buf_insert, buf_ok, byte_len, char_index, char_width, move_cursor_in_buf, utf8_len};
use crate::menu_confirm::{asked, creates, loads};
use crate::mode::{CanvasState, Mode, ProjectListState};
use crate::persistence::{expand_home, expanded, home_dir_text};
use crate::text::{trim, trimmed};

verus! {

/// The last component of a path as `std::path::Path::file_name` gives it
/// (none for a path ending in "..", for a root or for an empty path).
pub uninterp spec fn file_name_of(path: Seq<char>) -> Option<Seq<char>>;

/// `std::path::Path::file_name`, on paths held as strings.
#[verifier::external_body]
fn path_file_name(path: &str) -> (r: Option<String>)
    ensures
        match r {
            Some(n) => file_name_of(path@) == Some(n@),
            None => file_name_of(path@) is None,
        },
{
    std::path::Path::new(path).file_name().and_then(|n| n.to_str()).map(|n| n.to_string())
}

/// The name a project in folder `path` gets by default: the folder's name,
/// or "project".
pub open spec fn default_name(path: Seq<char>) -> Seq<char> {
    match file_name_of(path) {
        Some(n) => n,
        None => "project"@,
    }
}

/// The text field of a project-list state, with its cursor.
pub open spec fn list_field(mode: Mode) -> Option<(Seq<char>, usize)> {
    match mode {
        Mode::ProjectList { state: ProjectListState::NewPath { buf, cursor } } => Some((buf@, cursor)),
        Mode::ProjectList { state: ProjectListState::NewName { buf, cursor, .. } } => Some((buf@, cursor)),
        _ => None,
    }
}

/// `b` is the project-list state `a` with its text field set to `buf` and
/// `cursor`.
pub open spec fn with_list_field(a: Mode, b: Mode, buf: Seq<char>, cursor: int) -> bool {
    match a {
        Mode::ProjectList { state: ProjectListState::NewPath { .. } } => b matches Mode::ProjectList {
            state: ProjectListState::NewPath { buf: b2, cursor: c2 },
        } && b2@ == buf && c2 == cursor,
        Mode::ProjectList { state: ProjectListState::NewName { path, .. } } => b matches Mode::ProjectList {
            state: ProjectListState::NewName { path: p2, buf: b2, cursor: c2 },
        } && p2 == path && b2@ == buf && c2 == cursor,
        _ => false,
    }
}

/// `i` moved by `delta` and kept within `0 .. count` (`count > 0`).
pub open spec fn clamped(i: int, delta: int, count: int) -> int {
    let p = i + delta;
    if p < 0 {
        0
    } else if p > count - 1 {
        count - 1
    } else {
        p
    }
}

/// The list selection `i` kept within a list of `count` projects.
pub open spec fn kept_in(i: int, count: int) -> usize {
    if count == 0 {
        0
    } else if i < count - 1 {
        i as usize
    } else {
        (count - 1) as usize
    }
}

/// What Esc does in the project list: back to the open project's canvas,
/// or to the list (the selection kept within it).
pub open spec fn list_cancelled(a: App, b: App) -> bool {
    let count = a.registry.projects@.len() as int;
    let sel = match a.mode {
        Mode::ProjectList { state: ProjectListState::Browse { selected } } => selected as int,
        _ => 0,
    };
    if a.project_path is Some {
        b == (App { mode: Mode::Canvas { state: CanvasState::Browse }, ..a })
    } else {
        b == (App { mode: Mode::ProjectList { state: ProjectListState::Browse { selected: kept_in(sel, count) } }, ..a })
    }
}

impl App {
    /// What `project_list_nav` does: `post` is `pre` after it.
    pub open spec fn project_list_nav_done(pre: App, post: App, delta: i32) -> bool {
        &&& ({
                let count = pre.registry.projects@.len() as int;
                match pre.mode {
                    Mode::ProjectList { state: ProjectListState::Browse { selected } } if count > 0 => post == (App {
                        mode: Mode::ProjectList { state: ProjectListState::Browse { selected: clamped(selected as int, delta as int, count) as usize } },
                        ..pre
                    }),
                    _ => post == pre,
                }
            })
    }

    /// Move the list selection by `delta`, stopping at either end.
    pub fn project_list_nav(&mut self, delta: i32)
        ensures
            Self::project_list_nav_done(*old(self), *final(self), delta),
    {
        let count = self.registry.projects.len();
        if count == 0 {
            return;
        }
        match &mut self.mode {
            Mode::ProjectList { state: ProjectListState::Browse { selected } } => {
                let p: i128 = *selected as i128 + delta as i128;
                *selected = if p < 0 {
                    0
                } else if p > (count - 1) as i128 {
                    count - 1
                } else {
                    p as usize
                };
            },
            _ => {},
        }
    }

    /// What `project_list_open_selected` does: `post` is `pre` after it.
    pub open spec fn project_list_open_selected_done(pre: App, post: App) -> bool {
        &&& match pre.mode {
                Mode::ProjectList { state: ProjectListState::Browse { selected } } if (selected as int) < pre.registry.projects@.len() =>
                    loads(pre, post, pre.registry.projects@[selected as int].path@),
                _ => post == pre,
            }
    }

    /// Open the selected project (the host loads it).
    pub fn project_list_open_selected(&mut self)
        ensures
            Self::project_list_open_selected_done(*old(self), *final(self)),
    {
        let idx = match &self.mode {
            Mode::ProjectList { state: ProjectListState::Browse { selected } } => *selected,
            _ => {
                return;
            },
        };
        if idx < self.registry.projects.len() {
            let path = self.registry.projects[idx].path.clone();
            let ghost e0 = self.effects@;
            self.effects.push(Effect::LoadProject { path });
            proof {
                assert(self.effects@.take(e0.len() as int) =~= e0);
            }
        }
    }

    /// What `project_list_remove_selected` does: `post` is `pre` after it.
    pub open spec fn project_list_remove_selected_done(pre: App, post: App) -> bool {
        &&& match pre.mode {
                Mode::ProjectList { state: ProjectListState::Browse { selected } } => {
                    let ps = pre.registry.projects@;
                    let reg = if (selected as int) < ps.len() { ps.remove(selected as int) } else { ps };
                    &&& post.registry.projects@ == reg
                    &&& post.effects@ == pre.effects@.push(Effect::SaveRegistry)
                    &&& post == (App {
                        registry: post.registry,
                        effects: post.effects,
                        mode: Mode::ProjectList { state: ProjectListState::Browse { selected: kept_in(selected as int, reg.len() as int) } },
                        ..pre
                    })
                },
                _ => post == pre,
            }
    }

    /// Forget the selected project: the registry loses it and is saved, and
    /// the selection stays within the list.
    pub fn project_list_remove_selected(&mut self)
        ensures
            Self::project_list_remove_selected_done(*old(self), *final(self)),
    {
        let idx = match &self.mode {
            Mode::ProjectList { state: ProjectListState::Browse { selected } } => *selected,
            _ => {
                return;
            },
        };
        self.registry.remove_at(idx);
        self.effects.push(Effect::SaveRegistry);
        let count = self.registry.projects.len();
        let sel = if count == 0 {
            0
        } else if idx < count - 1 {
            idx
        } else {
            count - 1
        };
        self.mode = Mode::ProjectList { state: ProjectListState::Browse { selected: sel } };
    }

    /// What `project_list_start_new` does: `post` is `pre` after it.
    pub open spec fn project_list_start_new_done(pre: App, post: App) -> bool {
        &&& post.mode matches Mode::ProjectList { state: ProjectListState::NewPath { buf, cursor } } && buf@.len() == 0 && cursor == 0
        &&& post == (App { mode: post.mode, ..pre })
    }

    /// Start creating a project: its folder is typed first.
    pub fn project_list_start_new(&mut self)
        ensures
            Self::project_list_start_new_done(*old(self), *final(self)),
    {
        self.mode = Mode::ProjectList { state: ProjectListState::NewPath { buf: String::new(), cursor: 0 } };
    }

    /// What `project_list_input_char` does: `post` is `pre` after it.
    pub open spec fn project_list_input_char_done(pre: App, post: App, c: char) -> bool {
        &&& match list_field(pre.mode) {
                Some((buf, cursor)) => {
                    let k = char_index(buf, cursor as int);
                    &&& with_list_field(pre.mode, post.mode, buf.insert(k, c), cursor + char_width(c))
                    &&& at_char(buf.insert(k, c), cursor + char_width(c), k + 1)
                    &&& post == (App { mode: post.mode, ..pre })
                },
                None => post == pre,
            }
    }

    /// Type `c` into the project list's text field.
    pub fn project_list_input_char(&mut self, c: char)
        requires
            list_field(old(self).mode) matches Some((b, k)) ==> buf_ok(b, k as int),
        ensures
            Self::project_list_input_char_done(*old(self), *final(self), c),
    {
        match &mut self.mode {
            Mode::ProjectList { state: ProjectListState::NewPath { buf, cursor } } => {
                buf_insert(buf, cursor, c);
            },
            Mode::ProjectList { state: ProjectListState::NewName { buf, cursor, .. } } => {
                buf_insert(buf, cursor, c);
            },
            _ => {},
        }
    }

    /// What `project_list_backspace` does: `post` is `pre` after it.
    pub open spec fn project_list_backspace_done(pre: App, post: App) -> bool {
        &&& match list_field(pre.mode) {
                Some((buf, cursor)) => {
                    let k = char_index(buf, cursor as int);
                    &&& k == 0 ==> with_list_field(pre.mode, post.mode, buf, cursor as int)
                    &&& k > 0 ==> with_list_field(pre.mode, post.mode, buf.remove(k - 1), cursor - char_width(buf[k - 1]))
                        && at_char(buf.remove(k - 1), cursor - char_width(buf[k - 1]), k - 1)
                    &&& post == (App { mode: post.mode, ..pre })
                },
                None => post == pre,
            }
    }

    /// Delete the character before the cursor in the project list's text
    /// field.
    pub fn project_list_backspace(&mut self)
        requires
            list_field(old(self).mode) matches Some((b, k)) ==> buf_ok(b, k as int),
        ensures
            Self::project_list_backspace_done(*old(self), *final(self)),
    {
        match &mut self.mode {
            Mode::ProjectList { state: ProjectListState::NewPath { buf, cursor } } => {
                buf_backspace(buf, cursor);
            },
            Mode::ProjectList { state: ProjectListState::NewName { buf, cursor, .. } } => {
                buf_backspace(buf, cursor);
            },
            _ => {},
        }
    }

    /// What `project_list_move_cursor` does: `post` is `pre` after it.
    pub open spec fn project_list_move_cursor_done(pre: App, post: App, delta: i32) -> bool {
        &&& match list_field(pre.mode) {
                Some((buf, cursor)) => {
                    let k = char_index(buf, cursor as int);
                    let k2 = if delta < 0 {
                        if k > 0 { k - 1 } else { k }
                    } else {
                        if k < buf.len() { k + 1 } else { k }
                    };
                    &&& list_field(post.mode) matches Some((b2, c2)) && at_char(buf, c2 as int, k2)
                        && with_list_field(pre.mode, post.mode, buf, c2 as int) && buf_ok(buf, c2 as int)
                    &&& post == (App { mode: post.mode, ..pre })
                },
                None => post == pre,
            }
    }

    /// Move the cursor of the project list's text field one character left
    /// (`delta < 0`) or right.
    pub fn project_list_move_cursor(&mut self, delta: i32)
        requires
            list_field(old(self).mode) matches Some((b, k)) ==> buf_ok(b, k as int),
        ensures
            Self::project_list_move_cursor_done(*old(self), *final(self), delta),
    {
        match &mut self.mode {
            Mode::ProjectList { state: ProjectListState::NewPath { buf, cursor } } => {
                move_cursor_in_buf(buf.as_str(), cursor, delta);
            },
            Mode::ProjectList { state: ProjectListState::NewName { buf, cursor, .. } } => {
                move_cursor_in_buf(buf.as_str(), cursor, delta);
            },
            _ => {},
        }
    }

    /// What `project_list_cancel` does: `post` is `pre` after it.
    pub open spec fn project_list_cancel_done(pre: App, post: App) -> bool {
        &&& list_cancelled(pre, post)
    }

    /// Esc in the project list (see `list_cancelled`).
    pub fn project_list_cancel(&mut self)
        ensures
            Self::project_list_cancel_done(*old(self), *final(self)),
    {
        let count = self.registry.projects.len();
        let selected = match &self.mode {
            Mode::ProjectList { state: ProjectListState::Browse { selected } } => *selected,
            _ => 0,
        };
        if self.project_path.is_some() {
            self.mode = Mode::Canvas { state: CanvasState::Browse };
        } else {
            let sel = if count == 0 {
                0
            } else if selected < count - 1 {
                selected
            } else {
                count - 1
            };
            self.mode = Mode::ProjectList { state: ProjectListState::Browse { selected: sel } };
        }
    }

    /// What `project_list_confirm` does: `post` is `pre` after it.
    pub open spec fn project_list_confirm_done(pre: App, post: App) -> bool {
        &&& match pre.mode {
                Mode::ProjectList { state: ProjectListState::NewPath { buf, .. } } => {
                    let raw = trimmed(buf@);
                    if raw.len() == 0 {
                        list_cancelled(pre, post)
                    } else {
                        exists|home: Option<Seq<char>>|
                            #![trigger expanded(raw, home)]
                            post.mode matches Mode::ProjectList { state: ProjectListState::NewName { path, buf: nb, cursor } }
                                && path@ == expanded(raw, home) && nb@ == default_name(path@)
                                && at_char(nb@, cursor as int, nb@.len() as int)
                                && post == (App { mode: post.mode, ..pre })
                    }
                },
                Mode::ProjectList { state: ProjectListState::NewName { path, buf, .. } } => {
                    let t = trimmed(buf@);
                    creates(pre, post, path@, if t.len() == 0 { default_name(path@) } else { t })
                },
                _ => post == pre,
            }
    }

    /// Enter in the project list: a typed folder (blank cancels, a leading
    /// "~" is expanded) leads on to its name, offered as the folder's name;
    /// a typed name (the folder's name when blank) creates the project.
    pub fn project_list_confirm(&mut self)
        ensures
            Self::project_list_confirm_done(*old(self), *final(self)),
    {
        proof {
            reveal_strlit("project");
        }
        match &self.mode {
            Mode::ProjectList { state: ProjectListState::NewPath { buf, .. } } => {
                let raw = String::from_str(trim(buf.as_str()));
                if raw.as_str().unicode_len() == 0 {
                    self.project_list_cancel();
                    return;
                }
                let home = home_dir_text();
                let ghost h = match &home {
                    Some(x) => Some(x@),
                    None => None::<Seq<char>>,
                };
                let path = expand_home(raw.as_str(), home);
                let name = match path_file_name(path.as_str()) {
                    Some(n) => n,
                    None => String::from_str("project"),
                };
                let cursor = byte_len(&name);
                self.mode = Mode::ProjectList { state: ProjectListState::NewName { path, buf: name, cursor } };
                proof {
                    assert(expanded(raw@, h) == expanded(raw@, h));
                }
            },
            Mode::ProjectList { state: ProjectListState::NewName { path, buf, .. } } => {
                let t = trim(buf.as_str());
                let p = path.clone();
                let name = if t.unicode_len() == 0 {
                    match path_file_name(p.as_str()) {
                        Some(n) => n,
                        None => String::from_str("project"),
                    }
                } else {
                    String::from_str(t)
                };
                self.create_project(p.as_str(), name.as_str());
            },
            _ => {},
        }
    }
}

} // verus!
