//! The archive of notes: adding, editing and removing notes, their
//! references to nodes, and the reference document of a note.

use vstd::prelude::*;
use vstd::string::{StrSliceExecFns, StringExecFns};
use crate::app::{mode_ok, App};
use crate::forest::{forest, lemma_distinct_bounded, ranked};
use crate::buffer::{at_char, buf_backspace, buf_insert, buf_ok, byte_len, char_index, char_width, utf8_len};
use crate::mode::{ArchiveState, CanvasState, Mode};
use crate::models::{ArchiveNote, Node, NoteType};
use crate::ops::saved;

verus! {

/// The words of `s`, split at Unicode white space (`str::split_whitespace`).
pub uninterp spec fn words(s: Seq<char>) -> Seq<Seq<char>>;

/// `str::split_whitespace`, the words collected.
#[verifier::external_body]
fn split_words(s: &str) -> (r: Vec<String>)
    ensures
        r@.map_values(|w: String| w@) == words(s@),
{
    s.split_whitespace().map(|w| w.to_string()).collect()
}

/// `char::is_alphanumeric`: the character is alphabetic or numeric in
/// Unicode's sense.
pub uninterp spec fn alphanumeric(c: char) -> bool;

/// `char::is_alphanumeric`.
#[verifier::external_body]
fn is_alnum(c: char) -> (r: bool)
    ensures
        r == alphanumeric(c),
{
    c.is_alphanumeric()
}

/// A character that a node name keeps at its ends: alphanumeric, '_' or
/// ' '.
pub open spec fn name_char(c: char) -> bool {
    alphanumeric(c) || c == '_' || c == ' '
}

/// `s` without its leading characters that are not name characters.
pub open spec fn trim_front(s: Seq<char>) -> Seq<char>
    decreases s.len(),
{
    if s.len() > 0 && !name_char(s[0]) {
        trim_front(s.drop_first())
    } else {
        s
    }
}

/// `s` without its trailing characters that are not name characters.
pub open spec fn trim_back(s: Seq<char>) -> Seq<char>
    decreases s.len(),
{
    if s.len() > 0 && !name_char(s.last()) {
        trim_back(s.drop_last())
    } else {
        s
    }
}

/// `s` with the characters that are not name characters trimmed from both
/// ends.
pub open spec fn name_core(s: Seq<char>) -> Seq<char> {
    trim_back(trim_front(s))
}

fn name_char_at(s: &str, i: usize) -> (r: bool)
    requires
        i < s@.len(),
    ensures
        r == name_char(s@[i as int]),
{
    let c = s.get_char(i);
    is_alnum(c) || c == '_' || c == ' '
}

/// `s` with the characters that are not name characters trimmed from both
/// ends (as `str::trim_matches` does).
fn trim_to_name(s: &str) -> (r: String)
    ensures
        r@ == name_core(s@),
{
    let n = s.unicode_len();
    let mut a: usize = 0;
    proof {
        assert(s@.skip(0) =~= s@);
    }
    while a < n && !name_char_at(s, a)
        invariant
            n == s@.len(),
            a <= n,
            trim_front(s@.skip(a as int)) == trim_front(s@),
        decreases n - a,
    {
        proof {
            assert(s@.skip(a as int).drop_first() =~= s@.skip(a + 1));
        }
        a = a + 1;
    }
    proof {
        assert(trim_front(s@) == s@.skip(a as int));
    }
    let mut b: usize = n;
    while b > a && !name_char_at(s, b - 1)
        invariant
            n == s@.len(),
            a <= b <= n,
            trim_back(s@.subrange(a as int, b as int)) == trim_back(s@.skip(a as int)),
        decreases b - a,
    {
        proof {
            assert(s@.subrange(a as int, b as int).drop_last() =~= s@.subrange(a as int, b - 1));
        }
        b = b - 1;
    }
    proof {
        assert(s@.skip(a as int) =~= s@.subrange(a as int, n as int));
    }
    s.substring_char(a, b).to_owned()
}

/// The node names mentioned in words "@name" of `ws`, in order.
pub open spec fn refs_in(ws: Seq<Seq<char>>) -> Seq<Seq<char>>
    decreases ws.len(),
{
    if ws.len() == 0 {
        Seq::empty()
    } else {
        let r = refs_in(ws.drop_last());
        let w = ws.last();
        if w.len() > 1 && w[0] == '@' && name_core(w.drop_first()).len() > 0 {
            r.push(name_core(w.drop_first()))
        } else {
            r
        }
    }
}

/// The node names a note refers to with "@name".
pub fn find_references(content: &str) -> (r: Vec<String>)
    ensures
        r@.map_values(|w: String| w@) == refs_in(words(content@)),
{
    let ws = split_words(content);
    let ghost wv = words(content@);
    let mut r: Vec<String> = Vec::new();
    let mut k: usize = 0;
    while k < ws.len()
        invariant
            k <= ws@.len(),
            ws@.map_values(|w: String| w@) == wv,
            r@.map_values(|w: String| w@) == refs_in(wv.take(k as int)),
        decreases ws@.len() - k,
    {
        let w = ws[k].as_str();
        let n = w.unicode_len();
        proof {
            assert(wv[k as int] == ws@[k as int]@);
            assert(wv.take(k as int + 1).drop_last() =~= wv.take(k as int));
            assert(wv.take(k as int + 1).last() == wv[k as int]);
        }
        if n > 1 && w.get_char(0) == '@' {
            let rest = w.substring_char(1, n);
            proof {
                assert(rest@ =~= w@.drop_first());
            }
            let name = trim_to_name(rest);
            if name.as_str().unicode_len() > 0 {
                r.push(name);
                proof {
                    assert(r@.map_values(|w: String| w@) =~= refs_in(wv.take(k as int)).push(name@));
                }
            }
        }
        k = k + 1;
    }
    proof {
        assert(wv.take(ws@.len() as int) =~= wv);
    }
    r
}

/// The buffer of a note editor.
pub open spec fn editor_buf(mode: Mode) -> Option<(Seq<char>, usize)> {
    match mode {
        Mode::ArchivePage { state: ArchiveState::EditTitle { buf, cursor, .. }, .. } => Some((buf@, cursor)),
        Mode::ArchivePage { state: ArchiveState::EditContent { buf, cursor, .. }, .. } => Some((buf@, cursor)),
        _ => None,
    }
}

/// The note editor's buffer fits the editing functions.
pub open spec fn editor_ready(mode: Mode) -> bool {
    match editor_buf(mode) {
        Some((buf, cursor)) => buf_ok(buf, cursor as int),
        None => true,
    }
}

/// `b` is editor mode `a` with the buffer and cursor replaced, the note
/// index, the kind of editor and the previous mode kept.
pub open spec fn editor_now(a: Mode, b: Mode, buf: Seq<char>, cursor: int) -> bool {
    match (a, b) {
        (
            Mode::ArchivePage { state: ArchiveState::EditTitle { idx, .. }, previous },
            Mode::ArchivePage { state: ArchiveState::EditTitle { idx: i2, buf: b2, cursor: c2 }, previous: p2 },
        ) => i2 == idx && b2@ == buf && c2 == cursor && p2 == previous,
        (
            Mode::ArchivePage { state: ArchiveState::EditContent { idx, .. }, previous },
            Mode::ArchivePage { state: ArchiveState::EditContent { idx: i2, buf: b2, cursor: c2 }, previous: p2 },
        ) => i2 == idx && b2@ == buf && c2 == cursor && p2 == previous,
        _ => false,
    }
}

/// The archive list with `selected` current, on top of the mode `previous`.
pub open spec fn browse_list(selected: usize, previous: Mode) -> Mode {
    Mode::ArchivePage { state: ArchiveState::BrowseList { selected }, previous: Box::new(previous) }
}

proof fn lemma_wrap(a: int, n: int, r: int)
    requires
        n > 0,
        a >= 0 ==> r == a % n,
        a < 0 ==> r == (if (-a) % n == 0 { 0 } else { n - (-a) % n }),
    ensures
        r == a % n,
        0 <= r < n,
{
    if a < 0 {
        let q = (-a) % n;
        let d = (-a) / n;
        assert(-a == d * n + q && 0 <= q < n) by (nonlinear_arith)
            requires
                n > 0,
                q == (-a) % n,
                d == (-a) / n,
        ;
        if q == 0 {
            assert((-d) * n == -(d * n)) by (nonlinear_arith);
            assert(a == (-d) * n);
            vstd::arithmetic::div_mod::lemma_mod_multiples_basic(-d, n);
        } else {
            assert(a == (-d - 1) * n + (n - q)) by (nonlinear_arith)
                requires
                    -a == d * n + q,
            ;
            assert(a % n == n - q) by (nonlinear_arith)
                requires
                    a == (-d - 1) * n + (n - q),
                    0 < n - q < n,
            ;
        }
    }
}

impl App {
    /// What `archive_leave` does: `post` is `pre` after it.
    pub open spec fn archive_leave_done(pre: App, post: App) -> bool {
        &&& match pre.mode {
                Mode::ArchivePage { previous, .. } => post == (App { mode: *previous, ..pre }),
                _ => post == pre,
            }
    }

    /// Leave the archive page for the mode it was opened from; outside the
    /// archive page nothing happens.
    pub fn archive_leave(&mut self)
        ensures
            Self::archive_leave_done(*old(self), *final(self)),
    {
        let mut m = Mode::Help;
        std::mem::swap(&mut m, &mut self.mode);
        match m {
            Mode::ArchivePage { previous, .. } => {
                self.mode = *previous;
            },
            other => {
                self.mode = other;
            },
        }
    }
}

impl App {
    /// Add a quick note and save.
    pub fn archive_add_note(&mut self, title: String, content: String)
        ensures
            saved(App { notes: final(self).notes, ..*old(self) }, *final(self)),
            final(self).notes@ == old(self).notes@.push(
                ArchiveNote { id: None, title, content, note_type: NoteType::Quick },
            ),
    {
        self.notes.push(ArchiveNote { id: None, title, content, note_type: NoteType::Quick });
        self.save_project();
    }

    /// Remove note `idx` and save; nothing happens for an index past the end.
    pub fn archive_remove_note(&mut self, idx: usize)
        ensures
            idx >= old(self).notes@.len() ==> *final(self) == *old(self),
            idx < old(self).notes@.len() ==> final(self).notes@ == old(self).notes@.remove(idx as int) && saved(
                App { notes: final(self).notes, ..*old(self) },
                *final(self),
            ),
    {
        if idx < self.notes.len() {
            self.notes.remove(idx);
            self.save_project();
        }
    }

    /// Replace the title and content of note `idx` and save; nothing happens
    /// for an index past the end.
    pub fn archive_update_note(&mut self, idx: usize, title: String, content: String)
        ensures
            idx >= old(self).notes@.len() ==> *final(self) == *old(self),
            idx < old(self).notes@.len() ==> final(self).notes@ == old(self).notes@.update(
                idx as int,
                ArchiveNote { title, content, ..old(self).notes@[idx as int] },
            ) && saved(App { notes: final(self).notes, ..*old(self) }, *final(self)),
    {
        if idx < self.notes.len() {
            self.notes[idx].title = title;
            self.notes[idx].content = content;
            self.save_project();
        }
    }

    /// What `archive_nav` does: `post` is `pre` after it.
    pub open spec fn archive_nav_done(pre: App, post: App, delta: i32) -> bool {
        &&& match pre.mode {
                Mode::ArchivePage { state: ArchiveState::BrowseList { selected }, .. } => if pre.notes@.len() == 0 {
                    post == pre
                } else {
                    let n = pre.notes@.len() as int;
                    post == (App {
                        mode: browse_list(((selected + delta) % n) as usize, pre.mode),
                        ..pre
                    })
                },
                _ => post == pre,
            }
    }

    /// Move the list selection by `delta`, wrapping around.
    pub fn archive_nav(&mut self, delta: i32)
        ensures
            Self::archive_nav_done(*old(self), *final(self), delta),
    {
        let selected = match &self.mode {
            Mode::ArchivePage { state: ArchiveState::BrowseList { selected }, .. } => *selected,
            _ => return,
        };
        if self.notes.len() == 0 {
            return;
        }
        let n = self.notes.len() as i128;
        let a = selected as i128 + delta as i128;
        let next: i128 = if a >= 0 {
            a % n
        } else {
            let q = (-a) % n;
            if q == 0 { 0 } else { n - q }
        };
        proof {
            lemma_wrap(a as int, n as int, next as int);
        }
        let mut prev = Mode::Help;
        std::mem::swap(&mut prev, &mut self.mode);
        self.mode = Mode::ArchivePage { state: ArchiveState::BrowseList { selected: next as usize }, previous: Box::new(prev) };
    }

    /// What `archive_new_note` does: `post` is `pre` after it.
    pub open spec fn archive_new_note_done(pre: App, post: App) -> bool {
        &&& ({
                let idx = pre.notes@.len();
                &&& post.notes@.len() == idx + 1
                &&& post.notes@.take(idx as int) == pre.notes@
                &&& post.notes@[idx as int].title@ == "New Note"@
                &&& post.notes@[idx as int].content@.len() == 0
                &&& post.notes@[idx as int].id is None
                &&& post.notes@[idx as int].note_type == NoteType::Quick
                &&& post.mode matches Mode::ArchivePage { state: ArchiveState::EditTitle { idx: i2, buf, cursor }, previous }
                    && i2 == idx && buf@ == "New Note"@ && cursor == 8 && *previous == pre.mode
                &&& saved(App { notes: post.notes, mode: post.mode, ..pre }, post)
            })
    }

    /// Add a note titled "New Note", edit its title and save.
    pub fn archive_new_note(&mut self)
        ensures
            Self::archive_new_note_done(*old(self), *final(self)),
    {
        let idx = self.notes.len();
        self.notes.push(ArchiveNote {
            id: None,
            title: String::from_str("New Note"),
            content: String::new(),
            note_type: NoteType::Quick,
        });
        let mut prev = Mode::Help;
        std::mem::swap(&mut prev, &mut self.mode);
        self.mode = Mode::ArchivePage {
            state: ArchiveState::EditTitle { idx, buf: String::from_str("New Note"), cursor: 8 },
            previous: Box::new(prev),
        };
        proof {
            assert(self.notes@.take(idx as int) =~= old(self).notes@);
        }
        self.save_project();
    }

    /// What `archive_delete_note` does: `post` is `pre` after it.
    pub open spec fn archive_delete_note_done(pre: App, post: App) -> bool {
        &&& match pre.mode {
                Mode::ArchivePage { state: ArchiveState::BrowseList { selected }, .. } => if selected < pre.notes@.len() {
                    let n = pre.notes@.len() - 1;
                    let next = if n == 0 { 0 } else if selected < n { selected as int } else { n - 1 };
                    &&& post.notes@ == pre.notes@.remove(selected as int)
                    &&& saved(
                        App { notes: post.notes, mode: browse_list(next as usize, pre.mode), ..pre },
                        post,
                    )
                } else {
                    post == pre
                },
                _ => post == pre,
            }
    }

    /// Delete the selected note and save; the selection stays at its place
    /// (or moves to the new last note).
    pub fn archive_delete_note(&mut self)
        ensures
            Self::archive_delete_note_done(*old(self), *final(self)),
    {
        let selected = match &self.mode {
            Mode::ArchivePage { state: ArchiveState::BrowseList { selected }, .. } => *selected,
            _ => return,
        };
        if selected >= self.notes.len() {
            return;
        }
        self.notes.remove(selected);
        let n = self.notes.len();
        let next = if n == 0 { 0 } else if selected < n { selected } else { n - 1 };
        let mut prev = Mode::Help;
        std::mem::swap(&mut prev, &mut self.mode);
        self.mode = Mode::ArchivePage { state: ArchiveState::BrowseList { selected: next }, previous: Box::new(prev) };
        self.save_project();
    }

    /// What `archive_enter_editor` does: `post` is `pre` after it.
    pub open spec fn archive_enter_editor_done(pre: App, post: App) -> bool {
        &&& match pre.mode {
                Mode::ArchivePage { state: ArchiveState::BrowseList { selected }, .. } => if selected < pre.notes@.len() {
                    let c = pre.notes@[selected as int].content@;
                    &&& post.mode matches Mode::ArchivePage { state: ArchiveState::EditContent { idx, buf, cursor }, previous }
                        && idx == selected && buf@ == c && at_char(c, cursor as int, c.len() as int) && *previous == pre.mode
                    &&& post == (App { mode: post.mode, ..pre })
                } else {
                    post == pre
                },
                _ => post == pre,
            }
    }

    /// Open the selected note's content in the editor, cursor at the end.
    pub fn archive_enter_editor(&mut self)
        ensures
            Self::archive_enter_editor_done(*old(self), *final(self)),
    {
        let selected = match &self.mode {
            Mode::ArchivePage { state: ArchiveState::BrowseList { selected }, .. } => *selected,
            _ => return,
        };
        if selected >= self.notes.len() {
            return;
        }
        let buf = self.notes[selected].content.clone();
        let cursor = byte_len(&buf);
        let mut prev = Mode::Help;
        std::mem::swap(&mut prev, &mut self.mode);
        self.mode = Mode::ArchivePage { state: ArchiveState::EditContent { idx: selected, buf, cursor }, previous: Box::new(prev) };
    }

    /// What `archive_edit_title` does: `post` is `pre` after it.
    pub open spec fn archive_edit_title_done(pre: App, post: App) -> bool {
        &&& match pre.mode {
                Mode::ArchivePage { state: ArchiveState::BrowseList { selected }, .. } => if selected < pre.notes@.len() {
                    let t = pre.notes@[selected as int].title@;
                    &&& post.mode matches Mode::ArchivePage { state: ArchiveState::EditTitle { idx, buf, cursor }, previous }
                        && idx == selected && buf@ == t && at_char(t, cursor as int, t.len() as int) && *previous == pre.mode
                    &&& post == (App { mode: post.mode, ..pre })
                } else {
                    post == pre
                },
                _ => post == pre,
            }
    }

    /// Open the selected note's title in the editor, cursor at the end.
    pub fn archive_edit_title(&mut self)
        ensures
            Self::archive_edit_title_done(*old(self), *final(self)),
    {
        let selected = match &self.mode {
            Mode::ArchivePage { state: ArchiveState::BrowseList { selected }, .. } => *selected,
            _ => return,
        };
        if selected >= self.notes.len() {
            return;
        }
        let buf = self.notes[selected].title.clone();
        let cursor = byte_len(&buf);
        let mut prev = Mode::Help;
        std::mem::swap(&mut prev, &mut self.mode);
        self.mode = Mode::ArchivePage { state: ArchiveState::EditTitle { idx: selected, buf, cursor }, previous: Box::new(prev) };
    }

    /// What `archive_editor_char` does: `post` is `pre` after it.
    pub open spec fn archive_editor_char_done(pre: App, post: App, c: char) -> bool {
        &&& match editor_buf(pre.mode) {
                Some((buf, cursor)) => {
                    let k = char_index(buf, cursor as int);
                    &&& editor_now(pre.mode, post.mode, buf.insert(k, c), cursor + char_width(c))
                    &&& at_char(buf.insert(k, c), cursor + char_width(c), k + 1)
                    &&& post == (App { mode: post.mode, ..pre })
                },
                None => post == pre,
            }
    }

    /// Type `c` into the note editor.
    pub fn archive_editor_char(&mut self, c: char)
        requires
            editor_ready(old(self).mode),
        ensures
            Self::archive_editor_char_done(*old(self), *final(self), c),
    {
        match &mut self.mode {
            Mode::ArchivePage { state: ArchiveState::EditTitle { buf, cursor, .. }, .. } => {
                buf_insert(buf, cursor, c);
            },
            Mode::ArchivePage { state: ArchiveState::EditContent { buf, cursor, .. }, .. } => {
                buf_insert(buf, cursor, c);
            },
            _ => {},
        }
    }

    /// What `archive_editor_backspace` does: `post` is `pre` after it.
    pub open spec fn archive_editor_backspace_done(pre: App, post: App) -> bool {
        &&& editor_ready(post.mode)
        &&& match editor_buf(pre.mode) {
                Some((buf, cursor)) => {
                    let k = char_index(buf, cursor as int);
                    &&& k == 0 ==> editor_now(pre.mode, post.mode, buf, cursor as int)
                    &&& k > 0 ==> editor_now(pre.mode, post.mode, buf.remove(k - 1), cursor - char_width(buf[k - 1]))
                    &&& post == (App { mode: post.mode, ..pre })
                },
                None => post == pre,
            }
    }

    /// Delete the character before the editor cursor.
    pub fn archive_editor_backspace(&mut self)
        requires
            editor_ready(old(self).mode),
        ensures
            Self::archive_editor_backspace_done(*old(self), *final(self)),
    {
        match &mut self.mode {
            Mode::ArchivePage { state: ArchiveState::EditTitle { buf, cursor, .. }, .. } => {
                buf_backspace(buf, cursor);
            },
            Mode::ArchivePage { state: ArchiveState::EditContent { buf, cursor, .. }, .. } => {
                buf_backspace(buf, cursor);
            },
            _ => {},
        }
    }

    /// Store a title being edited (a note past the end is added) and save;
    /// the list comes back with that note current.
    fn commit_title(&mut self, index: usize, title: String)
        ensures
            index < old(self).notes@.len() ==> final(self).notes@ == old(self).notes@.update(
                index as int,
                ArchiveNote { title, ..old(self).notes@[index as int] },
            ),
            index >= old(self).notes@.len() ==> final(self).notes@ == old(self).notes@.push(
                ArchiveNote { id: None, title, content: final(self).notes@.last().content, note_type: NoteType::Quick },
            ) && final(self).notes@.last().content@.len() == 0,
            saved(App { notes: final(self).notes, mode: browse_list(index, old(self).mode), ..*old(self) }, *final(self)),
    {
        if index < self.notes.len() {
            self.notes[index].title = title;
        } else {
            self.notes.push(ArchiveNote { id: None, title, content: String::new(), note_type: NoteType::Quick });
        }
        let mut prev = Mode::Help;
        std::mem::swap(&mut prev, &mut self.mode);
        self.mode = Mode::ArchivePage { state: ArchiveState::BrowseList { selected: index }, previous: Box::new(prev) };
        self.save_project();
    }

    /// What `archive_editor_confirm` does: `post` is `pre` after it.
    pub open spec fn archive_editor_confirm_done(pre: App, post: App) -> bool {
        &&& match pre.mode {
                Mode::ArchivePage { state: ArchiveState::EditTitle { idx, buf, .. }, .. } => {
                    &&& post.notes@.len() >= pre.notes@.len()
                    &&& idx < pre.notes@.len() ==> post.notes@[idx as int].title@ == buf@
                    &&& idx >= pre.notes@.len() ==> post.notes@.last().title@ == buf@
                    &&& post.mode == browse_list(idx, pre.mode)
                },
                Mode::ArchivePage { state: ArchiveState::EditContent { idx, buf, cursor }, .. } => {
                    let k = char_index(buf@, cursor as int);
                    &&& idx < pre.notes@.len() ==> post.notes@ == pre.notes@.update(
                        idx as int,
                        ArchiveNote { content: buf, ..pre.notes@[idx as int] },
                    )
                    &&& idx >= pre.notes@.len() ==> post.notes == pre.notes
                    &&& editor_now(pre.mode, post.mode, buf@.insert(k, '\n'), cursor + 1)
                },
                _ => post == pre,
            }
    }

    /// Enter in the editor: a title is stored (and saved) and the list comes
    /// back; in the content, the text so far is stored (and saved) and a
    /// line break is typed.
    pub fn archive_editor_confirm(&mut self)
        requires
            editor_ready(old(self).mode),
        ensures
            Self::archive_editor_confirm_done(*old(self), *final(self)),
    {
        let edit = match &self.mode {
            Mode::ArchivePage { state: ArchiveState::EditTitle { idx, buf, .. }, .. } => Some((*idx, buf.clone(), true)),
            Mode::ArchivePage { state: ArchiveState::EditContent { idx, buf, .. }, .. } => Some((*idx, buf.clone(), false)),
            _ => None,
        };
        match edit {
            Some((idx, buf, true)) => {
                self.commit_title(idx, buf);
            },
            Some((idx, buf, false)) => {
                if idx < self.notes.len() {
                    self.notes[idx].content = buf;
                    self.save_project();
                }
                self.archive_editor_char('\n');
            },
            None => {},
        }
    }

    /// What `archive_editor_save_and_exit` does: `post` is `pre` after it.
    pub open spec fn archive_editor_save_and_exit_done(pre: App, post: App) -> bool {
        &&& match pre.mode {
                Mode::ArchivePage { state: ArchiveState::EditTitle { idx, buf, .. }, .. } => {
                    &&& post.notes@.len() >= pre.notes@.len()
                    &&& idx < pre.notes@.len() ==> post.notes@[idx as int].title@ == buf@
                    &&& idx >= pre.notes@.len() ==> post.notes@.last().title@ == buf@
                    &&& post.mode == browse_list(idx, pre.mode)
                },
                Mode::ArchivePage { state: ArchiveState::EditContent { idx, buf, .. }, .. } => {
                    &&& idx < pre.notes@.len() ==> post.notes@ == pre.notes@.update(
                        idx as int,
                        ArchiveNote { content: buf, ..pre.notes@[idx as int] },
                    )
                    &&& idx >= pre.notes@.len() ==> post.notes == pre.notes
                    &&& post.mode == browse_list(idx, pre.mode)
                },
                _ => post == pre,
            }
    }

    /// Esc in the editor: store what was edited (and save) and go back to the
    /// list with that note current.
    pub fn archive_editor_save_and_exit(&mut self)
        ensures
            Self::archive_editor_save_and_exit_done(*old(self), *final(self)),
    {
        let edit = match &self.mode {
            Mode::ArchivePage { state: ArchiveState::EditTitle { idx, buf, .. }, .. } => Some((*idx, buf.clone(), true)),
            Mode::ArchivePage { state: ArchiveState::EditContent { idx, buf, .. }, .. } => Some((*idx, buf.clone(), false)),
            _ => None,
        };
        match edit {
            Some((idx, buf, true)) => {
                self.commit_title(idx, buf);
            },
            Some((idx, buf, false)) => {
                if idx < self.notes.len() {
                    self.notes[idx].content = buf;
                    self.save_project();
                }
                let mut prev = Mode::Help;
                std::mem::swap(&mut prev, &mut self.mode);
                self.mode = Mode::ArchivePage { state: ArchiveState::BrowseList { selected: idx }, previous: Box::new(prev) };
            },
            None => {},
        }
    }
}

/// The index of the last `c` in `s`, if any.
pub open spec fn last_index(s: Seq<char>, c: char) -> Option<int> {
    if s.contains(c) {
        Some(choose|k: int| 0 <= k < s.len() && s[k] == c && forall|j: int| k < j < s.len() ==> s[j] != c)
    } else {
        None
    }
}

/// The name mentioned by the last '@' of `s`: the first word after it with
/// the characters that cannot be part of a name trimmed (possibly empty);
/// `None` when `s` has no '@'.
pub open spec fn last_mention(s: Seq<char>) -> Option<Seq<char>> {
    match last_index(s, '@') {
        Some(k) => {
            let ws = words(s.skip(k + 1));
            Some(name_core(if ws.len() > 0 { ws[0] } else { Seq::empty() }))
        },
        None => None,
    }
}

/// The index of the first node labelled `name`, if any.
pub open spec fn label_pos(nodes: Seq<Node>, name: Seq<char>) -> Option<int> {
    if exists|i: int| 0 <= i < nodes.len() && (#[trigger] nodes[i]).label@ == name {
        Some(choose|i: int| 0 <= i < nodes.len() && (#[trigger] nodes[i]).label@ == name
            && forall|j: int| 0 <= j < i ==> (#[trigger] nodes[j]).label@ != name)
    } else {
        None
    }
}

/// The text the archive page shows: the content being edited, or the
/// content of the selected note (empty past the end); `None` outside the
/// list and the content editor.
pub open spec fn shown_text(mode: Mode, notes: Seq<ArchiveNote>) -> Option<Seq<char>> {
    match mode {
        Mode::ArchivePage { state: ArchiveState::EditContent { buf, .. }, .. } => Some(buf@),
        Mode::ArchivePage { state: ArchiveState::BrowseList { selected }, .. } => Some(
            if (selected as int) < notes.len() { notes[selected as int].content@ } else { Seq::empty() },
        ),
        _ => None,
    }
}

/// The index of the last `c` in `s`.
fn find_last_char(s: &str, c: char) -> (r: Option<usize>)
    ensures
        r matches Some(k) ==> last_index(s@, c) == Some(k as int) && (k as int) < s@.len(),
        r is None ==> last_index(s@, c) is None,
{
    let n = s.unicode_len();
    let mut k: usize = n;
    while k > 0
        invariant
            k <= n,
            n == s@.len(),
            forall|j: int| k <= j < n ==> s@[j] != c,
        decreases k,
    {
        if s.get_char(k - 1) == c {
            let ghost w = (k - 1) as int;
            proof {
                assert(s@.contains(c));
                let m = choose|m: int| 0 <= m < s@.len() && s@[m] == c && forall|j: int| m < j < s@.len() ==> s@[j] != c;
                if m < w {
                    assert(s@[w] != c);
                } else if m > w {
                    assert(s@[m] != c);
                }
            }
            return Some(k - 1);
        }
        k = k - 1;
    }
    proof {
        if s@.contains(c) {
            let m = choose|m: int| 0 <= m < s@.len() && s@[m] == c;
            assert(s@[m] != c);
        }
    }
    None
}

/// The index of the first node labelled `name`.
pub(crate) fn find_label(nodes: &Vec<Node>, name: &str) -> (r: Option<usize>)
    ensures
        r matches Some(i) ==> label_pos(nodes@, name@) == Some(i as int) && (i as int) < nodes@.len(),
        r is None ==> label_pos(nodes@, name@) is None,
{
    let mut i: usize = 0;
    while i < nodes.len()
        invariant
            i <= nodes@.len(),
            forall|j: int| 0 <= j < i ==> (#[trigger] nodes@[j]).label@ != name@,
        decreases nodes@.len() - i,
    {
        if crate::text::eq_lit(&nodes[i].label, name) {
            proof {
                let m = choose|m: int| 0 <= m < nodes@.len() && (#[trigger] nodes@[m]).label@ == name@
                    && forall|j: int| 0 <= j < m ==> (#[trigger] nodes@[j]).label@ != name@;
                assert(nodes@[i as int].label@ == name@);
                if m < i {
                    assert(nodes@[m].label@ != name@);
                } else if m > i {
                    assert(nodes@[i as int].label@ != name@);
                }
            }
            return Some(i);
        }
        i = i + 1;
    }
    None
}

impl App {
    /// What `archive_jump_at` does: `post` is `pre` after it.
    pub open spec fn archive_jump_at_done(pre: App, post: App, canvas_w: u16, canvas_h: u16) -> bool {
        &&& ({
                let target = match shown_text(pre.mode, pre.notes@) {
                    Some(t) => match last_mention(t) {
                        Some(name) => label_pos(pre.nodes@, name),
                        None => None,
                    },
                    None => None,
                };
                match target {
                    Some(i) => {
                        let n = pre.nodes@[i];
                        post == (App {
                            selected: i as usize,
                            cursor_x: n.world_x,
                            cursor_y: n.world_y,
                            camera_x: (n.world_x - canvas_w / 2) as i32,
                            camera_y: (n.world_y - canvas_h / 2) as i32,
                            mode: Mode::Canvas { state: CanvasState::Browse },
                            ..pre
                        })
                    },
                    None => post == pre,
                }
            })
    }

    /// Jump to the node named by the last "@name" of the note shown (or
    /// edited): it becomes the selection, the camera centres on it and the
    /// canvas comes back.  Nothing happens when there is no such mention or
    /// no node has that label.
    pub fn archive_jump_at(&mut self, canvas_w: u16, canvas_h: u16)
        requires
            forall|i: int| #![trigger old(self).nodes@[i]] 0 <= i < old(self).nodes@.len() ==> {
                &&& i32::MIN <= old(self).nodes@[i].world_x - canvas_w / 2
                &&& i32::MIN <= old(self).nodes@[i].world_y - canvas_h / 2
            },
        ensures
            Self::archive_jump_at_done(*old(self), *final(self), canvas_w, canvas_h),
    {
        let content = match &self.mode {
            Mode::ArchivePage { state: ArchiveState::EditContent { buf, .. }, .. } => buf.clone(),
            Mode::ArchivePage { state: ArchiveState::BrowseList { selected }, .. } => {
                if *selected < self.notes.len() {
                    self.notes[*selected].content.clone()
                } else {
                    String::new()
                }
            },
            _ => {
                return;
            },
        };
        let ghost t = content@;
        let at = match find_last_char(content.as_str(), '@') {
            Some(k) => k,
            None => {
                return;
            },
        };
        let n = content.as_str().unicode_len();
        let rest = content.as_str().substring_char(at + 1, n);
        proof {
            assert(rest@ =~= t.skip(at + 1));
        }
        let ws = split_words(rest);
        let first = if ws.len() > 0 {
            proof {
                assert(ws@.map_values(|w: String| w@)[0] == ws@[0]@);
            }
            ws[0].clone()
        } else {
            String::new()
        };
        let name = trim_to_name(first.as_str());
        let found = find_label(&self.nodes, name.as_str());
        match found {
            Some(i) => {
                self.selected = i;
                self.center_on_selected(canvas_w, canvas_h);
                self.mode = Mode::Canvas { state: CanvasState::Browse };
            },
            None => {},
        }
    }
}

/// The first reference note titled `label`, searching from index `k`.
pub open spec fn ref_note_from(notes: Seq<ArchiveNote>, label: Seq<char>, k: int) -> Option<int>
    decreases notes.len() - k,
{
    if k < 0 || k >= notes.len() {
        None
    } else if notes[k].title@ == label && notes[k].note_type == NoteType::Reference {
        Some(k)
    } else {
        ref_note_from(notes, label, k + 1)
    }
}

/// The reference note of the first child among `cs` (from index `k`) that
/// stands for a note and has a reference note of its title.
pub open spec fn child_ref_from(nodes: Seq<Node>, notes: Seq<ArchiveNote>, cs: Seq<usize>, k: int) -> Option<int>
    decreases cs.len() - k,
{
    if k < 0 || k >= cs.len() {
        None
    } else {
        let c = nodes[cs[k] as int];
        if c.is_managed_note && ref_note_from(notes, c.label@, 0) is Some {
            ref_note_from(notes, c.label@, 0)
        } else {
            child_ref_from(nodes, notes, cs, k + 1)
        }
    }
}

/// A Markdown heading marker for `depth`: that many '#', at most six.
pub open spec fn heading(depth: nat) -> Seq<char> {
    Seq::new(if depth < 6 { depth } else { 6 }, |i: int| '#')
}

/// `out` followed by the section of `node`'s reference note, if it has
/// one: a blank line (when `out` is not empty), the heading and title, a
/// blank line and the content.
pub open spec fn with_section(nodes: Seq<Node>, notes: Seq<ArchiveNote>, node: usize, depth: nat, out: Seq<char>) -> Seq<char> {
    match child_ref_from(nodes, notes, nodes[node as int].children@, 0) {
        Some(j) => (if out.len() > 0 { out + seq!['\n', '\n'] } else { out }) + heading(depth) + seq![' ']
            + notes[j].title@ + seq!['\n', '\n'] + notes[j].content@,
        None => out,
    }
}

/// `out` followed by the reference sections of the subtree at `node`, depth
/// first, skipping the nodes that stand for notes; `fuel` bounds the depth.
pub open spec fn ref_doc(nodes: Seq<Node>, notes: Seq<ArchiveNote>, node: usize, depth: nat, fuel: nat, out: Seq<char>) -> Seq<char>
    decreases fuel, 0nat,
{
    let o = with_section(nodes, notes, node, depth, out);
    if fuel == 0 || (node as int) >= nodes.len() {
        o
    } else {
        ref_doc_list(nodes, notes, nodes[node as int].children@, depth + 1, (fuel - 1) as nat, o)
    }
}

/// `ref_doc` over each of `cs` that does not stand for a note, in order.
pub open spec fn ref_doc_list(nodes: Seq<Node>, notes: Seq<ArchiveNote>, cs: Seq<usize>, depth: nat, fuel: nat, out: Seq<char>) -> Seq<char>
    decreases fuel, cs.len(),
{
    if cs.len() == 0 {
        out
    } else {
        let o = ref_doc_list(nodes, notes, cs.drop_last(), depth, fuel, out);
        if nodes[cs.last() as int].is_managed_note {
            o
        } else {
            ref_doc(nodes, notes, cs.last(), depth, fuel, o)
        }
    }
}

/// The index of the first node that stands for the note titled `title`.
pub open spec fn note_node_pos(nodes: Seq<Node>, title: Seq<char>) -> Option<int> {
    if exists|i: int| 0 <= i < nodes.len() && (#[trigger] nodes[i]).is_managed_note && nodes[i].label@ == title {
        Some(choose|i: int| 0 <= i < nodes.len() && (#[trigger] nodes[i]).is_managed_note && nodes[i].label@ == title
            && forall|j: int| 0 <= j < i ==> !((#[trigger] nodes[j]).is_managed_note && nodes[j].label@ == title))
    } else {
        None
    }
}

/// The document of note `note_idx`: when a node stands for the note and has
/// a parent, the reference sections of the parent's subtree (headings one
/// level deeper per tree level); otherwise the note's own content.
pub open spec fn concatenated(nodes: Seq<Node>, notes: Seq<ArchiveNote>, note_idx: int) -> Seq<char> {
    match note_node_pos(nodes, notes[note_idx].title@) {
        Some(i) => match nodes[i].parent {
            Some(p) => ref_doc(nodes, notes, p, 1, nodes.len() as nat, Seq::empty()),
            None => notes[note_idx].content@,
        },
        None => notes[note_idx].content@,
    }
}

/// The first reference note titled `label`.
fn find_ref_note(notes: &Vec<ArchiveNote>, label: &String) -> (r: Option<usize>)
    ensures
        r matches Some(j) ==> (j as int) < notes@.len() && ref_note_from(notes@, label@, 0) == Some(j as int),
        r is None ==> ref_note_from(notes@, label@, 0) is None,
{
    let mut k: usize = 0;
    while k < notes.len()
        invariant
            k <= notes@.len(),
            ref_note_from(notes@, label@, 0) == ref_note_from(notes@, label@, k as int),
        decreases notes@.len() - k,
    {
        if notes[k].note_type == NoteType::Reference && notes[k].title == *label {
            return Some(k);
        }
        k = k + 1;
    }
    None
}

/// The reference note of the first child of `node` that stands for a note
/// with a reference note.
fn find_ref_child(nodes: &Vec<Node>, notes: &Vec<ArchiveNote>, node: usize) -> (r: Option<usize>)
    requires
        forest(nodes@),
        (node as int) < nodes@.len(),
    ensures
        r matches Some(j) ==> (j as int) < notes@.len() && child_ref_from(nodes@, notes@, nodes@[node as int].children@, 0) == Some(j as int),
        r is None ==> child_ref_from(nodes@, notes@, nodes@[node as int].children@, 0) is None,
{
    let ghost cs = nodes@[node as int].children@;
    let mut k: usize = 0;
    while k < nodes[node].children.len()
        invariant
            forest(nodes@),
            (node as int) < nodes@.len(),
            cs == nodes@[node as int].children@,
            k <= cs.len(),
            child_ref_from(nodes@, notes@, cs, 0) == child_ref_from(nodes@, notes@, cs, k as int),
        decreases cs.len() - k,
    {
        let c = nodes[node].children[k];
        proof {
            assert(cs[k as int] == c);
        }
        if nodes[c].is_managed_note {
            let found = find_ref_note(notes, &nodes[c].label);
            if found.is_some() {
                return found;
            }
        }
        k = k + 1;
    }
    None
}

/// The heading marker for `depth`.
fn heading_text(depth: usize) -> (r: String)
    ensures
        r@ == heading(depth as nat),
{
    let n: usize = if depth < 6 { depth } else { 6 };
    let mut s = String::new();
    let mut k: usize = 0;
    while k < n
        invariant
            k <= n,
            n == (if depth < 6 { depth } else { 6 }),
            s@ == Seq::new(k as nat, |i: int| '#'),
        decreases n - k,
    {
        s.append("#");
        proof {
            reveal_strlit("#");
            assert(s@ =~= Seq::new((k + 1) as nat, |i: int| '#'));
        }
        k = k + 1;
    }
    s
}

impl App {
    /// Append the section of `node_idx` and the sections of its subtree.
    fn collect_reference_notes_recursive(
        &self,
        node_idx: usize,
        depth: usize,
        out: &mut String,
        Ghost(rank): Ghost<Seq<nat>>,
        Ghost(path): Ghost<Seq<usize>>,
    )
        requires
            forest(self.nodes@),
            ranked(self.nodes@, rank),
            (node_idx as int) < self.nodes@.len(),
            path.len() == depth,
            depth >= 1,
            path.last() == node_idx,
            path.no_duplicates(),
            forall|k: int| 0 <= k < path.len() ==> (#[trigger] path[k] as int) < self.nodes@.len(),
            forall|k: int| 0 <= k < path.len() - 1 ==> rank[#[trigger] path[k] as int] < rank[node_idx as int],
        ensures
            final(out)@ == ref_doc(self.nodes@, self.notes@, node_idx, depth as nat, (self.nodes@.len() + 1 - depth) as nat, old(out)@),
        decreases self.nodes@.len() + 1 - depth,
    {
        proof {
            lemma_distinct_bounded(path, self.nodes@.len());
        }
        let ghost nodes = self.nodes@;
        let ghost notes = self.notes@;
        let ghost fuel = (nodes.len() + 1 - depth) as nat;
        let ghost out0 = out@;
        let _n = self.nodes.len();
        let found = find_ref_child(&self.nodes, &self.notes, node_idx);
        match found {
            Some(j) => {
                if out.as_str().unicode_len() > 0 {
                    out.append("\n\n");
                }
                proof {
                    reveal_strlit("\n\n");
                    reveal_strlit(" ");
                    assert(out@ == (if out0.len() > 0 { out0 + seq!['\n', '\n'] } else { out0 }));
                }
                let h = heading_text(depth);
                out.append(h.as_str());
                out.append(" ");
                out.append(self.notes[j].title.as_str());
                out.append("\n\n");
                out.append(self.notes[j].content.as_str());
                proof {
                    reveal_strlit("\n\n");
                    reveal_strlit(" ");
                    assert(out@ =~= with_section(nodes, notes, node_idx, depth as nat, out0));
                }
            },
            None => {},
        }
        let ghost sec = out@;
        assert(sec == with_section(nodes, notes, node_idx, depth as nat, out0));
        let ghost cs = nodes[node_idx as int].children@;
        let mut k: usize = 0;
        while k < self.nodes[node_idx].children.len()
            invariant
                forest(self.nodes@),
                ranked(self.nodes@, rank),
                nodes == self.nodes@,
                notes == self.notes@,
                (node_idx as int) < nodes.len(),
                cs == nodes[node_idx as int].children@,
                path.len() == depth,
                depth >= 1,
                path.last() == node_idx,
                path.no_duplicates(),
                forall|q: int| 0 <= q < path.len() ==> (#[trigger] path[q] as int) < nodes.len(),
                forall|q: int| 0 <= q < path.len() - 1 ==> rank[#[trigger] path[q] as int] < rank[node_idx as int],
                fuel == nodes.len() + 1 - depth,
                fuel >= 1,
                _n == nodes.len(),
                k <= cs.len(),
                out@ == ref_doc_list(nodes, notes, cs.take(k as int), (depth + 1) as nat, (fuel - 1) as nat, sec),
            decreases cs.len() - k,
        {
            let c = self.nodes[node_idx].children[k];
            proof {
                assert(cs[k as int] == c);
                assert(cs.take(k as int + 1).drop_last() =~= cs.take(k as int));
                assert(cs.take(k as int + 1).last() == c);
            }
            if !self.nodes[c].is_managed_note {
                let ghost path2 = path.push(c);
                proof {
                    assert(nodes[c as int].parent == Some(node_idx));
                    assert(rank[node_idx as int] < rank[c as int]);
                    assert forall|a: int, b: int| 0 <= a < path2.len() && 0 <= b < path2.len() && a != b implies path2[a] != path2[b] by {
                        if a < path.len() && b < path.len() {
                        } else if a < path.len() {
                            if a < path.len() - 1 {
                                assert(rank[path[a] as int] < rank[node_idx as int]);
                            }
                        } else {
                            if b < path.len() - 1 {
                                assert(rank[path[b] as int] < rank[node_idx as int]);
                            }
                        }
                    }
                    assert forall|q: int| 0 <= q < path2.len() - 1 implies rank[#[trigger] path2[q] as int] < rank[c as int] by {
                        assert(path2[q] == path[q]);
                        if q < path.len() - 1 {
                            assert(rank[path[q] as int] < rank[node_idx as int]);
                        }
                    }
                    assert forall|q: int| 0 <= q < path2.len() implies (#[trigger] path2[q] as int) < nodes.len() by {
                        if q < path.len() {
                            assert(path2[q] == path[q]);
                        }
                    }
                    lemma_distinct_bounded(path2, nodes.len());
                }
                self.collect_reference_notes_recursive(c, depth + 1, out, Ghost(rank), Ghost(path2));
            }
            k = k + 1;
            assert(out@ == ref_doc_list(nodes, notes, cs.take(k as int), (depth + 1) as nat, (fuel - 1) as nat, sec));
        }
        assert(cs.take(cs.len() as int) =~= cs);
    }

    /// The reference document of note `note_idx` (see `concatenated`).
    pub fn build_concatenated_document(&self, note_idx: usize) -> (r: String)
        requires
            self.wf(),
            (note_idx as int) < self.notes@.len(),
        ensures
            r@ == concatenated(self.nodes@, self.notes@, note_idx as int),
    {
        let title = &self.notes[note_idx].title;
        let mut i: usize = 0;
        let mut root: Option<usize> = None;
        let mut searching = true;
        while searching && i < self.nodes.len()
            invariant
                i <= self.nodes@.len(),
                title@ == self.notes@[note_idx as int].title@,
                forall|j: int| 0 <= j < i ==> !((#[trigger] self.nodes@[j]).is_managed_note && self.nodes@[j].label@ == title@),
                !searching ==> (i as int) < self.nodes@.len() && self.nodes@[i as int].is_managed_note && self.nodes@[i as int].label@ == title@,
            decreases self.nodes@.len() - i, if searching { 1int } else { 0int },
        {
            if self.nodes[i].is_managed_note && self.nodes[i].label == *title {
                searching = false;
            } else {
                i = i + 1;
            }
        }
        proof {
            let t = title@;
            let nodes = self.nodes@;
            if !searching {
                let m = choose|m: int| 0 <= m < nodes.len() && (#[trigger] nodes[m]).is_managed_note && nodes[m].label@ == t
                    && forall|j: int| 0 <= j < m ==> !((#[trigger] nodes[j]).is_managed_note && nodes[j].label@ == t);
                assert(nodes[i as int].is_managed_note && nodes[i as int].label@ == t);
                if m < i {
                    assert(!(nodes[m].is_managed_note && nodes[m].label@ == t));
                } else if m > i {
                    assert(!(nodes[i as int].is_managed_note && nodes[i as int].label@ == t));
                }
                assert(note_node_pos(nodes, t) == Some(i as int));
            } else {
                if exists|j: int| 0 <= j < nodes.len() && (#[trigger] nodes[j]).is_managed_note && nodes[j].label@ == t {
                    let m = choose|j: int| 0 <= j < nodes.len() && (#[trigger] nodes[j]).is_managed_note && nodes[j].label@ == t;
                    assert(!(nodes[m].is_managed_note && nodes[m].label@ == t));
                }
                assert(note_node_pos(nodes, t) is None);
            }
        }
        if searching {
            return self.notes[note_idx].content.clone();
        }
        match self.nodes[i].parent {
            Some(p) => {
                let ghost rank = choose|rank: Seq<nat>| ranked(self.nodes@, rank);
                let mut out = String::new();
                let ghost path = seq![p];
                proof {
                    assert(self.nodes@[i as int].parent is Some);
                    assert(path.no_duplicates());
                }
                self.collect_reference_notes_recursive(p, 1, &mut out, Ghost(rank), Ghost(path));
                out
            },
            None => self.notes[note_idx].content.clone(),
        }
    }
}

} // verus!
