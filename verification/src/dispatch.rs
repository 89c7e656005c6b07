//! Acting on a key press: the command that the keyboard map gives is run,
//! after the checks of what its operation assumes; a command whose checks
//! fail does nothing.

use vstd::prelude::*;
use crate::app::{mode_ok, App};
use crate::archive::editor_ready;
use crate::buffer::{buf_ok, byte_len};
use crate::canvas::canvas_buf_ready;
use crate::check::{boundary_ok, is_forest, mode_valid, size_fits, times_valid};
use crate::forest::forest;
use crate::input::input_ready;
use crate::keymap::{command_of, key_command, Command, KeyPress, MenuEntry, StatusChoice};
use crate::mode::{ArchiveState, CanvasState, InputAction, Mode, ProjectListState, StartMenuState};
use crate::ops::saved;
use crate::project_list::list_field;
use crate::start_menu::field_ready;
use crate::goto::goto_parts;

verus! {

/// The bound on coordinates and sizes under which the camera and cursor
/// arithmetic of moves, jumps and scrolling cannot overflow.
pub open spec fn near(v: i32) -> bool {
    -268435456 <= v <= 268435456
}

/// Cursor, camera and every node's position are near the origin, and there
/// are not too many nodes.
pub open spec fn coords_near(a: App) -> bool {
    &&& near(a.cursor_x)
    &&& near(a.cursor_y)
    &&& near(a.camera_x)
    &&& near(a.camera_y)
    &&& a.nodes@.len() <= 1048576
    &&& forall|i: int| 0 <= i < a.nodes@.len() ==> near((#[trigger] a.nodes@[i]).world_x) && near(a.nodes@[i].world_y)
}

/// Every text field of the mode sits on a character boundary with room to
/// grow by a character.
pub open spec fn fields_ready(mode: Mode) -> bool {
    &&& field_ready(mode)
    &&& input_ready(mode)
    &&& editor_ready(mode)
    &&& canvas_buf_ready(mode)
    &&& (list_field(mode) matches Some((b, k)) ==> buf_ok(b, k as int))
    &&& (goto_parts(mode) matches Some((b, c, m, i)) ==> buf_ok(b, c as int))
}

/// The start menu's list sizes fit the menu's arithmetic.
pub open spec fn lists_fit(a: App) -> bool {
    a.registry.projects@.len() + a.themes@.len() + 9 <= i32::MAX
}

impl App {
    /// Whether the node list and every state on the undo stack are forests.
    pub fn wf_check(&self) -> (r: bool)
        ensures
            r == self.wf(),
    {
        if !is_forest(&self.nodes) {
            return false;
        }
        let mut k: usize = 0;
        while k < self.undo_stack.len()
            invariant
                k <= self.undo_stack@.len(),
                forall|j: int| 0 <= j < k ==> forest(#[trigger] self.undo_stack@[j]@),
            decreases self.undo_stack@.len() - k,
        {
            if !is_forest(&self.undo_stack[k]) {
                return false;
            }
            k = k + 1;
        }
        true
    }

    /// Whether cursor, camera and node positions are near the origin.
    #[verifier::loop_isolation(false)]
    pub fn coords_check(&self) -> (r: bool)
        ensures
            r == coords_near(*self),
    {
        let lim: i32 = 268435456;
        if !(-lim <= self.cursor_x && self.cursor_x <= lim && -lim <= self.cursor_y && self.cursor_y <= lim) {
            return false;
        }
        if !(-lim <= self.camera_x && self.camera_x <= lim && -lim <= self.camera_y && self.camera_y <= lim) {
            return false;
        }
        if self.nodes.len() > 1048576 {
            return false;
        }
        let mut i: usize = 0;
        while i < self.nodes.len()
            invariant
                i <= self.nodes@.len(),
                forall|j: int| 0 <= j < i ==> near((#[trigger] self.nodes@[j]).world_x) && near(self.nodes@[j].world_y),
            decreases self.nodes@.len() - i,
        {
            let n = &self.nodes[i];
            if !(-lim <= n.world_x && n.world_x <= lim && -lim <= n.world_y && n.world_y <= lim) {
                return false;
            }
            i = i + 1;
        }
        true
    }

    /// Whether the start menu's list sizes fit its arithmetic.
    pub fn lists_check(&self) -> (r: bool)
        ensures
            r == lists_fit(*self),
    {
        let p = self.registry.projects.len();
        let t = self.themes.len();
        p <= 2147483638 && t <= 2147483638 - p
    }
}

/// Whether text `buf` with its cursor at byte `cursor` is ready for editing.
fn field_check(buf: &String, cursor: usize) -> (r: bool)
    ensures
        r == buf_ok(buf@, cursor as int),
{
    let n = byte_len(buf);
    boundary_ok(buf, cursor) && n <= usize::MAX - 4
}

/// Every text field of `mode` sits on a character boundary with room to
/// grow by a character (what `fields_check` tests).
pub open spec fn fields_fit(mode: Mode) -> bool {
    match mode {
        Mode::Input { buf, cursor, .. } => buf_ok(buf@, cursor as int),
        Mode::StartMenu { state } => match state {
            StartMenuState::NewPath { buf, cursor } => buf_ok(buf@, cursor as int),
            StartMenuState::NewName { buf, cursor, .. } => buf_ok(buf@, cursor as int),
            StartMenuState::EditSetting { buf, cursor, .. } => buf_ok(buf@, cursor as int),
            StartMenuState::Import { buf, cursor, .. } => buf_ok(buf@, cursor as int),
            StartMenuState::Main { .. } => true,
        },
        Mode::ProjectList { state } => match state {
            ProjectListState::NewPath { buf, cursor } => buf_ok(buf@, cursor as int),
            ProjectListState::NewName { buf, cursor, .. } => buf_ok(buf@, cursor as int),
            ProjectListState::Browse { .. } => true,
        },
        Mode::ArchivePage { state, .. } => match state {
            ArchiveState::EditTitle { buf, cursor, .. } => buf_ok(buf@, cursor as int),
            ArchiveState::EditContent { buf, cursor, .. } => buf_ok(buf@, cursor as int),
            ArchiveState::BrowseList { .. } => true,
        },
        Mode::Canvas { state } => match state {
            CanvasState::New { buf, text_cursor } => buf_ok(buf@, text_cursor as int),
            CanvasState::Pick { buf, cursor, .. } => buf_ok(buf@, cursor as int),
            CanvasState::Goto { buf, cursor, .. } => buf_ok(buf@, cursor as int),
            _ => true,
        },
        _ => true,
    }
}

/// Whether every text field of `mode` is ready for editing.
pub fn fields_check(mode: &Mode) -> (r: bool)
    ensures
        r == fields_fit(*mode),
        r ==> fields_ready(*mode),
{
    match mode {
        Mode::Input { buf, cursor, .. } => field_check(buf, *cursor),
        Mode::StartMenu { state } => match state {
            StartMenuState::NewPath { buf, cursor } => field_check(buf, *cursor),
            StartMenuState::NewName { buf, cursor, .. } => field_check(buf, *cursor),
            StartMenuState::EditSetting { buf, cursor, .. } => field_check(buf, *cursor),
            StartMenuState::Import { buf, cursor, .. } => field_check(buf, *cursor),
            StartMenuState::Main { .. } => true,
        },
        Mode::ProjectList { state } => match state {
            ProjectListState::NewPath { buf, cursor } => field_check(buf, *cursor),
            ProjectListState::NewName { buf, cursor, .. } => field_check(buf, *cursor),
            ProjectListState::Browse { .. } => true,
        },
        Mode::ArchivePage { state, .. } => match state {
            ArchiveState::EditTitle { buf, cursor, .. } => field_check(buf, *cursor),
            ArchiveState::EditContent { buf, cursor, .. } => field_check(buf, *cursor),
            ArchiveState::BrowseList { .. } => true,
        },
        Mode::Canvas { state } => match state {
            CanvasState::New { buf, text_cursor } => field_check(buf, *text_cursor),
            CanvasState::Pick { buf, cursor, .. } => field_check(buf, *cursor),
            CanvasState::Goto { buf, cursor, .. } => field_check(buf, *cursor),
            _ => true,
        },
        _ => true,
    }
}

/// The node lists are forests and the mode refers to nodes in range.
pub open spec fn mode_fine(a: App) -> bool {
    a.wf() && mode_ok(a.mode, a.nodes@)
}

/// What the start menu's operations need.
pub open spec fn menu_fine(a: App) -> bool {
    &&& a.wf()
    &&& (a.selected as int) < a.nodes@.len()
    &&& a.nodes@.len() < usize::MAX
    &&& lists_fit(a)
    &&& mode_ok(a.mode, a.nodes@)
}

/// The last link origin, if any, is a node.
pub open spec fn origin_ok(a: App) -> bool {
    a.last_link_origin matches Some(p) ==> (p as int) < a.nodes@.len()
}

/// The label editor is inserting a child.
pub open spec fn inserting(mode: Mode) -> bool {
    mode matches Mode::Input { action: InputAction::InsertChild { .. }, .. }
}

/// `b` is `a` after the label editor's confirmation when its checks pass,
/// else `a`.
pub open spec fn input_confirm_step(a: App, b: App) -> bool {
    if mode_fine(a) && a.nodes@.len() < usize::MAX {
        App::confirm_input_done(a, b)
    } else {
        b == a
    }
}

/// `b` is `a` laid out afresh when its node lists are forests, else `a`.
pub open spec fn relayout_step(a: App, b: App) -> bool {
    if a.wf() {
        exists|r: Option<Vec<(usize, usize)>>| #[trigger] App::try_recompute_layout_done(a, b, r)
    } else {
        b == a
    }
}

/// `b` is `a` scrolled to the node being inserted when that is safe, else
/// `a`.
pub open spec fn input_scroll_step(a: App, b: App, h: u16) -> bool {
    if a.wf() && coords_near(a) && mode_ok(a.mode, a.nodes@) {
        App::scroll_to_input_done(a, b, h as usize)
    } else {
        b == a
    }
}

/// `b` is `a` scrolled to the selected node when that is safe, else `a`.
pub open spec fn selected_scroll_step(a: App, b: App, h: u16) -> bool {
    if coords_near(a) {
        App::scroll_to_selected_done(a, b, h as usize)
    } else {
        b == a
    }
}

/// The label the start menu entry goes by.
pub open spec fn entry_text(e: MenuEntry) -> &'static str {
    match e {
        MenuEntry::New => "new",
        MenuEntry::Open => "open",
        MenuEntry::Find => "find",
        MenuEntry::Settings => "settings",
        MenuEntry::Help => "help",
    }
}

/// The status a choice sets (`None` to clear it).
pub open spec fn status_text(s: StatusChoice) -> Option<&'static str> {
    match s {
        StatusChoice::Todo => Some("todo"),
        StatusChoice::InProgress => Some("in_progress"),
        StatusChoice::Completed => Some("completed"),
        StatusChoice::Blocked => Some("blocked"),
        StatusChoice::Clear => None,
    }
}

/// What a key press does to the application on a `w` by `h` canvas: the
/// command that the keyboard map gives for it is run.
pub open spec fn key_step(a: App, k: KeyPress, w: u16, h: u16, b: App, go_on: bool) -> bool {
    command_step(a, command_of(a.mode, a.has_selection_spec(), k), w, h, b, go_on)
}

/// What running command `c` on a `w` by `h` canvas does: `go_on` is false
/// exactly for the commands that end the application; each other command
/// does what the operation it names does (`App::<operation>_done`) when
/// that operation's checks pass, and nothing when they fail.
pub open spec fn command_step(a: App, c: Command, w: u16, h: u16, b: App, go_on: bool) -> bool {
    &&& go_on == !(c is Quit || c is SaveAndQuit)
    &&& match c {
        Command::Nothing => b == a,
        Command::Quit => b == a,
        Command::SaveAndQuit => saved(a, b),
        Command::StartConfirm => if menu_fine(a) && fields_fit(a.mode) {
            App::start_menu_confirm_done(a, b)
        } else {
            b == a
        },
        Command::StartEdit => if menu_fine(a) { App::start_menu_edit_done(a, b) } else { b == a },
        Command::StartGoTo(e) => if menu_fine(a) {
            App::start_menu_go_to_label_done(a, b, entry_text(e))
        } else {
            b == a
        },
        Command::StartRemove => if menu_fine(a) { App::start_menu_remove_selected_done(a, b) } else { b == a },
        Command::StartNav(d) => if a.wf() { App::start_menu_nav_done(a, b, d) } else { b == a },
        Command::StartCancel => if lists_fit(a) { App::start_menu_cancel_done(a, b) } else { b == a },
        Command::StartBackspace => if fields_fit(a.mode) { App::start_menu_backspace_done(a, b) } else { b == a },
        Command::StartCursor(d) => if fields_fit(a.mode) { App::start_menu_move_cursor_done(a, b, d) } else { b == a },
        Command::StartImportToggleRoot => App::start_menu_import_toggle_root_done(a, b),
        Command::StartImportNext => if mode_fine(a) { App::start_menu_import_next_done(a, b) } else { b == a },
        Command::StartImportPrev => if mode_fine(a) { App::start_menu_import_prev_done(a, b) } else { b == a },
        Command::StartChar(ch) => if fields_fit(a.mode) { App::start_menu_input_char_done(a, b, ch) } else { b == a },
        Command::InputConfirm => exists|m: App|
            #[trigger] input_confirm_step(a, m) && if inserting(a.mode) { input_scroll_step(m, b, h) } else { b == m },
        Command::InputCancel => if mode_fine(a) && a.nodes@.len() < usize::MAX {
            App::cancel_input_done(a, b)
        } else {
            b == a
        },
        Command::InputBackspace => if fields_fit(a.mode) { App::input_backspace_done(a, b) } else { b == a },
        Command::InputCursor(d) => if fields_fit(a.mode) { App::input_move_cursor_done(a, b, d) } else { b == a },
        Command::InputIndent => if mode_fine(a) {
            exists|m: App| App::input_indent_done(a, m) && input_scroll_step(m, b, h)
        } else {
            b == a
        },
        Command::InputDedent => if mode_fine(a) {
            exists|m: App| App::input_dedent_done(a, m) && input_scroll_step(m, b, h)
        } else {
            b == a
        },
        Command::InputChar(ch) => if fields_fit(a.mode) { App::input_char_done(a, b, ch) } else { b == a },
        Command::ReparentCancel => exists|m: App|
            relayout_step(a, m) && if mode_fine(m) { App::cancel_reparent_done(m, b) } else { b == m },
        Command::ReparentConfirm => exists|m: App|
            relayout_step(a, m) && if mode_fine(m) { App::confirm_reparent_done(m, b) } else { b == m },
        Command::ReparentVertical(d) => exists|m: App|
            relayout_step(a, m) && if mode_fine(m) {
                exists|m2: App| App::reparent_nav_vertical_done(m, m2, d) && selected_scroll_step(m2, b, h)
            } else {
                b == m
            },
        Command::ReparentParent => exists|m: App|
            relayout_step(a, m) && if mode_fine(m) {
                exists|m2: App| App::reparent_nav_parent_done(m, m2) && selected_scroll_step(m2, b, h)
            } else {
                b == m
            },
        Command::ReparentChild => exists|m: App|
            relayout_step(a, m) && if mode_fine(m) {
                exists|m2: App| App::reparent_nav_child_done(m, m2) && selected_scroll_step(m2, b, h)
            } else {
                b == m
            },
        Command::HelpClose => if a.wf() && lists_fit(a) { App::canvas_close_help_done(a, b) } else { b == a },
        Command::Move(dx, dy) => if -1 <= dx <= 1 && -1 <= dy <= 1 && coords_near(a) {
            App::cursor_move_done(a, b, dx, dy, w, h)
        } else {
            b == a
        },
        Command::HelpToggle => exists|m: App| App::toggle_collapse_done(a, m) && relayout_step(m, b),
        Command::ArchiveNav(d) => App::archive_nav_done(a, b, d),
        Command::ArchiveNew => App::archive_new_note_done(a, b),
        Command::ArchiveDelete => App::archive_delete_note_done(a, b),
        Command::ArchiveEnter => App::archive_enter_editor_done(a, b),
        Command::ArchiveTitle => App::archive_edit_title_done(a, b),
        Command::ArchiveJump => if coords_near(a) { App::archive_jump_at_done(a, b, w, h) } else { b == a },
        Command::ArchiveLeave => App::archive_leave_done(a, b),
        Command::ArchiveSaveExit => App::archive_editor_save_and_exit_done(a, b),
        Command::ArchiveChar(ch) => if fields_fit(a.mode) { App::archive_editor_char_done(a, b, ch) } else { b == a },
        Command::ArchiveConfirm => if fields_fit(a.mode) { App::archive_editor_confirm_done(a, b) } else { b == a },
        Command::ArchiveBackspace => if fields_fit(a.mode) { App::archive_editor_backspace_done(a, b) } else { b == a },
        Command::ListNav(d) => App::project_list_nav_done(a, b, d),
        Command::ListOpen => App::project_list_open_selected_done(a, b),
        Command::ListRemove => App::project_list_remove_selected_done(a, b),
        Command::ListNew => App::project_list_start_new_done(a, b),
        Command::ListCancel => App::project_list_cancel_done(a, b),
        Command::ListConfirm => App::project_list_confirm_done(a, b),
        Command::ListBackspace => if fields_fit(a.mode) { App::project_list_backspace_done(a, b) } else { b == a },
        Command::ListCursor(d) => if fields_fit(a.mode) { App::project_list_move_cursor_done(a, b, d) } else { b == a },
        Command::ListChar(ch) => if fields_fit(a.mode) { App::project_list_input_char_done(a, b, ch) } else { b == a },
        Command::GotoConfirm => if a.wf() && coords_near(a) && mode_ok(a.mode, a.nodes@) {
            App::canvas_goto_confirm_done(a, b, w, h)
        } else {
            b == a
        },
        Command::CancelSub => if mode_fine(a) { App::canvas_cancel_sub_done(a, b) } else { b == a },
        Command::GotoNext => App::canvas_goto_next_done(a, b),
        Command::GotoBackspace => if mode_fine(a) && fields_fit(a.mode) {
            App::canvas_goto_backspace_done(a, b)
        } else {
            b == a
        },
        Command::GotoCursor(d) => if fields_fit(a.mode) { App::canvas_goto_move_cursor_done(a, b, d) } else { b == a },
        Command::GotoChar(ch) => if mode_fine(a) && fields_fit(a.mode) {
            App::canvas_goto_input_char_done(a, b, ch)
        } else {
            b == a
        },
        Command::PickConfirm => if mode_fine(a) { App::canvas_pick_or_place_done(a, b) } else { b == a },
        Command::PickBackspace => if fields_fit(a.mode) { App::canvas_pick_backspace_done(a, b) } else { b == a },
        Command::PickChar(ch) => if fields_fit(a.mode) { App::canvas_pick_char_done(a, b, ch) } else { b == a },
        Command::NewConfirm => if a.wf() && a.nodes@.len() < usize::MAX {
            exists|m: App|
                App::canvas_confirm_new_done(a, m) && if inserting(m.mode) { input_scroll_step(m, b, h) } else { b == m }
        } else {
            b == a
        },
        Command::NewBackspace => if fields_fit(a.mode) { App::canvas_new_backspace_done(a, b) } else { b == a },
        Command::NewCursor(d) => if fields_fit(a.mode) { App::canvas_new_move_cursor_done(a, b, d) } else { b == a },
        Command::NewChar(ch) => if fields_fit(a.mode) { App::canvas_new_char_done(a, b, ch) } else { b == a },
        Command::SetStatus(st) => if a.wf() { App::canvas_set_status_done(a, b, status_text(st)) } else { b == a },
        Command::MenuIncoming => b == (App { mode: Mode::Canvas { state: CanvasState::MenuIncoming }, ..a }),
        Command::MenuOutgoing => b == (App { mode: Mode::Canvas { state: CanvasState::MenuOutgoing }, ..a }),
        Command::MenuToggleGlobal => saved(
            App { arrow: crate::mode::ArrowSettings { global: !a.arrow.global, ..a.arrow }, ..a },
            b,
        ),
        Command::MenuClose => b == (App { mode: Mode::Canvas { state: CanvasState::Browse }, ..a }),
        Command::MenuBack => b == (App { mode: Mode::Canvas { state: CanvasState::Menu }, ..a }),
        Command::MenuFidelity(incoming, f) => saved(
            App {
                arrow: if incoming {
                    crate::mode::ArrowSettings { incoming: f, ..a.arrow }
                } else {
                    crate::mode::ArrowSettings { outgoing: f, ..a.arrow }
                },
                mode: Mode::Canvas { state: CanvasState::Menu },
                ..a
            },
            b,
        ),
        Command::QuitToMenu => if a.wf() && lists_fit(a) { App::quit_to_main_menu_done(a, b) } else { b == a },
        Command::ConfirmLink => if mode_fine(a) { App::canvas_confirm_link_done(a, b) } else { b == a },
        Command::Warp(dx, dy) => if coords_near(a) { App::cursor_warp_done(a, b, dx, dy, w, h) } else { b == a },
        Command::Insert => App::enter_insert_done(a, b),
        Command::NewNode => App::canvas_start_new_done(a, b),
        Command::Edit => App::enter_edit_done(a, b),
        Command::Overwrite => App::enter_overwrite_done(a, b),
        Command::Reparent => if a.wf() { App::enter_reparent_done(a, b) } else { b == a },
        Command::Delete => if a.wf() && crate::managed::times_ok(a.nodes@) && 2 * a.nodes@.len()
            + crate::managed::times_total(a.nodes@, a.nodes@.len() as int) < usize::MAX && origin_ok(a) {
            App::delete_selected_done(a, b)
        } else {
            b == a
        },
        Command::PickOrPlace => if mode_fine(a) { App::canvas_pick_or_place_done(a, b) } else { b == a },
        Command::StartLink => App::canvas_start_link_done(a, b),
        Command::StartStatus => App::canvas_start_status_tagging_done(a, b),
        Command::StartGoto => if mode_fine(a) { App::canvas_start_goto_done(a, b) } else { b == a },
        Command::Undo => if a.wf() { App::undo_done(a, b) } else { b == a },
        Command::StartHelp => if a.wf() { App::canvas_start_help_done(a, b) } else { b == a },
        Command::OpenArchive => b == (App {
            mode: Mode::ArchivePage { state: ArchiveState::BrowseList { selected: 0 }, previous: Box::new(a.mode) },
            ..a
        }),
        Command::OpenMenu => b == (App { mode: Mode::Canvas { state: CanvasState::Menu }, ..a }),
        Command::IndentIncrease => if a.wf() {
            exists|m: App| App::indent_increase_done(a, m) && relayout_step(m, b)
        } else {
            b == a
        },
        Command::IndentDecrease => if a.wf() {
            exists|m: App| App::indent_decrease_done(a, m) && relayout_step(m, b)
        } else {
            b == a
        },
        Command::CanvasToggle => exists|m1: App, m2: App|
            App::toggle_collapse_done(a, m1) && relayout_step(m1, m2) && saved(m2, b),
        Command::Center => if coords_near(a) { App::center_on_selected_done(a, b, w, h) } else { b == a },
        Command::JumpLink(d) => if a.wf() && coords_near(a) && origin_ok(a) {
            App::canvas_jump_link_done(a, b, d, w, h)
        } else {
            b == a
        },
    }
}

fn entry_label(e: MenuEntry) -> (r: &'static str)
    ensures
        r == entry_text(e),
{
    match e {
        MenuEntry::New => "new",
        MenuEntry::Open => "open",
        MenuEntry::Find => "find",
        MenuEntry::Settings => "settings",
        MenuEntry::Help => "help",
    }
}

fn status_name(s: StatusChoice) -> (r: Option<&'static str>)
    ensures
        r == status_text(s),
{
    match s {
        StatusChoice::Todo => Some("todo"),
        StatusChoice::InProgress => Some("in_progress"),
        StatusChoice::Completed => Some("completed"),
        StatusChoice::Blocked => Some("blocked"),
        StatusChoice::Clear => None,
    }
}

impl App {
    /// Lay the canvas out afresh when the node lists are forests.
    fn relayout_checked(&mut self)
        ensures
            relayout_step(*old(self), *final(self)),
    {
        if self.wf_check() {
            let r = self.try_recompute_layout();
            assert(App::try_recompute_layout_done(*old(self), *self, r));
        }
    }

    /// Scroll the camera to the node being inserted, when that is safe.
    fn scroll_input_checked(&mut self, canvas_h: u16)
        ensures
            input_scroll_step(*old(self), *final(self), canvas_h),
    {
        if self.wf_check() && self.coords_check() && mode_valid(&self.mode, &self.nodes) {
            self.scroll_to_input(canvas_h as usize);
        }
    }

    /// Scroll the camera to the selected node, when that is safe.
    fn scroll_selected_checked(&mut self, canvas_h: u16)
        ensures
            selected_scroll_step(*old(self), *final(self), canvas_h),
    {
        if self.coords_check() {
            self.scroll_to_selected(canvas_h as usize);
        }
    }

    /// Whether the last link origin, if any, is a node.
    fn origin_check(&self) -> (r: bool)
        ensures
            r == origin_ok(*self),
    {
        match self.last_link_origin {
            Some(p) => p < self.nodes.len(),
            None => true,
        }
    }

    /// Whether the node lists are forests and the mode is in range.
    fn mode_check(&self) -> (r: bool)
        ensures
            r == mode_fine(*self),
    {
        self.wf_check() && mode_valid(&self.mode, &self.nodes)
    }

    /// Whether the start menu's operations can run.
    fn menu_check(&self) -> (r: bool)
        ensures
            r == menu_fine(*self),
    {
        self.wf_check() && self.selected < self.nodes.len() && self.nodes.len() < usize::MAX && self.lists_check()
            && mode_valid(&self.mode, &self.nodes)
    }

    /// Run command `cmd` on a `canvas_w` by `canvas_h` canvas; `false` when
    /// the application should end.
    pub fn run_command(&mut self, cmd: Command, canvas_w: u16, canvas_h: u16) -> (go_on: bool)
        ensures
            command_step(*old(self), cmd, canvas_w, canvas_h, *final(self), go_on),
    {
        let (w, h) = (canvas_w, canvas_h);
        match cmd {
            Command::Nothing => {},
            Command::Quit => return false,
            Command::SaveAndQuit => {
                self.save_project();
                return false;
            },
            Command::StartConfirm => if self.menu_check() && fields_check(&self.mode) {
                self.start_menu_confirm();
            },
            Command::StartEdit => if self.menu_check() {
                self.start_menu_edit();
            },
            Command::StartGoTo(e) => if self.menu_check() {
                self.start_menu_go_to_label(entry_label(e));
            },
            Command::StartRemove => if self.menu_check() {
                self.start_menu_remove_selected();
            },
            Command::StartNav(d) => if self.wf_check() {
                self.start_menu_nav(d);
            },
            Command::StartCancel => if self.lists_check() {
                self.start_menu_cancel();
            },
            Command::StartBackspace => if fields_check(&self.mode) {
                self.start_menu_backspace();
            },
            Command::StartCursor(d) => if fields_check(&self.mode) {
                self.start_menu_move_cursor(d);
            },
            Command::StartImportToggleRoot => self.start_menu_import_toggle_root(),
            Command::StartImportNext => if self.mode_check() {
                self.start_menu_import_next();
            },
            Command::StartImportPrev => if self.mode_check() {
                self.start_menu_import_prev();
            },
            Command::StartChar(c) => if fields_check(&self.mode) {
                self.start_menu_input_char(c);
            },
            Command::InputConfirm => {
                let ins = match &self.mode {
                    Mode::Input { action: InputAction::InsertChild { .. }, .. } => true,
                    _ => false,
                };
                if self.mode_check() && self.nodes.len() < usize::MAX {
                    self.confirm_input();
                }
                let ghost m = *self;
                if ins {
                    self.scroll_input_checked(h);
                }
                assert(inserting(old(self).mode) == ins);
                assert(input_confirm_step(*old(self), m));
            },
            Command::InputCancel => if self.mode_check() && self.nodes.len() < usize::MAX {
                self.cancel_input();
            },
            Command::InputBackspace => if fields_check(&self.mode) {
                self.input_backspace();
            },
            Command::InputCursor(d) => if fields_check(&self.mode) {
                self.input_move_cursor(d);
            },
            Command::InputIndent => if self.mode_check() {
                self.input_indent();
                let ghost m = *self;
                self.scroll_input_checked(h);
                assert(App::input_indent_done(*old(self), m) && input_scroll_step(m, *self, h));
            },
            Command::InputDedent => if self.mode_check() {
                self.input_dedent();
                let ghost m = *self;
                self.scroll_input_checked(h);
                assert(App::input_dedent_done(*old(self), m) && input_scroll_step(m, *self, h));
            },
            Command::InputChar(c) => if fields_check(&self.mode) {
                self.input_char(c);
            },
            Command::ReparentCancel => {
                self.relayout_checked();
                let ghost m = *self;
                if self.mode_check() {
                    self.cancel_reparent();
                }
                assert(relayout_step(*old(self), m));
            },
            Command::ReparentConfirm => {
                self.relayout_checked();
                let ghost m = *self;
                if self.mode_check() {
                    self.confirm_reparent();
                }
                assert(relayout_step(*old(self), m));
            },
            Command::ReparentVertical(d) => {
                self.relayout_checked();
                let ghost m = *self;
                if self.mode_check() {
                    self.reparent_nav_vertical(d);
                    let ghost m2 = *self;
                    self.scroll_selected_checked(h);
                    assert(App::reparent_nav_vertical_done(m, m2, d) && selected_scroll_step(m2, *self, h));
                }
                assert(relayout_step(*old(self), m));
            },
            Command::ReparentParent => {
                self.relayout_checked();
                let ghost m = *self;
                if self.mode_check() {
                    self.reparent_nav_parent();
                    let ghost m2 = *self;
                    self.scroll_selected_checked(h);
                    assert(App::reparent_nav_parent_done(m, m2) && selected_scroll_step(m2, *self, h));
                }
                assert(relayout_step(*old(self), m));
            },
            Command::ReparentChild => {
                self.relayout_checked();
                let ghost m = *self;
                if self.mode_check() {
                    self.reparent_nav_child();
                    let ghost m2 = *self;
                    self.scroll_selected_checked(h);
                    assert(App::reparent_nav_child_done(m, m2) && selected_scroll_step(m2, *self, h));
                }
                assert(relayout_step(*old(self), m));
            },
            Command::HelpClose => if self.wf_check() && self.lists_check() {
                self.canvas_close_help();
            },
            Command::Move(dx, dy) => if -1 <= dx && dx <= 1 && -1 <= dy && dy <= 1 && self.coords_check() {
                self.cursor_move(dx, dy, w, h);
            },
            Command::HelpToggle => {
                self.toggle_collapse();
                let ghost m = *self;
                self.relayout_checked();
                assert(App::toggle_collapse_done(*old(self), m) && relayout_step(m, *self));
            },
            Command::ArchiveNav(d) => self.archive_nav(d),
            Command::ArchiveNew => self.archive_new_note(),
            Command::ArchiveDelete => self.archive_delete_note(),
            Command::ArchiveEnter => self.archive_enter_editor(),
            Command::ArchiveTitle => self.archive_edit_title(),
            Command::ArchiveJump => if self.coords_check() {
                self.archive_jump_at(w, h);
            },
            Command::ArchiveLeave => self.archive_leave(),
            Command::ArchiveSaveExit => self.archive_editor_save_and_exit(),
            Command::ArchiveChar(c) => if fields_check(&self.mode) {
                self.archive_editor_char(c);
            },
            Command::ArchiveConfirm => if fields_check(&self.mode) {
                self.archive_editor_confirm();
            },
            Command::ArchiveBackspace => if fields_check(&self.mode) {
                self.archive_editor_backspace();
            },
            Command::ListNav(d) => self.project_list_nav(d),
            Command::ListOpen => self.project_list_open_selected(),
            Command::ListRemove => self.project_list_remove_selected(),
            Command::ListNew => self.project_list_start_new(),
            Command::ListCancel => self.project_list_cancel(),
            Command::ListConfirm => self.project_list_confirm(),
            Command::ListBackspace => if fields_check(&self.mode) {
                self.project_list_backspace();
            },
            Command::ListCursor(d) => if fields_check(&self.mode) {
                self.project_list_move_cursor(d);
            },
            Command::ListChar(c) => if fields_check(&self.mode) {
                self.project_list_input_char(c);
            },
            Command::GotoConfirm => if self.wf_check() && self.coords_check() && mode_valid(&self.mode, &self.nodes) {
                self.canvas_goto_confirm(w, h);
            },
            Command::CancelSub => if self.mode_check() {
                self.canvas_cancel_sub();
            },
            Command::GotoNext => self.canvas_goto_next(),
            Command::GotoBackspace => if self.mode_check() && fields_check(&self.mode) {
                self.canvas_goto_backspace();
            },
            Command::GotoCursor(d) => if fields_check(&self.mode) {
                self.canvas_goto_move_cursor(d);
            },
            Command::GotoChar(c) => if self.mode_check() && fields_check(&self.mode) {
                self.canvas_goto_input_char(c);
            },
            Command::PickConfirm => if self.mode_check() {
                self.canvas_pick_or_place();
            },
            Command::PickBackspace => if fields_check(&self.mode) {
                self.canvas_pick_backspace();
            },
            Command::PickChar(c) => if fields_check(&self.mode) {
                self.canvas_pick_char(c);
            },
            Command::NewConfirm => if self.wf_check() && self.nodes.len() < usize::MAX {
                self.canvas_confirm_new();
                let ghost m = *self;
                let ins = match &self.mode {
                    Mode::Input { action: InputAction::InsertChild { .. }, .. } => true,
                    _ => false,
                };
                if ins {
                    self.scroll_input_checked(h);
                }
                assert(App::canvas_confirm_new_done(*old(self), m) && if inserting(m.mode) {
                    input_scroll_step(m, *self, h)
                } else {
                    *self == m
                });
            },
            Command::NewBackspace => if fields_check(&self.mode) {
                self.canvas_new_backspace();
            },
            Command::NewCursor(d) => if fields_check(&self.mode) {
                self.canvas_new_move_cursor(d);
            },
            Command::NewChar(c) => if fields_check(&self.mode) {
                self.canvas_new_char(c);
            },
            Command::SetStatus(st) => if self.wf_check() {
                self.canvas_set_status(status_name(st));
            },
            Command::MenuIncoming => {
                self.mode = Mode::Canvas { state: CanvasState::MenuIncoming };
            },
            Command::MenuOutgoing => {
                self.mode = Mode::Canvas { state: CanvasState::MenuOutgoing };
            },
            Command::MenuToggleGlobal => {
                self.arrow.global = !self.arrow.global;
                self.save_project();
            },
            Command::MenuClose => {
                self.mode = Mode::Canvas { state: CanvasState::Browse };
            },
            Command::MenuBack => {
                self.mode = Mode::Canvas { state: CanvasState::Menu };
            },
            Command::MenuFidelity(incoming, f) => {
                if incoming {
                    self.arrow.incoming = f;
                } else {
                    self.arrow.outgoing = f;
                }
                self.mode = Mode::Canvas { state: CanvasState::Menu };
                self.save_project();
            },
            Command::QuitToMenu => if self.wf_check() && self.lists_check() {
                self.quit_to_main_menu();
            },
            Command::ConfirmLink => if self.mode_check() {
                self.canvas_confirm_link();
            },
            Command::Warp(dx, dy) => if self.coords_check() {
                self.cursor_warp(dx, dy, w, h);
            },
            Command::Insert => self.enter_insert(),
            Command::NewNode => self.canvas_start_new(),
            Command::Edit => self.enter_edit(),
            Command::Overwrite => self.enter_overwrite(),
            Command::Reparent => if self.wf_check() {
                self.enter_reparent();
            },
            Command::Delete => if self.wf_check() && times_valid(&self.nodes) && size_fits(&self.nodes) && self.origin_check() {
                self.delete_selected();
            },
            Command::PickOrPlace => if self.mode_check() {
                self.canvas_pick_or_place();
            },
            Command::StartLink => self.canvas_start_link(),
            Command::StartStatus => self.canvas_start_status_tagging(),
            Command::StartGoto => if self.mode_check() {
                self.canvas_start_goto();
            },
            Command::Undo => if self.wf_check() {
                self.undo();
            },
            Command::StartHelp => if self.wf_check() {
                self.canvas_start_help();
            },
            Command::OpenArchive => {
                let mut prev = Mode::Help;
                std::mem::swap(&mut prev, &mut self.mode);
                self.mode = Mode::ArchivePage { state: ArchiveState::BrowseList { selected: 0 }, previous: Box::new(prev) };
            },
            Command::OpenMenu => {
                self.mode = Mode::Canvas { state: CanvasState::Menu };
            },
            Command::IndentIncrease => if self.wf_check() {
                self.indent_increase();
                let ghost m = *self;
                self.relayout_checked();
                assert(App::indent_increase_done(*old(self), m) && relayout_step(m, *self));
            },
            Command::IndentDecrease => if self.wf_check() {
                self.indent_decrease();
                let ghost m = *self;
                self.relayout_checked();
                assert(App::indent_decrease_done(*old(self), m) && relayout_step(m, *self));
            },
            Command::CanvasToggle => {
                self.toggle_collapse();
                let ghost m1 = *self;
                self.relayout_checked();
                let ghost m2 = *self;
                self.save_project();
                assert(App::toggle_collapse_done(*old(self), m1) && relayout_step(m1, m2) && saved(m2, *self));
            },
            Command::Center => if self.coords_check() {
                self.center_on_selected(w, h);
            },
            Command::JumpLink(d) => if self.wf_check() && self.coords_check() && self.origin_check() {
                self.canvas_jump_link(d, w, h);
            },
        }
        true
    }

    /// Act on key press `k` on a `canvas_w` by `canvas_h` canvas: run the
    /// command the keyboard map gives for it; `false` when the application
    /// should end.
    pub fn handle_key(&mut self, k: KeyPress, canvas_w: u16, canvas_h: u16) -> (go_on: bool)
        ensures
            key_step(*old(self), k, canvas_w, canvas_h, *final(self), go_on),
    {
        let selection = self.has_selection();
        let cmd = key_command(&self.mode, selection, k);
        self.run_command(cmd, canvas_w, canvas_h)
    }
}

} // verus!
