//! The title in the top border of the screen and the colour of that border:
//! both follow the mode.

use vstd::prelude::*;
use crate::mode::{ArchiveState, CanvasState, InputAction, Mode, ProjectListState, StartMenuState};
use crate::text::{replace_all, replaced};

verus! {

/// The colours of a palette, by what they are used for.
#[derive(Clone, Copy, PartialEq, Eq, Structural, Debug)]
pub enum Role {
    Insert,
    Edit,
    Reparent,
    Canvas,
    Pick,
    Link,
    LinkArrow,
    ArrowDim,
    Node,
    Selected,
    Prefix,
    Dim,
    StatusTodo,
    StatusProgress,
    StatusDone,
    StatusBlocked,
}

/// The colour of the outer frame in `mode`.
pub open spec fn mode_role_of(mode: Mode) -> Role {
    match mode {
        Mode::StartMenu { .. } => Role::Canvas,
        Mode::Input { action, .. } => match action {
            InputAction::InsertChild { .. } => Role::Insert,
            _ => Role::Edit,
        },
        Mode::Reparent { .. } => Role::Reparent,
        Mode::Canvas { state } => match state {
            CanvasState::Pick { .. } => Role::Pick,
            CanvasState::Link { .. } => Role::Link,
            CanvasState::TagStatus => Role::Edit,
            _ => Role::Canvas,
        },
        Mode::ProjectList { .. } => Role::Canvas,
        Mode::ArchivePage { .. } => Role::Canvas,
        Mode::Help => Role::Pick,
    }
}

/// The colour of the outer frame in `mode`.
pub fn mode_color(mode: &Mode) -> (r: Role)
    ensures
        r == mode_role_of(*mode),
{
    match mode {
        Mode::StartMenu { .. } => Role::Canvas,
        Mode::Input { action: InputAction::InsertChild { .. }, .. } => Role::Insert,
        Mode::Input { .. } => Role::Edit,
        Mode::Reparent { .. } => Role::Reparent,
        Mode::Canvas { state: CanvasState::Pick { .. } } => Role::Pick,
        Mode::Canvas { state: CanvasState::Link { .. } } => Role::Link,
        Mode::Canvas { state: CanvasState::TagStatus } => Role::Edit,
        Mode::Canvas { .. } => Role::Canvas,
        Mode::ProjectList { .. } => Role::Canvas,
        Mode::ArchivePage { .. } => Role::Canvas,
        Mode::Help => Role::Pick,
    }
}

/// The title of the outer frame: one of the fixed headers, or a modal
/// title (a coloured mode name and a hint line).
pub enum Title {
    /// "filament │ Welcome".
    StartMenu,
    /// "filament" and the canvas commands.
    Canvas,
    /// "filament │ Archive" and the archive commands.
    Archive,
    Modal { name: String, role: Role, hints: String },
}

/// A title as plain values: which header, or the modal name, colour and
/// hints.
pub enum TitleView {
    StartMenu,
    Canvas,
    Archive,
    Modal { name: Seq<char>, role: Role, hints: Seq<char> },
}

pub open spec fn title_view(t: Title) -> TitleView {
    match t {
        Title::StartMenu => TitleView::StartMenu,
        Title::Canvas => TitleView::Canvas,
        Title::Archive => TitleView::Archive,
        Title::Modal { name, role, hints } => TitleView::Modal { name: name@, role, hints: hints@ },
    }
}

/// A modal title as plain values.
pub open spec fn modal(name: Seq<char>, role: Role, hints: Seq<char>) -> TitleView {
    TitleView::Modal { name, role, hints }
}

/// The title for `mode`.
pub open spec fn title_of(mode: Mode) -> TitleView {
    match mode {
        Mode::StartMenu { state } => match state {
            StartMenuState::Main { .. } => TitleView::StartMenu,
            StartMenuState::NewPath { .. } => modal(
                "NEW PROJECT"@,
                Role::Insert,
                "enter directory path  Enter:confirm  Esc:cancel"@,
            ),
            StartMenuState::NewName { .. } => modal(
                "NEW PROJECT"@,
                Role::Insert,
                "enter project name  Enter:confirm  Esc:cancel"@,
            ),
            StartMenuState::EditSetting { key, .. } => modal(
                "SETTINGS"@,
                Role::Edit,
                "edit "@ + replaced(key@, "_"@, " "@) + "  Enter:confirm  Esc:cancel"@,
            ),
            StartMenuState::Import { .. } => modal(
                "IMPORT"@,
                Role::Insert,
                "type to fuzzy search  ↑↓:nav  Tab:change location  Enter:import  Esc:cancel"@,
            ),
        },
        Mode::ProjectList { state } => match state {
            ProjectListState::Browse { .. } => modal("PROJECTS"@, Role::Canvas, "Enter:open  n:new  d:remove  Esc:back"@),
            ProjectListState::NewPath { .. } => modal(
                "NEW PROJECT"@,
                Role::Insert,
                "enter directory path  Enter:confirm  Esc:cancel"@,
            ),
            ProjectListState::NewName { .. } => modal(
                "NEW PROJECT"@,
                Role::Insert,
                "enter project name  Enter:confirm  Esc:cancel"@,
            ),
        },
        Mode::ArchivePage { state, .. } => match state {
            ArchiveState::EditTitle { .. } => modal("EDIT TITLE"@, Role::Edit, "enter title  Enter:save  Esc:cancel"@),
            ArchiveState::EditContent { .. } => modal(
                "EDIT CONTENT"@,
                Role::Edit,
                "enter content  Enter:newline  Esc:done"@,
            ),
            ArchiveState::BrowseList { .. } => TitleView::Archive,
        },
        Mode::Input { action, .. } => match action {
            InputAction::InsertChild { .. } => modal(
                "INSERT"@,
                Role::Insert,
                "Enter:add  Tab:indent  ⇧Tab:dedent  ←→:cursor  Esc:done"@,
            ),
            _ => modal("EDIT"@, Role::Edit, "←→:cursor  Enter:confirm  Esc:cancel"@),
        },
        Mode::Reparent { .. } => modal("REPARENT"@, Role::Reparent, "hjkl:navigate  v/↵:confirm  Esc:cancel"@),
        Mode::Canvas { state } => match state {
            CanvasState::Browse => TitleView::Canvas,
            CanvasState::New { .. } => modal("NEW NODE"@, Role::Insert, "type name  Enter:confirm  Esc:cancel"@),
            CanvasState::Pick { .. } => modal("PICK"@, Role::Pick, "hjkl:move  p:place  Esc:cancel"@),
            CanvasState::Link { .. } => modal("LINK"@, Role::Link, "hjkl:navigate  Enter:toggle link  Esc:cancel"@),
            CanvasState::Goto { .. } => modal(
                "GOTO"@,
                Role::Edit,
                "type to search  Tab:next match  Enter:jump  Esc:cancel"@,
            ),
            CanvasState::Menu => modal("ARROWS"@, Role::Canvas, "i:incoming  o:outgoing  g:global  F/Esc:close"@),
            CanvasState::MenuIncoming => modal("ARROWS › INCOMING"@, Role::Canvas, "T:tree  S:selected  Esc:back"@),
            CanvasState::MenuOutgoing => modal("ARROWS › OUTGOING"@, Role::Canvas, "T:tree  S:selected  Esc:back"@),
            CanvasState::TagStatus => modal(
                "STATUS"@,
                Role::Edit,
                "t:todo  p:in progress  c:done  b:blocked  x:clear  Esc:cancel"@,
            ),
        },
        Mode::Help => modal("HELP"@, Role::Pick, "hjkl:navigate  Esc:close"@),
    }
}

/// A modal title.
fn modal_title(name: &str, role: Role, hints: &str) -> (r: Title)
    ensures
        title_view(r) == modal(name@, role, hints@),
{
    Title::Modal { name: name.to_string(), role, hints: hints.to_string() }
}

/// The title for `mode`.
pub fn build_title(mode: &Mode) -> (r: Title)
    ensures
        title_view(r) == title_of(*mode),
{
    match mode {
        Mode::StartMenu { state } => match state {
            StartMenuState::Main { .. } => Title::StartMenu,
            StartMenuState::NewPath { .. } => modal_title(
                "NEW PROJECT",
                Role::Insert,
                "enter directory path  Enter:confirm  Esc:cancel",
            ),
            StartMenuState::NewName { .. } => modal_title(
                "NEW PROJECT",
                Role::Insert,
                "enter project name  Enter:confirm  Esc:cancel",
            ),
            StartMenuState::EditSetting { key, .. } => {
                proof {
                    reveal_strlit("_");
                }
                let mut hints = String::from_str("edit ");
                let k = replace_all(key.as_str(), "_", " ");
                hints.append(k.as_str());
                hints.append("  Enter:confirm  Esc:cancel");
                Title::Modal { name: String::from_str("SETTINGS"), role: Role::Edit, hints }
            },
            StartMenuState::Import { .. } => modal_title(
                "IMPORT",
                Role::Insert,
                "type to fuzzy search  ↑↓:nav  Tab:change location  Enter:import  Esc:cancel",
            ),
        },
        Mode::ProjectList { state } => match state {
            ProjectListState::Browse { .. } => modal_title("PROJECTS", Role::Canvas, "Enter:open  n:new  d:remove  Esc:back"),
            ProjectListState::NewPath { .. } => modal_title(
                "NEW PROJECT",
                Role::Insert,
                "enter directory path  Enter:confirm  Esc:cancel",
            ),
            ProjectListState::NewName { .. } => modal_title(
                "NEW PROJECT",
                Role::Insert,
                "enter project name  Enter:confirm  Esc:cancel",
            ),
        },
        Mode::ArchivePage { state, .. } => match state {
            ArchiveState::EditTitle { .. } => modal_title("EDIT TITLE", Role::Edit, "enter title  Enter:save  Esc:cancel"),
            ArchiveState::EditContent { .. } => modal_title(
                "EDIT CONTENT",
                Role::Edit,
                "enter content  Enter:newline  Esc:done",
            ),
            ArchiveState::BrowseList { .. } => Title::Archive,
        },
        Mode::Input { action, .. } => match action {
            InputAction::InsertChild { .. } => modal_title(
                "INSERT",
                Role::Insert,
                "Enter:add  Tab:indent  ⇧Tab:dedent  ←→:cursor  Esc:done",
            ),
            _ => modal_title("EDIT", Role::Edit, "←→:cursor  Enter:confirm  Esc:cancel"),
        },
        Mode::Reparent { .. } => modal_title("REPARENT", Role::Reparent, "hjkl:navigate  v/↵:confirm  Esc:cancel"),
        Mode::Canvas { state } => match state {
            CanvasState::Browse => Title::Canvas,
            CanvasState::New { .. } => modal_title("NEW NODE", Role::Insert, "type name  Enter:confirm  Esc:cancel"),
            CanvasState::Pick { .. } => modal_title("PICK", Role::Pick, "hjkl:move  p:place  Esc:cancel"),
            CanvasState::Link { .. } => modal_title("LINK", Role::Link, "hjkl:navigate  Enter:toggle link  Esc:cancel"),
            CanvasState::Goto { .. } => modal_title(
                "GOTO",
                Role::Edit,
                "type to search  Tab:next match  Enter:jump  Esc:cancel",
            ),
            CanvasState::Menu => modal_title("ARROWS", Role::Canvas, "i:incoming  o:outgoing  g:global  F/Esc:close"),
            CanvasState::MenuIncoming => modal_title("ARROWS › INCOMING", Role::Canvas, "T:tree  S:selected  Esc:back"),
            CanvasState::MenuOutgoing => modal_title("ARROWS › OUTGOING", Role::Canvas, "T:tree  S:selected  Esc:back"),
            CanvasState::TagStatus => modal_title(
                "STATUS",
                Role::Edit,
                "t:todo  p:in progress  c:done  b:blocked  x:clear  Esc:cancel",
            ),
        },
        Mode::Help => modal_title("HELP", Role::Pick, "hjkl:navigate  Esc:close"),
    }
}

} // verus!
