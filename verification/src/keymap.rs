//! What each key does: the keyboard map of every mode, from a key press to
//! the command it stands for.

use vstd::prelude::*;
use crate::mode::{ArchiveState, ArrowFidelity, CanvasState, Mode, ProjectListState, StartMenuState};

verus! {

/// A key of the keyboard.
#[derive(Clone, Copy, PartialEq, Eq, Structural)]
pub enum Key {
    Char(char),
    Enter,
    Esc,
    Backspace,
    Tab,
    BackTab,
    Left,
    Right,
    Up,
    Down,
}

/// A key press: the key, whether shift was held, and whether any other
/// modifier (control, alt, ...) was.
#[derive(Clone, Copy, PartialEq, Eq, Structural)]
pub struct KeyPress {
    pub key: Key,
    pub shift: bool,
    pub ctrl: bool,
}

/// The start menu entries that a letter jumps to.
#[derive(Clone, Copy, PartialEq, Eq, Structural)]
pub enum MenuEntry {
    New,
    Open,
    Find,
    Settings,
    Help,
}

/// The status a node can be tagged with from the status sub-mode.
#[derive(Clone, Copy, PartialEq, Eq, Structural)]
pub enum StatusChoice {
    Todo,
    InProgress,
    Completed,
    Blocked,
    Clear,
}

/// What a key press asks the application to do.
#[derive(Clone, Copy, PartialEq, Eq, Structural)]
pub enum Command {
    Nothing,
    /// End the application.
    Quit,
    /// Save the project, then end the application.
    SaveAndQuit,
    StartConfirm,
    StartEdit,
    StartGoTo(MenuEntry),
    StartRemove,
    StartNav(i32),
    StartCancel,
    StartBackspace,
    StartCursor(i32),
    StartImportToggleRoot,
    StartImportNext,
    StartImportPrev,
    StartChar(char),
    InputConfirm,
    InputCancel,
    InputBackspace,
    InputCursor(i32),
    InputIndent,
    InputDedent,
    InputChar(char),
    ReparentCancel,
    ReparentConfirm,
    ReparentVertical(i32),
    ReparentParent,
    ReparentChild,
    HelpClose,
    /// Move the world cursor by a step.
    Move(i32, i32),
    /// Fold or unfold the selected node and lay the canvas out again.
    HelpToggle,
    ArchiveNav(i32),
    ArchiveNew,
    ArchiveDelete,
    ArchiveEnter,
    ArchiveTitle,
    ArchiveJump,
    ArchiveLeave,
    ArchiveSaveExit,
    ArchiveChar(char),
    ArchiveConfirm,
    ArchiveBackspace,
    ListNav(i32),
    ListOpen,
    ListRemove,
    ListNew,
    ListCancel,
    ListConfirm,
    ListBackspace,
    ListCursor(i32),
    ListChar(char),
    GotoConfirm,
    CancelSub,
    GotoNext,
    GotoBackspace,
    GotoCursor(i32),
    GotoChar(char),
    PickConfirm,
    PickBackspace,
    PickChar(char),
    NewConfirm,
    NewBackspace,
    NewCursor(i32),
    NewChar(char),
    SetStatus(StatusChoice),
    MenuIncoming,
    MenuOutgoing,
    MenuToggleGlobal,
    MenuClose,
    MenuBack,
    /// Set the fidelity of incoming (`true`) or outgoing arrows.
    MenuFidelity(bool, ArrowFidelity),
    QuitToMenu,
    ConfirmLink,
    Warp(i32, i32),
    Insert,
    NewNode,
    Edit,
    Overwrite,
    Reparent,
    Delete,
    PickOrPlace,
    StartLink,
    StartStatus,
    StartGoto,
    Undo,
    StartHelp,
    OpenArchive,
    OpenMenu,
    IndentIncrease,
    IndentDecrease,
    /// Fold or unfold the selected node, lay the canvas out again and save.
    CanvasToggle,
    Center,
    JumpLink(i32),
}

/// The press is `c` with no modifier.
pub open spec fn plain(k: KeyPress, c: char) -> bool {
    k.key == Key::Char(c) && !k.shift && !k.ctrl
}

/// The press is `c` with shift and nothing else.
pub open spec fn shifted(k: KeyPress, c: char) -> bool {
    k.key == Key::Char(c) && k.shift && !k.ctrl
}

/// The press is the movement key `c` with no modifier, or the arrow key `a`
/// with any.
pub open spec fn moves(k: KeyPress, c: char, a: Key) -> bool {
    plain(k, c) || k.key == a
}

/// The start menu's list of entries.
pub open spec fn start_main_command(k: KeyPress) -> Command {
    if k.key == Key::Char('q') || shifted(k, 'Q') {
        Command::Quit
    } else if k.key == Key::Enter || plain(k, 'l') {
        Command::StartConfirm
    } else if plain(k, 'e') || shifted(k, 'E') {
        Command::StartEdit
    } else if plain(k, 'n') {
        Command::StartGoTo(MenuEntry::New)
    } else if plain(k, 'o') {
        Command::StartGoTo(MenuEntry::Open)
    } else if plain(k, 'f') {
        Command::StartGoTo(MenuEntry::Find)
    } else if plain(k, 's') {
        Command::StartGoTo(MenuEntry::Settings)
    } else if plain(k, '?') {
        Command::StartGoTo(MenuEntry::Help)
    } else if plain(k, 'd') {
        Command::StartRemove
    } else if moves(k, 'j', Key::Down) {
        Command::StartNav(1i32)
    } else if moves(k, 'k', Key::Up) {
        Command::StartNav(-1i32)
    } else if moves(k, 'h', Key::Esc) {
        Command::StartCancel
    } else {
        Command::Nothing
    }
}

/// The start menu's text prompts (`import` for the import prompt).
pub open spec fn start_prompt_command(k: KeyPress, import: bool) -> Command {
    match k.key {
        Key::Enter => Command::StartConfirm,
        Key::Esc => Command::StartCancel,
        Key::Backspace => Command::StartBackspace,
        Key::Left => Command::StartCursor(-1i32),
        Key::Right => Command::StartCursor(1i32),
        Key::Tab => if import { Command::StartImportToggleRoot } else { Command::Nothing },
        Key::Down => if import { Command::StartImportNext } else { Command::Nothing },
        Key::Up => if import { Command::StartImportPrev } else { Command::Nothing },
        Key::Char(c) => Command::StartChar(c),
        _ => Command::Nothing,
    }
}

/// The label editor.
pub open spec fn input_command(k: KeyPress) -> Command {
    match k.key {
        Key::Enter => Command::InputConfirm,
        Key::Esc => Command::InputCancel,
        Key::Backspace => Command::InputBackspace,
        Key::Left => Command::InputCursor(-1i32),
        Key::Right => Command::InputCursor(1i32),
        Key::Tab => Command::InputIndent,
        Key::BackTab => Command::InputDedent,
        Key::Char(c) => Command::InputChar(c),
        _ => Command::Nothing,
    }
}

/// Moving a node to a new parent.
pub open spec fn reparent_command(k: KeyPress) -> Command {
    if k.key == Key::Esc {
        Command::ReparentCancel
    } else if plain(k, 'v') || k.key == Key::Enter {
        Command::ReparentConfirm
    } else if moves(k, 'j', Key::Down) {
        Command::ReparentVertical(1i32)
    } else if moves(k, 'k', Key::Up) {
        Command::ReparentVertical(-1i32)
    } else if moves(k, 'h', Key::Left) {
        Command::ReparentParent
    } else if moves(k, 'l', Key::Right) {
        Command::ReparentChild
    } else {
        Command::Nothing
    }
}

/// The help page.
pub open spec fn help_command(k: KeyPress) -> Command {
    if k.key == Key::Esc || plain(k, '?') {
        Command::HelpClose
    } else if moves(k, 'j', Key::Down) {
        Command::Move(0i32, 1i32)
    } else if moves(k, 'k', Key::Up) {
        Command::Move(0i32, -1i32)
    } else if moves(k, 'h', Key::Left) {
        Command::Move(-1i32, 0i32)
    } else if moves(k, 'l', Key::Right) {
        Command::Move(1i32, 0i32)
    } else if (k.key == Key::Enter && !k.shift && !k.ctrl) || plain(k, 'z') || k.key == Key::Char(' ') {
        Command::HelpToggle
    } else {
        Command::Nothing
    }
}

/// The archive's list of notes.
pub open spec fn archive_list_command(k: KeyPress) -> Command {
    match k.key {
        Key::Char('j') | Key::Down => Command::ArchiveNav(1i32),
        Key::Char('k') | Key::Up => Command::ArchiveNav(-1i32),
        Key::Char('n') => Command::ArchiveNew,
        Key::Char('d') => Command::ArchiveDelete,
        Key::Char('e') | Key::Enter => Command::ArchiveEnter,
        Key::Char('t') => Command::ArchiveTitle,
        Key::Char('@') => Command::ArchiveJump,
        Key::Esc => Command::ArchiveLeave,
        _ => Command::Nothing,
    }
}

/// The archive's note editors (`content` for the note's text).
pub open spec fn archive_editor_command(k: KeyPress, content: bool) -> Command {
    match k.key {
        Key::Esc => Command::ArchiveSaveExit,
        Key::Enter => if content { Command::ArchiveChar('\n') } else { Command::ArchiveConfirm },
        Key::Backspace => Command::ArchiveBackspace,
        Key::Char(c) => Command::ArchiveChar(c),
        _ => Command::Nothing,
    }
}

/// The list of projects.
pub open spec fn list_browse_command(k: KeyPress) -> Command {
    match k.key {
        Key::Char('j') | Key::Down => Command::ListNav(1i32),
        Key::Char('k') | Key::Up => Command::ListNav(-1i32),
        Key::Enter => Command::ListOpen,
        Key::Char('d') => Command::ListRemove,
        Key::Char('n') => Command::ListNew,
        Key::Esc => Command::ListCancel,
        _ => Command::Nothing,
    }
}

/// The project list's text prompts.
pub open spec fn list_prompt_command(k: KeyPress) -> Command {
    match k.key {
        Key::Enter => Command::ListConfirm,
        Key::Esc => Command::ListCancel,
        Key::Backspace => Command::ListBackspace,
        Key::Left => Command::ListCursor(-1i32),
        Key::Right => Command::ListCursor(1i32),
        Key::Char(c) => Command::ListChar(c),
        _ => Command::Nothing,
    }
}

/// The "go to" prompt of the canvas.
pub open spec fn goto_command(k: KeyPress) -> Command {
    match k.key {
        Key::Enter => Command::GotoConfirm,
        Key::Esc => Command::CancelSub,
        Key::Tab => Command::GotoNext,
        Key::Backspace => Command::GotoBackspace,
        Key::Left => Command::GotoCursor(-1i32),
        Key::Right => Command::GotoCursor(1i32),
        Key::Char(c) => Command::GotoChar(c),
        _ => Command::Nothing,
    }
}

/// A character that the coordinate prompt takes.
pub open spec fn pick_char(c: char) -> bool {
    ('0' <= c && c <= '9') || c == ',' || c == '-'
}

/// The coordinate prompt of the canvas.
pub open spec fn pick_command(k: KeyPress) -> Command {
    if k.key == Key::Enter {
        Command::PickConfirm
    } else if k.key == Key::Esc {
        Command::CancelSub
    } else if k.key == Key::Backspace {
        Command::PickBackspace
    } else if !k.shift && !k.ctrl && k.key is Char && pick_char(k.key->Char_0) {
        Command::PickChar(k.key->Char_0)
    } else if moves(k, 'h', Key::Left) {
        Command::Move(-1i32, 0i32)
    } else if moves(k, 'l', Key::Right) {
        Command::Move(1i32, 0i32)
    } else if moves(k, 'k', Key::Up) {
        Command::Move(0i32, -1i32)
    } else if moves(k, 'j', Key::Down) {
        Command::Move(0i32, 1i32)
    } else {
        Command::Nothing
    }
}

/// The prompt for a new root node's label.
pub open spec fn new_command(k: KeyPress) -> Command {
    match k.key {
        Key::Enter => Command::NewConfirm,
        Key::Esc => Command::CancelSub,
        Key::Backspace => Command::NewBackspace,
        Key::Left => Command::NewCursor(-1i32),
        Key::Right => Command::NewCursor(1i32),
        Key::Char(c) => Command::NewChar(c),
        _ => Command::Nothing,
    }
}

/// Tagging the selected node with a status.
pub open spec fn status_command(k: KeyPress) -> Command {
    match k.key {
        Key::Char('t') => Command::SetStatus(StatusChoice::Todo),
        Key::Char('p') => Command::SetStatus(StatusChoice::InProgress),
        Key::Char('c') => Command::SetStatus(StatusChoice::Completed),
        Key::Char('b') => Command::SetStatus(StatusChoice::Blocked),
        Key::Char('x') => Command::SetStatus(StatusChoice::Clear),
        Key::Esc => Command::CancelSub,
        _ => Command::Nothing,
    }
}

/// The arrow settings menu.
pub open spec fn menu_command(k: KeyPress) -> Command {
    match k.key {
        Key::Char('i') => Command::MenuIncoming,
        Key::Char('o') => Command::MenuOutgoing,
        Key::Char('g') => Command::MenuToggleGlobal,
        Key::Char('F') | Key::Esc => Command::MenuClose,
        _ => Command::Nothing,
    }
}

/// Choosing the fidelity of incoming (`incoming`) or outgoing arrows.
pub open spec fn fidelity_command(k: KeyPress, incoming: bool) -> Command {
    match k.key {
        Key::Char('T') | Key::Char('t') => Command::MenuFidelity(incoming, ArrowFidelity::Tree),
        Key::Char('S') | Key::Char('s') => Command::MenuFidelity(incoming, ArrowFidelity::Selected),
        Key::Esc => Command::MenuBack,
        _ => Command::Nothing,
    }
}

/// The canvas itself, browsing or linking (`browsing` when browsing;
/// `selection` when a node is selected under the cursor).
pub open spec fn canvas_command(k: KeyPress, browsing: bool, selection: bool) -> Command {
    if plain(k, 'q') {
        Command::QuitToMenu
    } else if shifted(k, 'Q') {
        Command::SaveAndQuit
    } else if k.key == Key::Enter {
        Command::ConfirmLink
    } else if k.key == Key::Esc {
        if browsing { Command::QuitToMenu } else { Command::CancelSub }
    } else if moves(k, 'h', Key::Left) {
        Command::Move(-1i32, 0i32)
    } else if moves(k, 'l', Key::Right) {
        Command::Move(1i32, 0i32)
    } else if moves(k, 'k', Key::Up) {
        Command::Move(0i32, -1i32)
    } else if moves(k, 'j', Key::Down) {
        Command::Move(0i32, 1i32)
    } else if shifted(k, 'H') {
        Command::Warp(-1i32, 0i32)
    } else if shifted(k, 'L') {
        Command::Warp(1i32, 0i32)
    } else if shifted(k, 'K') {
        Command::Warp(0i32, -1i32)
    } else if shifted(k, 'J') {
        Command::Warp(0i32, 1i32)
    } else if plain(k, 'i') {
        if selection { Command::Insert } else { Command::NewNode }
    } else if plain(k, 'e') {
        Command::Edit
    } else if shifted(k, 'E') {
        Command::Overwrite
    } else if plain(k, 'v') {
        Command::Reparent
    } else if plain(k, 'x') {
        Command::Delete
    } else if plain(k, 'p') {
        Command::PickOrPlace
    } else if plain(k, 'f') {
        Command::StartLink
    } else if plain(k, 't') {
        Command::StartStatus
    } else if plain(k, 'g') {
        Command::StartGoto
    } else if plain(k, 'u') {
        Command::Undo
    } else if plain(k, '?') {
        Command::StartHelp
    } else if plain(k, 'a') {
        Command::OpenArchive
    } else if shifted(k, 'F') {
        Command::OpenMenu
    } else if plain(k, 'd') {
        Command::IndentIncrease
    } else if shifted(k, 'D') {
        Command::IndentDecrease
    } else if plain(k, 'z') || k.key == Key::Char(' ') {
        Command::CanvasToggle
    } else if k.key == Key::Char('c') {
        Command::Center
    } else if k.key == Key::Tab && !k.shift && !k.ctrl {
        Command::JumpLink(1i32)
    } else if k.key == Key::BackTab && k.shift && !k.ctrl {
        Command::JumpLink(-1i32)
    } else {
        Command::Nothing
    }
}

/// The command that key press `k` stands for in mode `mode`, `selection`
/// telling whether a node is selected under the canvas cursor.
pub open spec fn command_of(mode: Mode, selection: bool, k: KeyPress) -> Command {
    match mode {
        Mode::StartMenu { state: StartMenuState::Main { .. } } => start_main_command(k),
        Mode::StartMenu { state } => start_prompt_command(k, state is Import),
        Mode::Input { .. } => input_command(k),
        Mode::Reparent { .. } => reparent_command(k),
        Mode::Help => help_command(k),
        Mode::ArchivePage { state: ArchiveState::BrowseList { .. }, .. } => archive_list_command(k),
        Mode::ArchivePage { state, .. } => archive_editor_command(k, state is EditContent),
        Mode::ProjectList { state: ProjectListState::Browse { .. } } => list_browse_command(k),
        Mode::ProjectList { .. } => list_prompt_command(k),
        Mode::Canvas { state: CanvasState::Goto { .. } } => goto_command(k),
        Mode::Canvas { state: CanvasState::Pick { .. } } => pick_command(k),
        Mode::Canvas { state: CanvasState::New { .. } } => new_command(k),
        Mode::Canvas { state: CanvasState::TagStatus } => status_command(k),
        Mode::Canvas { state: CanvasState::Menu } => menu_command(k),
        Mode::Canvas { state: CanvasState::MenuIncoming } => fidelity_command(k, true),
        Mode::Canvas { state: CanvasState::MenuOutgoing } => fidelity_command(k, false),
        Mode::Canvas { state } => canvas_command(k, state is Browse, selection),
    }
}

fn is_plain(k: KeyPress, c: char) -> (r: bool)
    ensures
        r == plain(k, c),
{
    k.key == Key::Char(c) && !k.shift && !k.ctrl
}

fn is_shifted(k: KeyPress, c: char) -> (r: bool)
    ensures
        r == shifted(k, c),
{
    k.key == Key::Char(c) && k.shift && !k.ctrl
}

fn is_move(k: KeyPress, c: char, a: Key) -> (r: bool)
    ensures
        r == moves(k, c, a),
{
    is_plain(k, c) || k.key == a
}

fn start_main_key(k: KeyPress) -> (r: Command)
    ensures
        r == start_main_command(k),
{
    if k.key == Key::Char('q') || is_shifted(k, 'Q') {
        Command::Quit
    } else if k.key == Key::Enter || is_plain(k, 'l') {
        Command::StartConfirm
    } else if is_plain(k, 'e') || is_shifted(k, 'E') {
        Command::StartEdit
    } else if is_plain(k, 'n') {
        Command::StartGoTo(MenuEntry::New)
    } else if is_plain(k, 'o') {
        Command::StartGoTo(MenuEntry::Open)
    } else if is_plain(k, 'f') {
        Command::StartGoTo(MenuEntry::Find)
    } else if is_plain(k, 's') {
        Command::StartGoTo(MenuEntry::Settings)
    } else if is_plain(k, '?') {
        Command::StartGoTo(MenuEntry::Help)
    } else if is_plain(k, 'd') {
        Command::StartRemove
    } else if is_move(k, 'j', Key::Down) {
        Command::StartNav(1i32)
    } else if is_move(k, 'k', Key::Up) {
        Command::StartNav(-1i32)
    } else if is_move(k, 'h', Key::Esc) {
        Command::StartCancel
    } else {
        Command::Nothing
    }
}

fn start_prompt_key(k: KeyPress, import: bool) -> (r: Command)
    ensures
        r == start_prompt_command(k, import),
{
    match k.key {
        Key::Enter => Command::StartConfirm,
        Key::Esc => Command::StartCancel,
        Key::Backspace => Command::StartBackspace,
        Key::Left => Command::StartCursor(-1i32),
        Key::Right => Command::StartCursor(1i32),
        Key::Tab => if import { Command::StartImportToggleRoot } else { Command::Nothing },
        Key::Down => if import { Command::StartImportNext } else { Command::Nothing },
        Key::Up => if import { Command::StartImportPrev } else { Command::Nothing },
        Key::Char(c) => Command::StartChar(c),
        _ => Command::Nothing,
    }
}

fn input_key(k: KeyPress) -> (r: Command)
    ensures
        r == input_command(k),
{
    match k.key {
        Key::Enter => Command::InputConfirm,
        Key::Esc => Command::InputCancel,
        Key::Backspace => Command::InputBackspace,
        Key::Left => Command::InputCursor(-1i32),
        Key::Right => Command::InputCursor(1i32),
        Key::Tab => Command::InputIndent,
        Key::BackTab => Command::InputDedent,
        Key::Char(c) => Command::InputChar(c),
        _ => Command::Nothing,
    }
}

fn reparent_key(k: KeyPress) -> (r: Command)
    ensures
        r == reparent_command(k),
{
    if k.key == Key::Esc {
        Command::ReparentCancel
    } else if is_plain(k, 'v') || k.key == Key::Enter {
        Command::ReparentConfirm
    } else if is_move(k, 'j', Key::Down) {
        Command::ReparentVertical(1i32)
    } else if is_move(k, 'k', Key::Up) {
        Command::ReparentVertical(-1i32)
    } else if is_move(k, 'h', Key::Left) {
        Command::ReparentParent
    } else if is_move(k, 'l', Key::Right) {
        Command::ReparentChild
    } else {
        Command::Nothing
    }
}

fn help_key(k: KeyPress) -> (r: Command)
    ensures
        r == help_command(k),
{
    if k.key == Key::Esc || is_plain(k, '?') {
        Command::HelpClose
    } else if is_move(k, 'j', Key::Down) {
        Command::Move(0i32, 1i32)
    } else if is_move(k, 'k', Key::Up) {
        Command::Move(0i32, -1i32)
    } else if is_move(k, 'h', Key::Left) {
        Command::Move(-1i32, 0i32)
    } else if is_move(k, 'l', Key::Right) {
        Command::Move(1i32, 0i32)
    } else if (k.key == Key::Enter && !k.shift && !k.ctrl) || is_plain(k, 'z') || k.key == Key::Char(' ') {
        Command::HelpToggle
    } else {
        Command::Nothing
    }
}

fn archive_list_key(k: KeyPress) -> (r: Command)
    ensures
        r == archive_list_command(k),
{
    match k.key {
        Key::Char('j') | Key::Down => Command::ArchiveNav(1i32),
        Key::Char('k') | Key::Up => Command::ArchiveNav(-1i32),
        Key::Char('n') => Command::ArchiveNew,
        Key::Char('d') => Command::ArchiveDelete,
        Key::Char('e') | Key::Enter => Command::ArchiveEnter,
        Key::Char('t') => Command::ArchiveTitle,
        Key::Char('@') => Command::ArchiveJump,
        Key::Esc => Command::ArchiveLeave,
        _ => Command::Nothing,
    }
}

fn archive_editor_key(k: KeyPress, content: bool) -> (r: Command)
    ensures
        r == archive_editor_command(k, content),
{
    match k.key {
        Key::Esc => Command::ArchiveSaveExit,
        Key::Enter => if content { Command::ArchiveChar('\n') } else { Command::ArchiveConfirm },
        Key::Backspace => Command::ArchiveBackspace,
        Key::Char(c) => Command::ArchiveChar(c),
        _ => Command::Nothing,
    }
}

fn list_browse_key(k: KeyPress) -> (r: Command)
    ensures
        r == list_browse_command(k),
{
    match k.key {
        Key::Char('j') | Key::Down => Command::ListNav(1i32),
        Key::Char('k') | Key::Up => Command::ListNav(-1i32),
        Key::Enter => Command::ListOpen,
        Key::Char('d') => Command::ListRemove,
        Key::Char('n') => Command::ListNew,
        Key::Esc => Command::ListCancel,
        _ => Command::Nothing,
    }
}

fn list_prompt_key(k: KeyPress) -> (r: Command)
    ensures
        r == list_prompt_command(k),
{
    match k.key {
        Key::Enter => Command::ListConfirm,
        Key::Esc => Command::ListCancel,
        Key::Backspace => Command::ListBackspace,
        Key::Left => Command::ListCursor(-1i32),
        Key::Right => Command::ListCursor(1i32),
        Key::Char(c) => Command::ListChar(c),
        _ => Command::Nothing,
    }
}

fn goto_key(k: KeyPress) -> (r: Command)
    ensures
        r == goto_command(k),
{
    match k.key {
        Key::Enter => Command::GotoConfirm,
        Key::Esc => Command::CancelSub,
        Key::Tab => Command::GotoNext,
        Key::Backspace => Command::GotoBackspace,
        Key::Left => Command::GotoCursor(-1i32),
        Key::Right => Command::GotoCursor(1i32),
        Key::Char(c) => Command::GotoChar(c),
        _ => Command::Nothing,
    }
}

fn pick_key(k: KeyPress) -> (r: Command)
    ensures
        r == pick_command(k),
{
    if k.key == Key::Enter {
        Command::PickConfirm
    } else if k.key == Key::Esc {
        Command::CancelSub
    } else if k.key == Key::Backspace {
        Command::PickBackspace
    } else {
        if !k.shift && !k.ctrl {
            match k.key {
                Key::Char(c) => {
                    if ('0' <= c && c <= '9') || c == ',' || c == '-' {
                        return Command::PickChar(c);
                    }
                },
                _ => {},
            }
        }
        if is_move(k, 'h', Key::Left) {
            Command::Move(-1i32, 0i32)
        } else if is_move(k, 'l', Key::Right) {
            Command::Move(1i32, 0i32)
        } else if is_move(k, 'k', Key::Up) {
            Command::Move(0i32, -1i32)
        } else if is_move(k, 'j', Key::Down) {
            Command::Move(0i32, 1i32)
        } else {
            Command::Nothing
        }
    }
}

fn new_key(k: KeyPress) -> (r: Command)
    ensures
        r == new_command(k),
{
    match k.key {
        Key::Enter => Command::NewConfirm,
        Key::Esc => Command::CancelSub,
        Key::Backspace => Command::NewBackspace,
        Key::Left => Command::NewCursor(-1i32),
        Key::Right => Command::NewCursor(1i32),
        Key::Char(c) => Command::NewChar(c),
        _ => Command::Nothing,
    }
}

fn status_key(k: KeyPress) -> (r: Command)
    ensures
        r == status_command(k),
{
    match k.key {
        Key::Char('t') => Command::SetStatus(StatusChoice::Todo),
        Key::Char('p') => Command::SetStatus(StatusChoice::InProgress),
        Key::Char('c') => Command::SetStatus(StatusChoice::Completed),
        Key::Char('b') => Command::SetStatus(StatusChoice::Blocked),
        Key::Char('x') => Command::SetStatus(StatusChoice::Clear),
        Key::Esc => Command::CancelSub,
        _ => Command::Nothing,
    }
}

fn menu_key(k: KeyPress) -> (r: Command)
    ensures
        r == menu_command(k),
{
    match k.key {
        Key::Char('i') => Command::MenuIncoming,
        Key::Char('o') => Command::MenuOutgoing,
        Key::Char('g') => Command::MenuToggleGlobal,
        Key::Char('F') | Key::Esc => Command::MenuClose,
        _ => Command::Nothing,
    }
}

fn fidelity_key(k: KeyPress, incoming: bool) -> (r: Command)
    ensures
        r == fidelity_command(k, incoming),
{
    match k.key {
        Key::Char('T') | Key::Char('t') => Command::MenuFidelity(incoming, ArrowFidelity::Tree),
        Key::Char('S') | Key::Char('s') => Command::MenuFidelity(incoming, ArrowFidelity::Selected),
        Key::Esc => Command::MenuBack,
        _ => Command::Nothing,
    }
}

fn canvas_key(k: KeyPress, browsing: bool, selection: bool) -> (r: Command)
    ensures
        r == canvas_command(k, browsing, selection),
{
    if is_plain(k, 'q') {
        Command::QuitToMenu
    } else if is_shifted(k, 'Q') {
        Command::SaveAndQuit
    } else if k.key == Key::Enter {
        Command::ConfirmLink
    } else if k.key == Key::Esc {
        if browsing { Command::QuitToMenu } else { Command::CancelSub }
    } else if is_move(k, 'h', Key::Left) {
        Command::Move(-1i32, 0i32)
    } else if is_move(k, 'l', Key::Right) {
        Command::Move(1i32, 0i32)
    } else if is_move(k, 'k', Key::Up) {
        Command::Move(0i32, -1i32)
    } else if is_move(k, 'j', Key::Down) {
        Command::Move(0i32, 1i32)
    } else if is_shifted(k, 'H') {
        Command::Warp(-1i32, 0i32)
    } else if is_shifted(k, 'L') {
        Command::Warp(1i32, 0i32)
    } else if is_shifted(k, 'K') {
        Command::Warp(0i32, -1i32)
    } else if is_shifted(k, 'J') {
        Command::Warp(0i32, 1i32)
    } else if is_plain(k, 'i') {
        if selection { Command::Insert } else { Command::NewNode }
    } else if is_plain(k, 'e') {
        Command::Edit
    } else if is_shifted(k, 'E') {
        Command::Overwrite
    } else if is_plain(k, 'v') {
        Command::Reparent
    } else if is_plain(k, 'x') {
        Command::Delete
    } else if is_plain(k, 'p') {
        Command::PickOrPlace
    } else if is_plain(k, 'f') {
        Command::StartLink
    } else if is_plain(k, 't') {
        Command::StartStatus
    } else if is_plain(k, 'g') {
        Command::StartGoto
    } else if is_plain(k, 'u') {
        Command::Undo
    } else if is_plain(k, '?') {
        Command::StartHelp
    } else if is_plain(k, 'a') {
        Command::OpenArchive
    } else if is_shifted(k, 'F') {
        Command::OpenMenu
    } else if is_plain(k, 'd') {
        Command::IndentIncrease
    } else if is_shifted(k, 'D') {
        Command::IndentDecrease
    } else if is_plain(k, 'z') || k.key == Key::Char(' ') {
        Command::CanvasToggle
    } else if k.key == Key::Char('c') {
        Command::Center
    } else if k.key == Key::Tab && !k.shift && !k.ctrl {
        Command::JumpLink(1i32)
    } else if k.key == Key::BackTab && k.shift && !k.ctrl {
        Command::JumpLink(-1i32)
    } else {
        Command::Nothing
    }
}

/// The command that key press `k` stands for in mode `mode`; `selection`
/// tells whether a node is selected under the canvas cursor.
pub fn key_command(mode: &Mode, selection: bool, k: KeyPress) -> (r: Command)
    ensures
        r == command_of(*mode, selection, k),
{
    match mode {
        Mode::StartMenu { state: StartMenuState::Main { .. } } => start_main_key(k),
        Mode::StartMenu { state } => {
            let import = match state {
                StartMenuState::Import { .. } => true,
                _ => false,
            };
            start_prompt_key(k, import)
        },
        Mode::Input { .. } => input_key(k),
        Mode::Reparent { .. } => reparent_key(k),
        Mode::Help => help_key(k),
        Mode::ArchivePage { state: ArchiveState::BrowseList { .. }, .. } => archive_list_key(k),
        Mode::ArchivePage { state, .. } => {
            let content = match state {
                ArchiveState::EditContent { .. } => true,
                _ => false,
            };
            archive_editor_key(k, content)
        },
        Mode::ProjectList { state: ProjectListState::Browse { .. } } => list_browse_key(k),
        Mode::ProjectList { .. } => list_prompt_key(k),
        Mode::Canvas { state: CanvasState::Goto { .. } } => goto_key(k),
        Mode::Canvas { state: CanvasState::Pick { .. } } => pick_key(k),
        Mode::Canvas { state: CanvasState::New { .. } } => new_key(k),
        Mode::Canvas { state: CanvasState::TagStatus } => status_key(k),
        Mode::Canvas { state: CanvasState::Menu } => menu_key(k),
        Mode::Canvas { state: CanvasState::MenuIncoming } => fidelity_key(k, true),
        Mode::Canvas { state: CanvasState::MenuOutgoing } => fidelity_key(k, false),
        Mode::Canvas { state } => {
            let browsing = match state {
                CanvasState::Browse => true,
                _ => false,
            };
            canvas_key(k, browsing, selection)
        },
    }
}

} // verus!
