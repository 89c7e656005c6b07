use vstd::prelude::*;

verus! {

/// What the application is doing; each variant carries the state of its
/// sub-mode.
pub enum Mode {
    /// Ground state: the world cursor moves over the canvas.
    Canvas { state: CanvasState },
    /// Typing a label: inserting a child, editing or overwriting a label.
    Input { action: InputAction, buf: String, cursor: usize },
    /// Moving `subject` under a new parent, chosen with `cursor`.
    Reparent { subject: usize, orig_parent: Option<usize>, orig_pos: usize, cursor: usize },
    /// The start menu.
    StartMenu { state: StartMenuState },
    /// The project list.
    ProjectList { state: ProjectListState },
    /// The archive of notes.
    ArchivePage { state: ArchiveState, previous: Box<Mode> },
    /// Browsing the help tree.
    Help,
}

/// What confirming the input buffer does.
#[derive(Clone, Copy, PartialEq, Eq, Structural)]
pub enum InputAction {
    InsertChild { parent: usize },
    EditLabel { node: usize },
    Overwrite { node: usize },
}

/// Which arrows are highlighted: those of the whole tree or of the selected
/// node only.
#[derive(Clone, Copy, PartialEq, Eq, Structural)]
pub enum ArrowFidelity {
    Tree,
    Selected,
}

/// Arrow display settings.
#[derive(Clone, Copy, PartialEq, Eq, Structural)]
pub struct ArrowSettings {
    /// Render every link dimly before the highlighted ones.
    pub global: bool,
    pub incoming: ArrowFidelity,
    pub outgoing: ArrowFidelity,
}

impl Default for ArrowSettings {
    fn default() -> (r: Self)
        ensures
            r == (ArrowSettings {
                global: false,
                incoming: ArrowFidelity::Tree,
                outgoing: ArrowFidelity::Tree,
            }),
    {
        ArrowSettings { global: false, incoming: ArrowFidelity::Tree, outgoing: ArrowFidelity::Tree }
    }
}

/// Canvas sub-states.
pub enum CanvasState {
    Browse,
    /// Typing the label of a new root node at the cursor.
    New { buf: String, text_cursor: usize },
    /// Carrying a node; `buf` may hold typed target coordinates "x,y".
    Pick { origin_id: usize, origin_x: i32, origin_y: i32, buf: String, cursor: usize },
    /// Choosing the target of a link from `origin_id`.
    Link { origin_id: usize },
    /// Arrow display menu.
    Menu,
    MenuIncoming,
    MenuOutgoing,
    /// Choosing a status tag for the selected node.
    TagStatus,
    /// Fuzzy search over node labels.
    Goto {
        buf: String,
        cursor: usize,
        matches: Vec<usize>,
        match_idx: usize,
        previous: Box<CanvasState>,
    },
}

/// Start menu sub-states.
pub enum StartMenuState {
    Main { selected: usize },
    NewPath { buf: String, cursor: usize },
    NewName { path: String, buf: String, cursor: usize },
    EditSetting { key: String, buf: String, cursor: usize },
    Import {
        root: String,
        buf: String,
        cursor: usize,
        matches: Vec<String>,
        match_idx: usize,
        editing_root: bool,
    },
}

/// Project list sub-states.
pub enum ProjectListState {
    Browse { selected: usize },
    NewPath { buf: String, cursor: usize },
    NewName { path: String, buf: String, cursor: usize },
}

/// Archive page sub-states.
pub enum ArchiveState {
    BrowseList { selected: usize },
    EditTitle { idx: usize, buf: String, cursor: usize },
    EditContent { idx: usize, buf: String, cursor: usize },
}

} // verus!
