use filament::app::{App, Effect};
use filament::mode::{ArchiveState, CanvasState, Mode, ProjectListState, StartMenuState};
use filament::models::{ArchiveNote, Node, NoteType, StatusQuery};
use filament::persistence::{GlobalSettings, ProjectEntry, ProjectSettings, Registry};
use filament::store::{NodeRecord, TagRecord, TimeRecord};

fn node(label: &str, parent: Option<usize>, children: Vec<usize>) -> Node {
    Node {
        label: label.to_string(),
        parent,
        children,
        links: vec![],
        collapsed: false,
        row: usize::MAX,
        world_x: 0,
        world_y: 0,
        world_x_end: 0,
        tags: vec![],
        times: vec![],
        is_managed_note: false,
        managed: None,
    }
}

fn registry() -> Registry {
    Registry {
        projects: vec![
            ProjectEntry { name: "Alpha".to_string(), path: "/a".to_string() },
            ProjectEntry { name: "Beta".to_string(), path: "/b".to_string() },
        ],
    }
}

fn menu_app() -> App {
    App::new(GlobalSettings::default(), registry(), "dark".to_string(), vec!["dark".to_string(), "light".to_string()])
}

fn blank_app() -> App {
    let mut app = App::new(GlobalSettings::default(), Registry::default(), "dark".to_string(), vec![]);
    app.nodes.clear();
    app.mode = Mode::Canvas { state: CanvasState::Browse };
    app
}

fn labels(app: &App) -> Vec<String> {
    app.nodes.iter().map(|n| n.label.clone()).collect()
}

#[test]
fn test_node_near_cursor_range() {
    let mut app = blank_app();
    let mut n = node("Long label", None, vec![]);
    n.row = 0;
    n.world_x = 10;
    n.world_y = 5;
    n.world_x_end = 30;
    app.nodes = vec![n];
    assert_eq!(app.node_near_cursor(20, 5), Some(0));
    assert_eq!(app.node_near_cursor(30, 5), Some(0));
    assert_eq!(app.node_near_cursor(34, 5), Some(0));
    assert_eq!(app.node_near_cursor(35, 5), None);
    assert_eq!(app.node_near_cursor(20, 9), Some(0));
    assert_eq!(app.node_near_cursor(20, 10), None);
}

#[test]
fn test_recompute_layout_world_x_end() {
    let mut app = blank_app();
    let mut root = node("Root", None, vec![1]);
    root.collapsed = true;
    root.world_x = 10;
    root.world_y = 5;
    app.nodes.push(root);
    app.nodes.push(node("Child", Some(0), vec![]));
    app.recompute_layout();
    assert_eq!(app.nodes[0].world_x_end, 22);
}

#[test]
fn layout_places_children_under_their_root() {
    let mut app = blank_app();
    let mut root = node("R", None, vec![1, 2]);
    root.world_x = 3;
    root.world_y = 4;
    app.nodes.push(root);
    app.nodes.push(node("a", Some(0), vec![]));
    app.nodes.push(node("b", Some(0), vec![]));
    let order = app.recompute_layout();
    assert_eq!(order, vec![(0, 0), (1, 1), (2, 1)]);
    assert_eq!((app.nodes[2].world_x, app.nodes[2].world_y, app.nodes[2].row), (3, 6, 2));
    assert_eq!(app.nodes[1].world_x_end, 3 + 2 + 2 + 1);
}

#[test]
fn start_menu_lists_projects_settings_and_themes() {
    let app = menu_app();
    assert_eq!(
        labels(&app),
        vec![
            "📁 Open", "Alpha  (/a)", "Beta  (/b)", "+ New", "📥 Import", "🔍 Find", "⚙ Settings",
            "Default filaments path: ~/Documents/filaments", "Username: user", "🎨 Themes", "• dark", "light", "❓ Help",
        ]
    );
    assert_eq!(app.nodes[0].children, vec![1, 2]);
    assert_eq!(app.nodes[6].children, vec![7, 8, 9]);
    assert!(app.nodes[6].collapsed && app.nodes[9].collapsed);
    assert_eq!(app.nodes[11].parent, Some(9));
    assert_eq!(app.nodes[12].world_y, 12);
    assert!(matches!(app.mode, Mode::StartMenu { state: StartMenuState::Main { selected: 0 } }));
}

#[test]
fn enter_folds_a_menu_node_with_children() {
    let mut app = menu_app();
    app.start_menu_confirm();
    assert!(app.nodes[0].collapsed);
    app.start_menu_confirm();
    assert!(!app.nodes[0].collapsed);
}

#[test]
fn opening_a_project_from_the_menu_asks_for_it() {
    let mut app = menu_app();
    app.selected = 2;
    app.start_menu_confirm();
    assert!(matches!(app.effects.last(), Some(Effect::LoadProject { path }) if path == "/b"));
}

#[test]
fn find_is_not_there_yet() {
    let mut app = menu_app();
    app.start_menu_go_to_label("find");
    assert_eq!(app.selected, 5);
    assert_eq!(app.status_message, Some("Find not implemented yet".to_string()));
}

#[test]
fn new_project_from_the_start_menu() {
    let mut app = menu_app();
    app.start_menu_go_to_label("new");
    assert_eq!(app.nodes.len(), 14);
    assert_eq!(app.nodes[13].label, "location: ~/Documents/filaments");
    assert_eq!(app.nodes[13].parent, Some(3));
    assert_eq!(app.nodes[3].children, vec![13]);
    assert_eq!(app.selected, 13);
    match &app.mode {
        Mode::StartMenu { state: StartMenuState::NewPath { buf, cursor } } => {
            assert_eq!(buf, "~/Documents/filaments");
            assert_eq!(*cursor, buf.len());
        },
        _ => panic!("expected the path dialog"),
    }
    app.mode = Mode::StartMenu { state: StartMenuState::NewPath { buf: " /tmp/projects ".to_string(), cursor: 0 } };
    app.start_menu_confirm();
    assert_eq!(app.nodes[13].label, "project: project");
    match &app.mode {
        Mode::StartMenu { state: StartMenuState::NewName { path, buf, cursor } } => {
            assert_eq!(path, "/tmp/projects");
            assert_eq!(buf, "project");
            assert_eq!(*cursor, 7);
        },
        _ => panic!("expected the name dialog"),
    }
    app.mode = Mode::StartMenu { state: StartMenuState::NewName { path: "/tmp/projects".to_string(), buf: "  ".to_string(), cursor: 0 } };
    app.start_menu_confirm();
    assert!(matches!(app.effects.last(), Some(Effect::CreateProject { root, name }) if root == "/tmp/projects/project" && name == "project"));
    app.register_and_open("project".to_string(), "/tmp/projects/project".to_string());
    assert_eq!(app.registry.projects.len(), 3);
    assert!(matches!(app.effects.last(), Some(Effect::LoadProject { path }) if path == "/tmp/projects/project"));
}

#[test]
fn blank_path_cancels_to_the_menu() {
    let mut app = menu_app();
    app.mode = Mode::StartMenu { state: StartMenuState::NewPath { buf: "   ".to_string(), cursor: 0 } };
    app.nodes.clear();
    app.start_menu_cancel();
    assert_eq!(app.nodes.len(), 13);
    assert!(matches!(app.mode, Mode::StartMenu { state: StartMenuState::Main { selected: 0 } }));
}

#[test]
fn choosing_a_theme_marks_it() {
    let mut app = menu_app();
    app.selected = 11;
    app.start_menu_confirm();
    assert_eq!(app.palette, "light");
    assert_eq!(app.nodes[10].label, "dark");
    assert_eq!(app.nodes[11].label, "• light");
    let n = app.effects.len();
    assert!(matches!(&app.effects[n - 2], Effect::UsePalette { name } if name == "light"));
    assert!(matches!(app.effects[n - 1], Effect::SaveSettings));
}

#[test]
fn editing_the_user_name() {
    let mut app = menu_app();
    app.selected = 8;
    app.start_menu_edit();
    match &app.mode {
        Mode::StartMenu { state: StartMenuState::EditSetting { key, buf, cursor } } => {
            assert_eq!(key, "username");
            assert_eq!(buf, "user");
            assert_eq!(*cursor, 4);
        },
        _ => panic!("expected the settings dialog"),
    }
    app.start_menu_input_char('s');
    app.start_menu_confirm();
    assert_eq!(app.settings.username, "users");
    assert_eq!(app.nodes[8].label, "Username: users");
    assert!(matches!(app.effects.last(), Some(Effect::SaveSettings)));
    assert!(matches!(app.mode, Mode::StartMenu { state: StartMenuState::Main { selected: 8 } }));
}

#[test]
fn renaming_and_moving_a_project() {
    let mut app = menu_app();
    app.selected = 2;
    app.start_menu_edit();
    match &app.mode {
        Mode::StartMenu { state: StartMenuState::EditSetting { key, buf, .. } } => {
            assert_eq!(key, "rename_project:1");
            assert_eq!(buf, "Beta");
        },
        _ => panic!("expected the settings dialog"),
    }
    app.start_menu_backspace();
    app.start_menu_input_char('!');
    app.start_menu_confirm();
    assert_eq!(app.registry.projects[1].name, "Bet!");
    assert_eq!(app.nodes[2].label, "Bet!  (/b)");
    assert!(matches!(app.effects.last(), Some(Effect::SaveRegistry)));
    app.selected = 1;
    app.start_menu_edit_path();
    app.start_menu_move_cursor(-1);
    app.start_menu_input_char('x');
    app.start_menu_confirm();
    assert_eq!(app.registry.projects[0].path, "/xa");
}

#[test]
fn forgetting_a_project_keeps_a_selection() {
    let mut app = menu_app();
    app.selected = 2;
    app.start_menu_remove_selected();
    assert_eq!(app.registry.projects.len(), 1);
    assert_eq!(app.nodes.len(), 12);
    assert_eq!(app.selected, 1);
    assert!(matches!(app.effects.last(), Some(Effect::SaveRegistry)));
    app.selected = 3;
    let before = app.registry.projects.len();
    app.start_menu_remove_selected();
    assert_eq!(app.registry.projects.len(), before);
}

#[test]
fn importing_a_project() {
    let mut app = menu_app();
    app.start_menu_go_to_label("import");
    assert!(matches!(app.effects.last(), Some(Effect::ScanImport { root, pattern }) if root == "~/Documents/filaments" && pattern.is_empty()));
    app.start_menu_import_found(vec!["/x/one".to_string(), "/x/two".to_string()]);
    app.start_menu_import_prev();
    match &app.mode {
        Mode::StartMenu { state: StartMenuState::Import { matches, match_idx, .. } } => {
            assert_eq!(matches.len(), 2);
            assert_eq!(*match_idx, 1);
        },
        _ => panic!("expected the import dialog"),
    }
    app.start_menu_import_next();
    app.start_menu_input_char('w');
    assert!(matches!(app.effects.last(), Some(Effect::ScanImport { pattern, .. }) if pattern == "w"));
    app.start_menu_import_found(vec!["/x/one".to_string(), "/x/two".to_string()]);
    app.start_menu_confirm();
    assert!(matches!(app.effects.last(), Some(Effect::ImportProject { path }) if path == "/x/two"));
    app.import_failed();
    assert_eq!(app.status_message, Some("Invalid project file".to_string()));
    app.start_menu_import();
    app.start_menu_import_toggle_root();
    match &app.mode {
        Mode::StartMenu { state: StartMenuState::Import { buf, editing_root, .. } } => {
            assert!(*editing_root);
            assert_eq!(buf, "~/Documents/filaments");
        },
        _ => panic!("expected the import dialog"),
    }
}

#[test]
fn menu_navigation_follows_the_visible_order() {
    let mut app = menu_app();
    app.start_menu_nav(1);
    assert_eq!(app.selected, 1);
    assert!(matches!(app.mode, Mode::StartMenu { state: StartMenuState::Main { selected: 1 } }));
    app.start_menu_nav(-5);
    assert_eq!(app.selected, 0);
    app.start_menu_nav(100);
    assert_eq!(app.selected, 12);
}

#[test]
fn help_tree_comes_and_goes() {
    let mut app = menu_app();
    app.start_menu_go_to_label("help");
    assert!(matches!(app.mode, Mode::Help));
    assert_eq!(app.nodes.len(), 27);
    assert_eq!(app.nodes[0].label, "HELP: Commands & Shortcuts");
    assert_eq!(app.nodes[0].children, vec![1, 7, 17, 22]);
    assert_eq!(app.selected, 0);
    assert_eq!((app.cursor_x, app.cursor_y), (app.nodes[0].world_x, app.nodes[0].world_y));
    app.canvas_close_help();
    assert_eq!(app.nodes.len(), 13);
    assert!(matches!(app.mode, Mode::StartMenu { .. }));
}

#[test]
fn undo_brings_the_nodes_back() {
    let mut app = blank_app();
    app.project_path = Some("/p".to_string());
    app.nodes.push(node("A", None, vec![]));
    app.push_undo();
    assert_eq!(app.undo_stack.len(), 1);
    app.nodes[0].label = "changed".to_string();
    app.undo();
    assert_eq!(app.nodes[0].label, "A");
    assert_eq!(app.status_message, Some("Undo applied".to_string()));
    assert!(matches!(app.effects.last(), Some(Effect::DropHistory { path, count: 2 }) if path == "/p"));
    app.undo();
    assert_eq!(app.status_message, Some("Nothing to undo".to_string()));
}

#[test]
fn toggling_a_link_twice_restores_it() {
    let mut app = blank_app();
    let mut b = node("B", None, vec![]);
    b.world_y = 10;
    app.nodes.push(node("A", None, vec![]));
    app.nodes.push(b);
    app.recompute_layout();
    app.selected = 0;
    app.canvas_start_link();
    app.cursor_y = 10;
    app.canvas_confirm_link();
    assert_eq!(app.nodes[0].links, vec![1]);
    app.canvas_start_link();
    app.canvas_confirm_link();
    assert!(app.nodes[0].links.is_empty());
}

#[test]
fn cardinal_warp_jumps_to_the_next_row() {
    let mut app = blank_app();
    let mut a = node("A", None, vec![]);
    a.world_y = 20;
    a.world_x = 5;
    let mut b = node("B", None, vec![]);
    b.world_y = 20;
    b.world_x = -1;
    let mut c = node("C", None, vec![]);
    c.world_y = 30;
    app.nodes = vec![a, b, c];
    app.recompute_layout();
    app.cursor_warp(0, 1, 80, 24);
    assert_eq!((app.cursor_x, app.cursor_y), (-1, 20));
    assert_eq!(app.selected, 1);
    app.cursor_warp(0, 1, 80, 24);
    assert_eq!((app.cursor_x, app.cursor_y), (0, 30));
    let before = (app.cursor_x, app.cursor_y);
    app.cursor_warp(0, 1, 80, 24);
    assert_eq!((app.cursor_x, app.cursor_y), before);
    app.cursor_warp(1, 0, 80, 24);
    assert_eq!((app.cursor_x, app.cursor_y), (5, 20));
}

#[test]
fn reference_document_collects_notes_by_depth() {
    let mut app = blank_app();
    app.nodes = vec![
        node("Topic", None, vec![1, 2]),
        { let mut n = node("Intro", Some(0), vec![]); n.is_managed_note = true; n },
        node("Part", Some(0), vec![3]),
        { let mut n = node("Detail", Some(2), vec![]); n.is_managed_note = true; n },
    ];
    app.notes = vec![
        ArchiveNote { id: None, title: "Intro".to_string(), content: "intro text".to_string(), note_type: NoteType::Reference },
        ArchiveNote { id: None, title: "Detail".to_string(), content: "detail text".to_string(), note_type: NoteType::Reference },
        ArchiveNote { id: None, title: "Loose".to_string(), content: "loose text".to_string(), note_type: NoteType::Quick },
    ];
    assert_eq!(app.build_concatenated_document(0), "# Intro\n\nintro text\n\n## Detail\n\ndetail text");
    assert_eq!(app.build_concatenated_document(2), "loose text");
}

#[test]
fn jumping_to_a_mentioned_node() {
    let mut app = blank_app();
    let mut t = node("target", None, vec![]);
    t.world_x = 40;
    t.world_y = 30;
    app.nodes = vec![node("first", None, vec![]), t];
    app.notes = vec![ArchiveNote { id: None, title: "n".to_string(), content: "see @first then @target.".to_string(), note_type: NoteType::Quick }];
    app.mode = Mode::ArchivePage { state: ArchiveState::BrowseList { selected: 0 }, previous: Box::new(Mode::Help) };
    app.archive_jump_at(80, 24);
    assert_eq!(app.selected, 1);
    assert_eq!((app.cursor_x, app.cursor_y), (40, 30));
    assert_eq!((app.camera_x, app.camera_y), (0, 18));
    assert!(matches!(app.mode, Mode::Canvas { state: CanvasState::Browse }));
}

#[test]
fn query_results_list_matching_nodes() {
    let mut app = blank_app();
    let mut a = node("alpha", None, vec![]);
    a.tags.push(("status".to_string(), "todo".to_string()));
    app.nodes = vec![a, node("beta", None, vec![]), node("alphabet", None, vec![])];
    app.status_add_query("open".to_string(), "alpha".to_string());
    app.status_add_query("todo".to_string(), "status:todo".to_string());
    assert_eq!(app.get_query_results(0), vec![0, 2]);
    assert_eq!(app.get_query_results(1), vec![0]);
    assert_eq!(app.get_query_results(5), Vec::<usize>::new());
    app.status_update_query(1, "all".to_string(), "".to_string());
    assert_eq!(app.get_query_results(1), vec![0, 1, 2]);
    app.status_remove_query(0);
    assert_eq!(app.queries.len(), 1);
    assert_eq!(app.queries[0].name, "all");
}

#[test]
fn project_list_dialogs() {
    let mut app = menu_app();
    app.mode = Mode::ProjectList { state: ProjectListState::Browse { selected: 0 } };
    app.project_list_nav(5);
    assert!(matches!(app.mode, Mode::ProjectList { state: ProjectListState::Browse { selected: 1 } }));
    app.project_list_open_selected();
    assert!(matches!(app.effects.last(), Some(Effect::LoadProject { path }) if path == "/b"));
    app.project_list_remove_selected();
    assert_eq!(app.registry.projects.len(), 1);
    assert!(matches!(app.mode, Mode::ProjectList { state: ProjectListState::Browse { selected: 0 } }));
    app.project_list_start_new();
    for c in "/tmp/work".chars() {
        app.project_list_input_char(c);
    }
    app.project_list_backspace();
    app.project_list_confirm();
    match &app.mode {
        Mode::ProjectList { state: ProjectListState::NewName { path, buf, cursor } } => {
            assert_eq!(path, "/tmp/wor");
            assert_eq!(buf, "wor");
            assert_eq!(*cursor, 3);
        },
        _ => panic!("expected the name dialog"),
    }
    app.project_list_confirm();
    assert!(matches!(app.effects.last(), Some(Effect::CreateProject { root, name }) if root == "/tmp/wor/wor" && name == "wor"));
    app.project_list_cancel();
    assert!(matches!(app.mode, Mode::ProjectList { state: ProjectListState::Browse { selected: 0 } }));
}

#[test]
fn registry_renames_known_paths() {
    let mut reg = registry();
    reg.add_project(ProjectEntry { name: "Gamma".to_string(), path: "/a".to_string() });
    assert_eq!(reg.projects.len(), 2);
    assert_eq!(reg.projects[0].name, "Gamma");
    reg.add_project(ProjectEntry { name: "Delta".to_string(), path: "/d".to_string() });
    assert_eq!(reg.projects.len(), 3);
    reg.remove_at(7);
    assert_eq!(reg.projects.len(), 3);
    reg.remove_at(0);
    assert_eq!(reg.projects[0].name, "Beta");
}

#[test]
fn loading_a_project_applies_what_was_read() {
    let mut app = menu_app();
    let mut settings = ProjectSettings::new("Proj");
    settings.view.selected_db_id = 11;
    settings.view.cursor_x = 2;
    settings.arrows.incoming = "Selected".to_string();
    let recs = vec![
        NodeRecord { id: 10, label: "root".to_string(), parent_id: None, collapsed: false, world_x: 0, world_y: 0, is_managed_note: false },
        NodeRecord { id: 11, label: "kid".to_string(), parent_id: Some(10), collapsed: false, world_x: 0, world_y: 0, is_managed_note: false },
    ];
    let tags = vec![TagRecord { node_id: 11, key: "status".to_string(), value: "done".to_string() }];
    let times: Vec<TimeRecord> = vec![];
    let queries = vec![StatusQuery { id: Some(1), name: "q".to_string(), logic: "kid".to_string() }];
    app.load_project("/proj".to_string(), settings, &recs, &vec![], &tags, &times, queries, vec![], None);
    assert_eq!(app.project_path, Some("/proj".to_string()));
    assert_eq!(app.project_name, "Proj");
    assert_eq!(labels(&app), vec!["root", "kid"]);
    assert_eq!(app.nodes[0].children, vec![1]);
    assert_eq!(app.selected, 1);
    assert_eq!(app.cursor_x, 2);
    assert_eq!(app.queries.len(), 1);
    assert!(matches!(app.mode, Mode::Canvas { state: CanvasState::Browse }));
    let snap = app.snapshot();
    let saved = snap.settings(42);
    assert_eq!(saved.arrows.incoming, "Selected");
    assert_eq!(saved.arrows.outgoing, "Tree");
    assert_eq!(saved.view.selected_db_id, 42);
    let bad = vec![NodeRecord { id: 1, label: "loop".to_string(), parent_id: Some(1), collapsed: false, world_x: 0, world_y: 0, is_managed_note: false }];
    app.load_project("/bad".to_string(), ProjectSettings::new("Bad"), &bad, &vec![], &vec![], &vec![], vec![], vec![], None);
    assert_eq!(app.project_path, Some("/proj".to_string()));
    assert_eq!(app.status_message, Some("load error: the stored nodes are inconsistent".to_string()));
}

#[test]
fn quitting_to_the_menu_saves_first() {
    let mut app = blank_app();
    app.project_path = Some("/p".to_string());
    app.nodes.push(node("A", None, vec![]));
    app.quit_to_main_menu();
    assert!(matches!(app.effects.last(), Some(Effect::SaveProject { path, .. }) if path == "/p"));
    assert!(app.project_path.is_none());
    assert_eq!(app.nodes[0].label, "📁 Open");
}
