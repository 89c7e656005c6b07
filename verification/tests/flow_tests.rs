use filament::app::App;
use filament::clock::is_date_text_safe;
use filament::keymap::{key_command, Command, Key, KeyPress, MenuEntry, StatusChoice};
use filament::mode::{ArchiveState, ArrowFidelity, CanvasState, Mode, StartMenuState};
use filament::models::{ManagedNodeType, Node, TimeTag};
use filament::persistence::{GlobalSettings, ProjectSettings, Registry};
use filament::query::{evaluate, evaluate_single_with, time_verdict};
use filament::widgets::{route_link_into_buf, ArrowBuf, CE, CN, CS, CW};

fn node(label: &str, parent: Option<usize>, children: Vec<usize>) -> Node {
    Node {
        label: label.to_string(),
        parent,
        children,
        links: vec![],
        collapsed: false,
        row: usize::MAX,
        world_x: 0,
        world_y: 0,
        world_x_end: 0,
        tags: vec![],
        times: vec![],
        is_managed_note: false,
        managed: None,
    }
}

fn press(c: char) -> KeyPress {
    KeyPress { key: Key::Char(c), shift: false, ctrl: false }
}

fn shift(c: char) -> KeyPress {
    KeyPress { key: Key::Char(c), shift: true, ctrl: false }
}

fn key(k: Key) -> KeyPress {
    KeyPress { key: k, shift: false, ctrl: false }
}

fn browse() -> Mode {
    Mode::Canvas { state: CanvasState::Browse }
}

#[test]
fn time_comparison_uses_the_parsed_date() {
    assert!(time_verdict(5, Some(10), true));
    assert!(!time_verdict(5, Some(10), false));
    assert!(time_verdict(15, Some(10), false));
    assert!(!time_verdict(10, Some(10), true));
    assert!(!time_verdict(5, None, true));
    assert!(!time_verdict(5, None, false));
}

#[test]
fn a_time_part_compares_the_tag_with_the_target() {
    let mut n = node("task", None, vec![]);
    n.times.push(("deadline".to_string(), TimeTag { timestamp: 100, pattern: None }));
    assert!(evaluate_single_with("deadline < tomorrow", &n, Some(200)));
    assert!(!evaluate_single_with("deadline < tomorrow", &n, Some(50)));
    assert!(evaluate_single_with("deadline > yesterday", &n, Some(50)));
    assert!(!evaluate_single_with("deadline < tomorrow", &n, None));
    assert!(!evaluate_single_with("start < tomorrow", &n, Some(200)));
}

#[test]
fn other_parts_ignore_the_target() {
    let mut n = node("Write Report", None, vec![]);
    n.tags.push(("status".to_string(), "todo".to_string()));
    assert!(evaluate_single_with("status: todo", &n, Some(1)));
    assert!(!evaluate_single_with("status: done", &n, None));
    assert!(evaluate_single_with("report", &n, None));
}

#[test]
fn date_text_the_parser_is_handed() {
    assert!(is_date_text_safe("tomorrow"));
    assert!(is_date_text_safe("2024-01-15 10:30"));
    assert!(is_date_text_safe("next friday"));
    assert!(!is_date_text_safe("12345 days"));
    assert!(!is_date_text_safe("0x10 days"));
    assert!(!is_date_text_safe("5 a日"));
}

#[test]
fn a_blocked_column_still_ends_beside_the_target() {
    let mut buf = ArrowBuf::new();
    route_link_into_buf(&mut buf, 30, 10, 0, 0, &[(8, 2, 8)], 0, 0, 4, 10, 4, 14);
    // Column 8 is blocked on row 2, so the line goes down column 7 and
    // runs along row 4 to the arrowhead just left of the target.
    assert_eq!(buf.get(5, 0), Some((CE | CW, None)));
    assert_eq!(buf.get(7, 0), Some((CW | CS, None)));
    assert_eq!(buf.get(7, 2), Some((CN | CS, None)));
    assert_eq!(buf.get(7, 4), Some((CE | CN, None)));
    assert_eq!(buf.get(8, 4), Some((CE | CW, None)));
    assert_eq!(buf.get(9, 4), Some((CW, Some(CW))));
    assert_eq!(buf.get(10, 4), None);
    assert_eq!(buf.get(8, 2), None);
}

#[test]
fn canvas_keys_map_to_commands() {
    assert!(key_command(&browse(), true, press('j')) == Command::Move(0, 1));
    assert!(key_command(&browse(), true, key(Key::Left)) == Command::Move(-1, 0));
    assert!(key_command(&browse(), true, shift('J')) == Command::Warp(0, 1));
    assert!(key_command(&browse(), true, shift('Q')) == Command::SaveAndQuit);
    assert!(key_command(&browse(), true, press('q')) == Command::QuitToMenu);
    assert!(key_command(&browse(), true, key(Key::Esc)) == Command::QuitToMenu);
    assert!(key_command(&Mode::Canvas { state: CanvasState::Link { origin_id: 0 } }, true, key(Key::Esc)) == Command::CancelSub);
    assert!(key_command(&browse(), true, press('i')) == Command::Insert);
    assert!(key_command(&browse(), false, press('i')) == Command::NewNode);
    assert!(key_command(&browse(), true, shift('F')) == Command::OpenMenu);
    assert!(key_command(&browse(), true, press('F')) == Command::Nothing);
    assert!(key_command(&browse(), true, KeyPress { key: Key::Char('j'), shift: false, ctrl: true }) == Command::Nothing);
}

#[test]
fn sub_mode_keys_map_to_commands() {
    let menu = Mode::StartMenu { state: StartMenuState::Main { selected: 0 } };
    assert!(key_command(&menu, false, press('q')) == Command::Quit);
    assert!(key_command(&menu, false, press('n')) == Command::StartGoTo(MenuEntry::New));
    assert!(key_command(&menu, false, key(Key::Down)) == Command::StartNav(1));
    assert!(key_command(&Mode::Help, false, key(Key::Esc)) == Command::HelpClose);
    assert!(key_command(&Mode::Help, false, press('z')) == Command::HelpToggle);
    let status = Mode::Canvas { state: CanvasState::TagStatus };
    assert!(key_command(&status, true, press('p')) == Command::SetStatus(StatusChoice::InProgress));
    let outgoing = Mode::Canvas { state: CanvasState::MenuOutgoing };
    assert!(key_command(&outgoing, true, press('s')) == Command::MenuFidelity(false, ArrowFidelity::Selected));
    let pick = Mode::Canvas {
        state: CanvasState::Pick { origin_id: 0, origin_x: 0, origin_y: 0, buf: String::new(), cursor: 0 },
    };
    assert!(key_command(&pick, true, press('5')) == Command::PickChar('5'));
    assert!(key_command(&pick, true, press('h')) == Command::Move(-1, 0));
    let content = Mode::ArchivePage {
        state: ArchiveState::EditContent { idx: 0, buf: String::new(), cursor: 0 },
        previous: Box::new(browse()),
    };
    assert!(key_command(&content, true, key(Key::Enter)) == Command::ArchiveChar('\n'));
}

#[test]
fn leaving_the_archive_restores_the_previous_mode() {
    let mut app = App::new(GlobalSettings::default(), Registry::default(), "dark".to_string(), vec![]);
    app.mode = Mode::ArchivePage {
        state: ArchiveState::BrowseList { selected: 0 },
        previous: Box::new(Mode::Canvas { state: CanvasState::TagStatus }),
    };
    app.archive_leave();
    assert!(matches!(app.mode, Mode::Canvas { state: CanvasState::TagStatus }));
}

#[test]
fn settings_are_stamped_with_the_given_time() {
    let s = ProjectSettings::stamped("Proj", 42);
    assert_eq!(s.name, "Proj");
    assert_eq!(s.created_at, 42);
    assert!(!s.arrows.global);
    assert_eq!(s.arrows.incoming, "Tree");
}

#[test]
fn stale_managed_nodes_are_removed() {
    let mut real = node("Real", None, vec![1]);
    real.row = 0;
    let mut group = node("[Times]", Some(0), vec![]);
    group.managed = Some(ManagedNodeType::TimeGroup);
    let mut app = App::new(GlobalSettings::default(), Registry::default(), "dark".to_string(), vec![]);
    app.nodes = vec![real, group];
    app.mode = browse();
    app.selected = 0;
    app.sync_managed_nodes();
    assert_eq!(app.nodes.len(), 1);
    assert!(app.nodes[0].children.is_empty());
}

#[test]
fn a_node_keeps_one_group_with_one_node_per_tag() {
    let mut real = node("Real", None, vec![1, 2]);
    real.times.push(("duration".to_string(), TimeTag { timestamp: 90, pattern: None }));
    let mut g1 = node("[Times]", Some(0), vec![]);
    g1.managed = Some(ManagedNodeType::TimeGroup);
    let mut g2 = node("[Times]", Some(0), vec![]);
    g2.managed = Some(ManagedNodeType::TimeGroup);
    let mut app = App::new(GlobalSettings::default(), Registry::default(), "dark".to_string(), vec![]);
    app.nodes = vec![real, g1, g2];
    app.mode = browse();
    app.selected = 0;
    app.sync_managed_nodes();
    assert_eq!(app.nodes.len(), 3);
    assert_eq!(app.nodes[0].children, vec![1]);
    assert_eq!(app.nodes[1].children, vec![2]);
    assert_eq!(app.nodes[2].label, "duration: 1m 30s");
    app.sync_managed_nodes();
    assert_eq!(app.nodes.len(), 3);
    assert_eq!(app.nodes[1].children, vec![2]);
}

#[test]
fn a_recurring_tag_is_marked_in_its_label() {
    let mut real = node("Real", None, vec![]);
    real.times.push(("due".to_string(), TimeTag { timestamp: 0, pattern: Some("every friday".to_string()) }));
    let mut app = App::new(GlobalSettings::default(), Registry::default(), "dark".to_string(), vec![]);
    app.nodes = vec![real];
    app.mode = browse();
    app.selected = 0;
    app.sync_managed_nodes();
    assert_eq!(app.nodes.len(), 3);
    assert!(app.nodes[2].label.starts_with("due: "));
    assert!(app.nodes[2].label.ends_with(" (recurring)"));
}

#[test]
fn keys_drive_the_application() {
    let mut app = App::new(GlobalSettings::default(), Registry::default(), "dark".to_string(), vec![]);
    app.nodes = vec![node("Root", None, vec![])];
    app.mode = browse();
    app.selected = 0;
    let y = app.cursor_y;
    assert!(app.handle_key(press('j'), 80, 24));
    assert_eq!(app.cursor_y, y + 1);
    assert!(app.handle_key(shift('F'), 80, 24));
    assert!(matches!(app.mode, Mode::Canvas { state: CanvasState::Menu }));
    assert!(app.handle_key(press('o'), 80, 24));
    assert!(matches!(app.mode, Mode::Canvas { state: CanvasState::MenuOutgoing }));
    assert!(app.handle_key(press('s'), 80, 24));
    assert!(app.arrow.outgoing == ArrowFidelity::Selected);
    assert!(matches!(app.mode, Mode::Canvas { state: CanvasState::Menu }));
    assert!(app.handle_key(key(Key::Esc), 80, 24));
    assert!(matches!(app.mode, Mode::Canvas { state: CanvasState::Browse }));
    assert!(app.handle_key(press('a'), 80, 24));
    assert!(matches!(app.mode, Mode::ArchivePage { .. }));
    assert!(app.handle_key(key(Key::Esc), 80, 24));
    assert!(matches!(app.mode, Mode::Canvas { state: CanvasState::Browse }));
    assert!(!app.handle_key(shift('Q'), 80, 24));
}

#[test]
fn quitting_from_the_start_menu() {
    let mut app = App::new(GlobalSettings::default(), Registry::default(), "dark".to_string(), vec![]);
    assert!(matches!(app.mode, Mode::StartMenu { .. }));
    assert!(app.handle_key(key(Key::Tab), 80, 24));
    assert!(!app.handle_key(press('q'), 80, 24));
}

#[test]
fn a_conjunction_holds_when_both_halves_do() {
    let mut n = node("Write Report", None, vec![]);
    n.tags.push(("status".to_string(), "todo".to_string()));
    for (a, b) in [("status: todo", "report"), ("status: todo", "draft"), ("status: done", "report"), ("  write ", "status:todo")] {
        let q = format!("{} AND {}", a, b);
        assert_eq!(evaluate(&q, &n), evaluate(a, &n) && evaluate(b, &n));
    }
    assert!(evaluate("  \t ", &n));
}

#[test]
fn the_undo_stack_is_capped_even_when_loaded_long() {
    let mut app = App::new(GlobalSettings::default(), Registry::default(), "dark".to_string(), vec![]);
    app.nodes = vec![node("Root", None, vec![])];
    app.mode = browse();
    app.selected = 0;
    app.project_path = Some("/tmp/nowhere".to_string());
    for k in 0..60 {
        app.undo_stack.push(vec![node(&format!("state {}", k), None, vec![])]);
    }
    app.push_undo();
    assert_eq!(app.undo_stack.len(), 50);
    assert_eq!(app.undo_stack[0][0].label, "state 11");
    assert_eq!(app.undo_stack[48][0].label, "state 59");
    assert_eq!(app.undo_stack[49][0].label, "Root");
}

#[test]
fn a_refused_command_changes_nothing() {
    let mut app = App::new(GlobalSettings::default(), Registry::default(), "dark".to_string(), vec![]);
    app.nodes = vec![node("Root", None, vec![])];
    app.mode = browse();
    app.selected = 0;
    app.cursor_x = 1 << 29;
    let before_y = app.cursor_y;
    assert!(app.handle_key(press('j'), 80, 24));
    assert_eq!(app.cursor_y, before_y);
}

#[test]
fn the_builtin_palettes_come_in_order() {
    let ps = filament::theme::builtin_palettes();
    let names: Vec<&str> = ps.iter().map(|p| p.name.as_str()).collect();
    assert_eq!(names, vec!["dracula", "solarized dark", "nord", "monokai", "github light", "everforest", "gruvbox", "catppuccin", "rose pine", "matte black"]);
    assert_eq!(ps[0].insert, (80, 250, 123));
    assert!(ps.iter().all(|p| p.status_done == (80, 250, 123)));
}
