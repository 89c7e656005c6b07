use filament::app::App;
use filament::archive_view::{archive_focus, note_items};
use filament::canvas_view::{arrow_menu, goto_prompt, time_order};
use filament::check::mode_valid;
use filament::duration::format_duration_stat;
use filament::editing::{editable_content, editable_line, EditLine};
use filament::mode::{ArchiveState, ArrowFidelity, ArrowSettings, CanvasState, InputAction, Mode, StartMenuState};
use filament::models::{ArchiveNote, Node, NoteType, TimeTag};
use filament::persistence::{GlobalSettings, Registry};
use filament::prefix::{bullet_trails, compute_is_last, node_depth};
use filament::start_screen::{menu_row, start_layout, start_menu_width, start_prompt, widths_fit_check};
use filament::statistics::statistics_at;
use filament::status_bar::i32_string;
use filament::titlebar::{build_title, mode_color, Role, Title};
use filament::widgets::{route_link_into_buf, ArrowBuf, CE, CN, CS, CW};

fn node(label: &str, parent: Option<usize>, children: Vec<usize>) -> Node {
    Node {
        label: label.to_string(),
        parent,
        children,
        links: vec![],
        collapsed: false,
        row: usize::MAX,
        world_x: 0,
        world_y: 0,
        world_x_end: 0,
        tags: vec![],
        times: vec![],
        is_managed_note: false,
        managed: None,
    }
}

fn canvas_app(nodes: Vec<Node>) -> App {
    let mut app = App::new(GlobalSettings::default(), Registry::default(), "dark".to_string(), vec![]);
    app.nodes = nodes;
    app.mode = Mode::Canvas { state: CanvasState::Browse };
    app.selected = 0;
    app
}

fn shown(n: &mut Node, x: i32, y: i32, row: usize) {
    n.row = row;
    n.world_x = x;
    n.world_y = y;
    n.world_x_end = x + n.label.chars().count() as i32;
}

fn line(l: &EditLine) -> (String, Option<char>, String) {
    (l.before.clone(), l.cursor, l.after.clone())
}

#[test]
fn status_bar_describes_the_canvas() {
    let mut root = node("Root", None, vec![1]);
    let mut child = node("Child", Some(0), vec![]);
    shown(&mut root, 0, 0, 0);
    shown(&mut child, 2, 1, 1);
    let mut app = canvas_app(vec![root, child]);
    app.selected = 1;
    app.cursor_x = 3;
    app.cursor_y = 1;
    app.camera_x = -4;
    assert_eq!(app.build_status(), " Child │ depth 1 │ cursor (3,1) │ camera (-4,0) │ 2 nodes ");
    app.cursor_y = 40;
    assert_eq!(app.build_status(), " cursor (3,40) │ camera (-4,0) │ 2 nodes ");
}

#[test]
fn status_bar_in_other_modes() {
    let mut app = canvas_app(vec![node("Root", None, vec![1]), node("Child", Some(0), vec![])]);
    app.mode = Mode::Input { action: InputAction::InsertChild { parent: 0 }, buf: "new".to_string(), cursor: 3 };
    assert_eq!(app.build_status(), " inserting under \"Root\" │ \"new\" ");
    app.mode = Mode::Input { action: InputAction::EditLabel { node: 1 }, buf: "Kid".to_string(), cursor: 0 };
    assert_eq!(app.build_status(), " editing \"Child\" → \"Kid\" ");
    app.mode = Mode::Reparent { subject: 1, orig_parent: Some(0), orig_pos: 0, cursor: 0 };
    assert_eq!(app.build_status(), " reparenting \"Child\" → child of \"Root\" ");
    app.mode = Mode::Canvas { state: CanvasState::Menu };
    app.arrow = ArrowSettings { global: true, incoming: ArrowFidelity::Selected, outgoing: ArrowFidelity::Tree };
    assert_eq!(app.build_status(), " arrow display │ global ON │ incoming selected │ outgoing tree ");
    app.mode = Mode::StartMenu { state: StartMenuState::EditSetting { key: "default_projects_path".to_string(), buf: "~/p".to_string(), cursor: 0 } };
    assert_eq!(app.build_status(), " editing default projects path: \"~/p\" ");
    app.mode = Mode::Help;
    assert_eq!(app.build_status(), " Browsing Help tree │ hjkl:navigate  z:toggle  Esc/?:close ");
}

#[test]
fn status_bar_when_linking() {
    let mut a = node("A", None, vec![]);
    let mut b = node("B", None, vec![]);
    shown(&mut a, 0, 0, 0);
    shown(&mut b, 0, 5, 1);
    a.links = vec![1];
    let mut app = canvas_app(vec![a, b]);
    app.mode = Mode::Canvas { state: CanvasState::Link { origin_id: 0 } };
    app.cursor_y = 5;
    assert_eq!(app.build_status(), " linking from \"A\"  →  \"B\"  │  1 outgoing links ");
    app.cursor_y = 0;
    assert_eq!(app.build_status(), " linking from \"A\"  →  (none)  │  1 outgoing links ");
}

#[test]
fn start_menu_status_for_a_project_entry() {
    let mut app = App::new(GlobalSettings::default(), Registry::default(), "dark".to_string(), vec![]);
    let open = app.nodes.iter().position(|n| n.parent.is_none() && n.label.to_lowercase().contains("open")).unwrap();
    app.nodes.push(node("Alpha", Some(open), vec![]));
    let id = app.nodes.len() - 1;
    app.nodes[open].children.push(id);
    app.mode = Mode::StartMenu { state: StartMenuState::Main { selected: id } };
    assert_eq!(app.build_status(), " Alpha │ Enter:select  e:name  p:path  d:remove  o/f/s/n/?:jump  j/k:nav  q/Q:quit ");
    app.mode = Mode::StartMenu { state: StartMenuState::Main { selected: 9999 } };
    assert_eq!(app.build_status(), " FILAMENT │ Enter:select  e:edit  o/f/s/n/?:jump  j/k:nav  q/Q:quit ");
}

#[test]
fn signed_numbers() {
    assert_eq!(i32_string(-2147483648), "-2147483648");
    assert_eq!(i32_string(0), "0");
    assert_eq!(i32_string(305), "305");
}

#[test]
fn depth_and_root() {
    let nodes = vec![node("r", None, vec![1]), node("a", Some(0), vec![2]), node("b", Some(1), vec![])];
    assert_eq!(node_depth(&nodes, 2), (2, 0));
    assert_eq!(node_depth(&nodes, 0), (0, 0));
}

#[test]
fn statistics_count_statuses_effort_and_deadlines() {
    let mut a = node("a", None, vec![]);
    a.tags = vec![("status".to_string(), "todo".to_string())];
    a.times = vec![("duration".to_string(), TimeTag { timestamp: 5400, pattern: None })];
    let mut b = node("b", None, vec![]);
    b.tags = vec![("status".to_string(), "completed".to_string())];
    b.times = vec![
        ("duration".to_string(), TimeTag { timestamp: 86400, pattern: None }),
        ("deadline".to_string(), TimeTag { timestamp: 1000 + 3 * 86400 + 3600, pattern: None }),
    ];
    let mut c = node("c", None, vec![]);
    c.tags = vec![("status".to_string(), "blocked".to_string())];
    c.times = vec![("deadline".to_string(), TimeTag { timestamp: 1000 + 11 * 86400, pattern: None })];
    let s = statistics_at(&[a, b, c], 0, 1000 + 3 * 86400);
    assert_eq!((s.total_nodes, s.todo, s.in_progress, s.completed, s.blocked), (3, 1, 0, 1, 1));
    assert_eq!(s.total_duration, 91800);
    assert_eq!(s.age_days, 3);
    assert_eq!(s.upcoming_deadlines, 1);
    let panel = s.panel();
    assert_eq!(panel[1], ("Statuses".to_string(), "○ 1  ◑ 0  ● 1  ⊘ 1".to_string()));
    assert_eq!(panel[2], ("Total Effort".to_string(), "1d 1h 30m".to_string()));
    assert_eq!(panel[4], ("Project Age".to_string(), "3 days".to_string()));
    assert_eq!(format_duration_stat(59), "none");
}

#[test]
fn project_created_later_has_no_age() {
    let s = statistics_at(&[], 5000, 1000);
    assert_eq!(s.age_days, 0);
    assert_eq!(s.total_nodes, 0);
}

#[test]
fn cursor_splits_a_line() {
    assert_eq!(line(&editable_line("héllo", 3)), ("hé".to_string(), Some('l'), "lo".to_string()));
    assert_eq!(line(&editable_line("abc", 3)), ("abc".to_string(), Some(' '), String::new()));
    assert_eq!(line(&editable_line("", 0)), (String::new(), Some(' '), String::new()));
}

#[test]
fn cursor_in_multi_line_content() {
    let lines: Vec<_> = editable_content("ab\ncd", 1).iter().map(line).collect();
    assert_eq!(lines, vec![
        ("a".to_string(), Some('b'), "\n".to_string()),
        ("cd".to_string(), None, String::new()),
    ]);
    let lines: Vec<_> = editable_content("ab\ncd", 5).iter().map(line).collect();
    assert_eq!(lines, vec![
        ("ab\n".to_string(), None, String::new()),
        ("cd".to_string(), Some(' '), String::new()),
    ]);
    let lines: Vec<_> = editable_content("ab\n", 3).iter().map(line).collect();
    assert_eq!(lines, vec![
        ("ab\n".to_string(), None, String::new()),
        (String::new(), Some(' '), String::new()),
    ]);
    let lines: Vec<_> = editable_content("ab\ncd", 2).iter().map(line).collect();
    assert_eq!(lines[0], ("ab".to_string(), Some('\n'), String::new()));
    assert_eq!(editable_content("", 0).len(), 1);
}

#[test]
fn titles_follow_the_mode() {
    assert!(matches!(build_title(&Mode::Canvas { state: CanvasState::Browse }), Title::Canvas));
    match build_title(&Mode::StartMenu { state: StartMenuState::EditSetting { key: "user_name".to_string(), buf: String::new(), cursor: 0 } }) {
        Title::Modal { name, role, hints } => {
            assert_eq!(name, "SETTINGS");
            assert_eq!(role, Role::Edit);
            assert_eq!(hints, "edit user name  Enter:confirm  Esc:cancel");
        },
        _ => panic!("expected a modal title"),
    }
    match build_title(&Mode::Canvas { state: CanvasState::MenuIncoming }) {
        Title::Modal { name, .. } => assert_eq!(name, "ARROWS › INCOMING"),
        _ => panic!("expected a modal title"),
    }
    assert_eq!(mode_color(&Mode::Input { action: InputAction::InsertChild { parent: 0 }, buf: String::new(), cursor: 0 }), Role::Insert);
    assert_eq!(mode_color(&Mode::Canvas { state: CanvasState::Link { origin_id: 0 } }), Role::Link);
    assert_eq!(mode_color(&Mode::Help), Role::Pick);
}

#[test]
fn highlighted_links_of_the_tree_and_of_the_selection() {
    let mut r = node("R", None, vec![1]);
    let mut a = node("A", Some(0), vec![]);
    let mut o = node("O", None, vec![]);
    shown(&mut r, 0, 0, 0);
    shown(&mut a, 2, 1, 1);
    shown(&mut o, 0, 5, 2);
    a.links = vec![2];
    o.links = vec![0];
    let mut app = canvas_app(vec![r, a, o]);
    app.selected = 0;
    app.cursor_x = 1;
    app.cursor_y = 0;
    let mut links = app.highlighted_links();
    links.sort();
    assert_eq!(links, vec![(1, 2), (2, 0)]);
    app.arrow.outgoing = ArrowFidelity::Selected;
    app.arrow.incoming = ArrowFidelity::Selected;
    assert_eq!(app.highlighted_links(), vec![(2, 0)]);
    app.cursor_y = 50;
    assert!(app.highlighted_links().is_empty());
}

#[test]
fn node_decoration() {
    let mut r = node("R", None, vec![1]);
    r.collapsed = true;
    r.tags = vec![("status".to_string(), "in_progress".to_string())];
    shown(&mut r, 0, 0, 0);
    let app = canvas_app(vec![r, node("A", Some(0), vec![])]);
    let d = app.node_decor(0, true);
    assert_eq!(d.indicator, "> ");
    assert_eq!(d.status, Some(("◑ ".to_string(), Role::StatusProgress)));
    assert_eq!(d.label_role, Role::Selected);
    assert_eq!(d.suffix, "  [+1]");
    let d = app.node_decor(1, true);
    assert_eq!((d.indicator.as_str(), d.status, d.label_role, d.suffix.as_str()), ("  ", None, Role::Node, ""));
    let mut app = app;
    app.mode = Mode::Canvas { state: CanvasState::Pick { origin_id: 1, origin_x: 0, origin_y: 0, buf: String::new(), cursor: 0 } };
    assert_eq!(app.node_decor(1, true).label_role, Role::Pick);
}

#[test]
fn goto_prompt_counts_matches() {
    assert_eq!(goto_prompt(true, 0, 0), "jump to:  ");
    assert_eq!(goto_prompt(false, 0, 0), "jump to: (no matches) ");
    assert_eq!(goto_prompt(false, 4, 1), "jump to: (2/4) ");
}

#[test]
fn arrow_menu_shows_the_settings() {
    let arrow = ArrowSettings { global: false, incoming: ArrowFidelity::Tree, outgoing: ArrowFidelity::Selected };
    let m = arrow_menu(&arrow, &Mode::Canvas { state: CanvasState::MenuOutgoing }).unwrap();
    assert_eq!((m.global.as_str(), m.incoming.as_str(), m.outgoing.as_str()), ("off", "Tree    ", "Selected"));
    assert!(!m.incoming_active && m.outgoing_active);
    assert_eq!(m.hint, "  Set: [T]ree  [S]elected  Esc=back");
    assert!(arrow_menu(&arrow, &Mode::Canvas { state: CanvasState::Browse }).is_none());
}

#[test]
fn time_tags_are_ordered_by_key() {
    let times = vec![
        ("start".to_string(), TimeTag { timestamp: 0, pattern: None }),
        ("deadline".to_string(), TimeTag { timestamp: 0, pattern: None }),
        ("end".to_string(), TimeTag { timestamp: 0, pattern: None }),
    ];
    assert_eq!(time_order(&times), vec![1, 2, 0]);
    let mut n = node("n", None, vec![]);
    n.times = times;
    let app = canvas_app(vec![n]);
    let labels = app.time_labels(0);
    assert!(labels[0].starts_with(" [deadline: ") && labels[0].ends_with(']'));
    assert!(labels[2].starts_with(" [start: "));
}

#[test]
fn insert_prompt_goes_below_the_visible_subtree() {
    let mut r = node("R", None, vec![1, 2]);
    let mut a = node("A", Some(0), vec![]);
    let b = node("B", Some(0), vec![]);
    shown(&mut r, 4, 10, 0);
    shown(&mut a, 6, 11, 1);
    let app = canvas_app(vec![r, a, b]);
    assert_eq!(app.insert_prompt_at(0), (4, 12));
}

#[test]
fn bullet_trails_follow_the_order() {
    let order = vec![(0, 0), (1, 1), (2, 2), (3, 1)];
    let is_last = compute_is_last(&order);
    let trails = bullet_trails(&order, &is_last);
    assert_eq!(trails, vec![vec![], vec![false], vec![false, true], vec![true]]);
}

#[test]
fn start_screen_layout_and_prompts() {
    let lay = start_layout(1, 1, 100, 40, 65, 6);
    assert_eq!((lay.banner_x, lay.banner_y, lay.banner_right_x), (18, 12, 83));
    assert_eq!((lay.menu_x, lay.menu_y, lay.visible_height), (18, 20, 30));
    let nodes = vec![node("A very long entry name that is wide", None, vec![]), node("b", None, vec![])];
    let order = vec![(0, 3), (1, 0)];
    assert!(widths_fit_check(&nodes, &order));
    assert_eq!(start_menu_width(&nodes, &order, 100), 47);
    assert_eq!(start_menu_width(&nodes, &order, 30), 26);
    assert_eq!(menu_row(5, 2, 10), Some(3));
    assert_eq!(menu_row(1, 2, 10), None);
    let p = start_prompt(&Mode::StartMenu { state: StartMenuState::EditSetting { key: "rename_project:/a".to_string(), buf: String::new(), cursor: 0 } });
    assert_eq!(p, Some(("rename: ".to_string(), Role::Edit)));
    let p = start_prompt(&Mode::StartMenu { state: StartMenuState::EditSetting { key: "user_name".to_string(), buf: String::new(), cursor: 0 } });
    assert_eq!(p, Some(("user name: ".to_string(), Role::Edit)));
    assert_eq!(start_prompt(&Mode::Help), None);
}

#[test]
fn menu_shortcuts_by_label() {
    let app = canvas_app(vec![node("Open Project", None, vec![1]), node("Open child", Some(0), vec![]), node("+ New Project", None, vec![])]);
    assert_eq!(app.menu_shortcut(0), Some('o'));
    assert_eq!(app.menu_shortcut(1), None);
    assert_eq!(app.menu_shortcut(2), Some('n'));
}

#[test]
fn archive_page_view() {
    let mode = Mode::ArchivePage { state: ArchiveState::EditTitle { idx: 1, buf: String::new(), cursor: 0 }, previous: Box::new(Mode::Help) };
    assert_eq!(archive_focus(&mode), (1, true, false));
    assert_eq!(archive_focus(&Mode::Help), (0, false, false));
    let notes = vec![
        ArchiveNote { id: None, title: "One".to_string(), content: String::new(), note_type: NoteType::Quick },
        ArchiveNote { id: None, title: "Two".to_string(), content: String::new(), note_type: NoteType::Quick },
    ];
    assert_eq!(note_items(&notes, 1), vec!["  One".to_string(), "> Two".to_string()]);
    let app = canvas_app(vec![node("Alpha", None, vec![])]);
    assert_eq!(app.reference_marks("see @Alpha and @Beta."), vec![("Alpha".to_string(), true), ("Beta".to_string(), false)]);
}

#[test]
fn mode_checks() {
    let nodes = vec![node("R", None, vec![])];
    assert!(mode_valid(&Mode::Input { action: InputAction::EditLabel { node: 0 }, buf: "é".to_string(), cursor: 2 }, &nodes));
    assert!(!mode_valid(&Mode::Input { action: InputAction::EditLabel { node: 0 }, buf: "é".to_string(), cursor: 1 }, &nodes));
    assert!(!mode_valid(&Mode::Input { action: InputAction::EditLabel { node: 3 }, buf: String::new(), cursor: 0 }, &nodes));
    assert!(mode_valid(&Mode::Canvas { state: CanvasState::Browse }, &nodes));
}

#[test]
fn a_link_to_the_right_on_the_same_row() {
    let mut buf = ArrowBuf::new();
    route_link_into_buf(&mut buf, 20, 5, 0, 0, &[], 0, 0, 3, 10, 0, 14);
    for x in 4..9 {
        assert_eq!(buf.get(x, 0), Some((CE | CW, None)));
    }
    assert_eq!(buf.get(9, 0), Some((CW, Some(CW))));
    assert_eq!(ArrowBuf::char_for(CW, Some(CW)), '→');
    assert_eq!(buf.get(3, 0), None);
    assert_eq!(buf.get(10, 0), None);
}

#[test]
fn a_link_to_the_left_turns_down_a_column() {
    let mut buf = ArrowBuf::new();
    route_link_into_buf(&mut buf, 30, 10, 0, 0, &[], 12, 1, 16, 2, 4, 5);
    // From the origin's left side along row 1 to column 7, down it, and
    // along row 4 to an arrowhead right of the target.
    assert_eq!(buf.get(11, 1), Some((CE | CW, None)));
    assert_eq!(buf.get(7, 1), Some((CE | CS, None)));
    assert_eq!(buf.get(7, 2), Some((CN | CS, None)));
    assert_eq!(buf.get(7, 4), Some((CW | CN, None)));
    assert_eq!(buf.get(6, 4), Some((CE, Some(CE))));
    assert_eq!(buf.get(5, 4), None);
    assert_eq!(buf.get(12, 1), None);
}

#[test]
fn layout_that_would_overflow_is_refused() {
    let mut far = node("abc", None, vec![]);
    far.world_x = i32::MAX - 3;
    let mut app = canvas_app(vec![far]);
    assert!(app.try_recompute_layout().is_none());
    assert_eq!(app.nodes[0].label, "abc");
    let mut app = canvas_app(vec![node("abc", None, vec![1]), node("d", Some(0), vec![])]);
    app.nodes[0].world_x = 5;
    let order = app.try_recompute_layout().unwrap();
    assert_eq!(order, vec![(0, 0), (1, 1)]);
    assert_eq!(app.nodes[0].world_x_end, 10);
    assert_eq!((app.nodes[1].world_x, app.nodes[1].world_y), (5, 1));
}

#[test]
fn statistics_are_there_when_durations_add_up() {
    let mut a = node("a", None, vec![]);
    a.times = vec![("duration".to_string(), TimeTag { timestamp: 60, pattern: None })];
    let app = canvas_app(vec![a]);
    let s = app.statistics().unwrap();
    assert_eq!((s.total_nodes, s.total_duration), (1, 60));
    let mut b = node("b", None, vec![]);
    b.times = vec![("duration".to_string(), TimeTag { timestamp: i64::MAX, pattern: None })];
    let mut c = node("c", None, vec![]);
    c.times = vec![("duration".to_string(), TimeTag { timestamp: 1, pattern: None })];
    assert!(canvas_app(vec![b, c]).statistics().is_none());
}

#[test]
fn nothing_recurring_nothing_advanced() {
    let mut a = node("a", None, vec![]);
    a.times = vec![("deadline".to_string(), TimeTag { timestamp: 5, pattern: None })];
    let mut app = canvas_app(vec![a]);
    assert!(!app.advance_recurring(1000));
    assert_eq!(app.nodes[0].times[0].1.timestamp, 5);
}
