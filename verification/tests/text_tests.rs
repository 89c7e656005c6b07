use filament::archive::find_references;
use filament::buffer::{buf_backspace, buf_insert, move_cursor_in_buf};
use filament::duration::{format_duration, format_duration_stat};
use filament::goto::fuzzy_match;
use filament::models::{Node, TimeTag};
use filament::persistence::{db_path, expand_home, project_dir, settings_path};
use filament::prefix::{box_prefix, build_trail_for, compute_insert_trail, compute_is_last};
use filament::query::evaluate;
use filament::start_menu::import_matches;
use filament::text::{has_prefix, parse_coords, strip_prefixes};
use filament::widgets::{col_clear_vert, find_clear_col, ArrowBuf, CE, CN, CS, CW};

fn node(label: &str, parent: Option<usize>, children: Vec<usize>) -> Node {
    Node {
        label: label.to_string(),
        parent,
        children,
        links: vec![],
        collapsed: false,
        row: 0,
        world_x: 0,
        world_y: 0,
        world_x_end: 0,
        tags: vec![],
        times: vec![],
        is_managed_note: false,
        managed: None,
    }
}

#[test]
fn duration_text_has_every_nonzero_unit() {
    assert_eq!(format_duration(90061), "1d 1h 1m 1s");
    assert_eq!(format_duration(0), "0s");
    assert_eq!(format_duration(-3600), "-1h");
    assert_eq!(format_duration(59), "59s");
    assert_eq!(format_duration(120), "2m");
}

#[test]
fn duration_stat_drops_seconds() {
    assert_eq!(format_duration_stat(0), "none");
    assert_eq!(format_duration_stat(59), "none");
    assert_eq!(format_duration_stat(3661), "1h 1m");
    assert_eq!(format_duration_stat(2 * 86400 + 59), "2d");
    assert_eq!(format_duration_stat(-90000), "1d 1h");
}

#[test]
fn fuzzy_match_finds_characters_in_order() {
    assert!(fuzzy_match("hello world", "hlwd"));
    assert!(!fuzzy_match("Hello World", "hwd"));
    assert!(!fuzzy_match("abc", "acb"));
    assert!(fuzzy_match("abc", ""));
    assert!(!fuzzy_match("", "a"));
}

#[test]
fn box_prefix_draws_branches() {
    assert_eq!(box_prefix(&[]), "");
    assert_eq!(box_prefix(&[true]), "╰─");
    assert_eq!(box_prefix(&[false, true]), "│ ╰─");
    assert_eq!(box_prefix(&[true, false]), "  ├─");
}

#[test]
fn is_last_and_trails() {
    let order = vec![(0usize, 0usize), (1, 1), (2, 1), (3, 2)];
    let last = compute_is_last(&order);
    assert_eq!(last, vec![true, false, true, true]);
    assert_eq!(build_trail_for(&order, &last, 3, 2), vec![true, true]);
    assert_eq!(build_trail_for(&order, &last, 1, 1), vec![false]);
    assert_eq!(build_trail_for(&order, &last, 0, 0), Vec::<bool>::new());
}

#[test]
fn insert_trail_follows_the_ancestors() {
    let nodes = vec![
        node("root", None, vec![1, 2]),
        node("a", Some(0), vec![]),
        node("b", Some(0), vec![3]),
        node("c", Some(2), vec![]),
    ];
    assert_eq!(compute_insert_trail(&nodes, 1), vec![false, true]);
    assert_eq!(compute_insert_trail(&nodes, 3), vec![true, true, true]);
    assert_eq!(compute_insert_trail(&nodes, 0), vec![true]);
}

#[test]
fn coordinates_parse_as_x_comma_y() {
    assert_eq!(parse_coords(&"3,-4".to_string()), Some((3, -4)));
    assert_eq!(parse_coords(&"3".to_string()), None);
    assert_eq!(parse_coords(&"a,1".to_string()), None);
    assert_eq!(parse_coords(&"1,2,3".to_string()), None);
}

#[test]
fn queries_match_tags_and_labels() {
    let mut n = node("Write Report", None, vec![]);
    n.tags.push(("status".to_string(), "todo".to_string()));
    assert!(evaluate("", &n));
    assert!(evaluate("  ", &n));
    assert!(evaluate("status:todo", &n));
    assert!(evaluate("status: todo", &n));
    assert!(!evaluate("status:done", &n));
    assert!(evaluate("report", &n));
    assert!(evaluate("REPORT AND status:todo", &n));
    assert!(!evaluate("report AND status:done", &n));
    assert!(!evaluate("deadline < tomorrow", &n));
}

#[test]
fn time_queries_compare_with_parsed_dates() {
    let mut n = node("Task", None, vec![]);
    n.times.push(("deadline".to_string(), TimeTag { timestamp: 0, pattern: None }));
    assert!(evaluate("deadline < tomorrow", &n));
    assert!(!evaluate("deadline > tomorrow", &n));
}

#[test]
fn references_are_at_words() {
    let r = find_references("see @Alpha, and @beta_2 but not a@b or @ alone");
    assert_eq!(r, vec!["Alpha".to_string(), "beta_2".to_string()]);
}

#[test]
fn typing_and_deleting_in_a_buffer() {
    let mut buf = String::from("aé");
    let mut cursor = 1usize;
    buf_insert(&mut buf, &mut cursor, 'ß');
    assert_eq!(buf, "aßé");
    assert_eq!(cursor, 3);
    buf_backspace(&mut buf, &mut cursor);
    assert_eq!(buf, "aé");
    assert_eq!(cursor, 1);
    move_cursor_in_buf(&buf, &mut cursor, 1);
    assert_eq!(cursor, 3);
    move_cursor_in_buf(&buf, &mut cursor, 1);
    assert_eq!(cursor, 3);
    move_cursor_in_buf(&buf, &mut cursor, -1);
    assert_eq!(cursor, 1);
    let mut at_start = 0usize;
    buf_backspace(&mut buf, &mut at_start);
    assert_eq!(buf, "aé");
    assert_eq!(at_start, 0);
}

#[test]
fn arrow_cells_combine_directions() {
    let mut buf = ArrowBuf::new();
    buf.add_seg(1, 1, CE | CW);
    assert_eq!(ArrowBuf::char_for(buf.get(1, 1).unwrap().0, None), '╌');
    buf.add_seg(1, 1, CN);
    assert_eq!(ArrowBuf::char_for(buf.get(1, 1).unwrap().0, None), '┴');
    buf.add_terminal(2, 2, CW);
    let c = buf.get(2, 2).unwrap();
    assert_eq!(ArrowBuf::char_for(c.0, c.1), '→');
    assert_eq!(ArrowBuf::char_for(CS | CE, None), '╭');
    assert_eq!(ArrowBuf::char_for(CN | CS | CE | CW, None), '┼');
    assert_eq!(ArrowBuf::char_for(CN, Some(CN)), '↓');
    assert!(buf.get(0, 0).is_none());
}

#[test]
fn clear_columns_avoid_nodes() {
    let nodes = vec![(0, 5, 10)];
    assert!(!col_clear_vert(&nodes, 4, 0, 10));
    assert!(col_clear_vert(&nodes, 11, 0, 10));
    assert!(col_clear_vert(&nodes, 4, 5, 6));
    assert_eq!(find_clear_col(&nodes, 8, 20, 0, 10), 11);
    assert_eq!(find_clear_col(&nodes, 8, 3, 0, 10), 8);
    assert_eq!(find_clear_col(&nodes, 8, -5, 0, 10), -1);
}

#[test]
fn import_matches_filter_and_cap() {
    let found: Vec<String> = (0..30).map(|i| format!("/p/Proj{}", i)).collect();
    let all = import_matches(&found, "");
    assert_eq!(all.len(), 20);
    assert_eq!(all[0], "/p/Proj0");
    let some = import_matches(&found, "PROJ2");
    assert_eq!(some, vec!["/p/Proj2".to_string(), "/p/Proj20".to_string(), "/p/Proj21".to_string(), "/p/Proj22".to_string(),
        "/p/Proj23".to_string(), "/p/Proj24".to_string(), "/p/Proj25".to_string(), "/p/Proj26".to_string(),
        "/p/Proj27".to_string(), "/p/Proj28".to_string(), "/p/Proj29".to_string()]);
}

#[test]
fn home_expansion_and_prefixes() {
    assert_eq!(expand_home("~/work", Some("/home/u".to_string())), "/home/u/work");
    assert_eq!(expand_home("~", Some("/home/u".to_string())), "/home/u/~");
    assert_eq!(expand_home("~/work", None), "~/work");
    assert_eq!(expand_home("/abs", Some("/home/u".to_string())), "/abs");
    assert!(has_prefix("rename_project:3", "rename_project:"));
    assert!(!has_prefix("x", "xy"));
    assert_eq!(strip_prefixes("• • dark", "• "), "dark");
}

#[test]
fn project_paths() {
    assert_eq!(project_dir("/p"), "/p/.filament");
    assert_eq!(settings_path("/p"), "/p/.filament/project.toml");
    assert_eq!(db_path("/p"), "/p/.filament/canvas.db");
}
