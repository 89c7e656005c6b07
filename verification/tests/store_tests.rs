use filament::models::{ManagedNodeType, Node, TimeTag};
use filament::store::{index_of_id, rebuild_nodes, save_plan, topo_order, NodeRecord, SavePlan, TagRecord, TimeRecord};

fn node(label: &str, parent: Option<usize>, children: Vec<usize>) -> Node {
    Node {
        label: label.to_string(),
        parent,
        children,
        links: vec![],
        collapsed: false,
        row: 0,
        world_x: 0,
        world_y: 0,
        world_x_end: 0,
        tags: vec![],
        times: vec![],
        is_managed_note: false,
        managed: None,
    }
}

/// What a database does with a save: rows get ids 1, 2, ... in order.
fn stored(nodes: &Vec<Node>, plan: &SavePlan) -> (Vec<NodeRecord>, Vec<(i64, i64)>, Vec<TagRecord>, Vec<TimeRecord>) {
    let mut recs = Vec::new();
    let mut tags = Vec::new();
    let mut times = Vec::new();
    for (k, row) in plan.rows.iter().enumerate() {
        let n = &nodes[row.node];
        let id = k as i64 + 1;
        recs.push(NodeRecord {
            id,
            label: n.label.clone(),
            parent_id: row.parent_row.map(|p| p as i64 + 1),
            collapsed: n.collapsed,
            world_x: n.world_x,
            world_y: n.world_y,
            is_managed_note: n.is_managed_note,
        });
        for (key, value) in &n.tags {
            tags.push(TagRecord { node_id: id, key: key.clone(), value: value.clone() });
        }
        for (key, t) in &n.times {
            times.push(TimeRecord { node_id: id, key: key.clone(), timestamp: t.timestamp, pattern: t.pattern.clone() });
        }
    }
    let links = plan.links.iter().map(|&(s, t)| (s as i64 + 1, t as i64 + 1)).collect();
    (recs, links, tags, times)
}

#[test]
fn test_managed_nodes_not_saved() {
    let mut managed = node("Managed", Some(0), vec![]);
    managed.managed = Some(ManagedNodeType::TimeGroup);
    let nodes = vec![node("Root", None, vec![1]), managed];
    let plan = save_plan(&nodes);
    let (recs, links, tags, times) = stored(&nodes, &plan);
    let loaded = rebuild_nodes(&recs, &links, &tags, &times);
    assert_eq!(loaded.len(), 1);
    assert_eq!(loaded[0].label, "Root");
}

#[test]
fn save_order_puts_parents_first() {
    let nodes = vec![
        node("b", Some(2), vec![]),
        node("other root", None, vec![]),
        node("a", None, vec![0, 3]),
        node("c", Some(2), vec![]),
    ];
    assert_eq!(topo_order(&nodes), vec![1, 2, 0, 3]);
    let plan = save_plan(&nodes);
    assert_eq!(plan.rows.len(), 4);
    assert_eq!(plan.rows[2].node, 0);
    assert_eq!(plan.rows[2].parent_row, Some(1));
    assert_eq!(plan.rows[2].sort_key, 0);
    assert_eq!(plan.rows[3].sort_key, 1);
    assert_eq!(plan.node_rows, vec![Some(2), Some(0), Some(1), Some(3)]);
}

#[test]
fn save_then_load_gives_the_tree_back() {
    let mut a = node("a", None, vec![1, 2]);
    a.links = vec![2, 2];
    a.tags.push(("status".to_string(), "done".to_string()));
    a.world_x = 4;
    a.world_y = -2;
    let mut b = node("b", Some(0), vec![]);
    b.times.push(("deadline".to_string(), TimeTag { timestamp: 100, pattern: Some("every friday".to_string()) }));
    let c = node("c", Some(0), vec![]);
    let nodes = vec![a, b, c];
    let plan = save_plan(&nodes);
    let (recs, links, tags, times) = stored(&nodes, &plan);
    let loaded = rebuild_nodes(&recs, &links, &tags, &times);
    assert_eq!(loaded.len(), 3);
    assert_eq!(loaded[0].label, "a");
    assert_eq!(loaded[0].children, vec![1, 2]);
    assert_eq!(loaded[0].links, vec![2, 2]);
    assert_eq!(loaded[0].tags, vec![("status".to_string(), "done".to_string())]);
    assert_eq!((loaded[0].world_x, loaded[0].world_y), (4, -2));
    assert_eq!(loaded[1].parent, Some(0));
    assert_eq!(loaded[1].times.len(), 1);
    assert_eq!(loaded[1].times[0].1.pattern, Some("every friday".to_string()));
    assert_eq!(loaded[2].row, usize::MAX);
    assert_eq!(index_of_id(&recs, 2), Some(1));
    assert_eq!(index_of_id(&recs, 9), None);
}

#[test]
fn later_tags_replace_earlier_ones() {
    let recs = vec![NodeRecord { id: 7, label: "x".to_string(), parent_id: None, collapsed: true, world_x: 0, world_y: 0, is_managed_note: false }];
    let tags = vec![
        TagRecord { node_id: 7, key: "status".to_string(), value: "todo".to_string() },
        TagRecord { node_id: 7, key: "owner".to_string(), value: "me".to_string() },
        TagRecord { node_id: 7, key: "status".to_string(), value: "done".to_string() },
        TagRecord { node_id: 8, key: "lost".to_string(), value: "tag".to_string() },
    ];
    let loaded = rebuild_nodes(&recs, &vec![(7, 8)], &tags, &vec![]);
    assert_eq!(loaded[0].tags, vec![("status".to_string(), "done".to_string()), ("owner".to_string(), "me".to_string())]);
    assert!(loaded[0].links.is_empty());
    assert!(loaded[0].collapsed);
}
