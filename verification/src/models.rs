use vstd::prelude::*;

verus! {

/// A point in time attached to a node, optionally recurring.
pub struct TimeTag {
    pub timestamp: i64,
    /// Recurrence pattern in plain English ("every friday"), if any.
    pub pattern: Option<String>,
}

/// The kinds of virtual nodes that mirror another node's metadata.
#[derive(Debug, PartialEq)]
pub enum ManagedNodeType {
    TimeGroup,
    TimeTag { key: String },
}

/// One node of the canvas forest.
pub struct Node {
    pub label: String,
    pub parent: Option<usize>,
    pub children: Vec<usize>,
    /// Outgoing logical links to other nodes (by index).
    pub links: Vec<usize>,
    pub collapsed: bool,
    /// Row in the combined visible list (`usize::MAX` = hidden).
    pub row: usize,
    /// World-space anchor of the node.
    pub world_x: i32,
    pub world_y: i32,
    /// Right anchor, recomputed by the layout.
    pub world_x_end: i32,
    /// Key-value metadata tags (e.g. "status" => "todo"); keys are distinct
    /// (`tag_keys_distinct`).
    pub tags: Vec<(String, String)>,
    /// Time tags (e.g. "deadline" => TimeTag); keys are distinct
    /// (`managed::keys_distinct`).
    pub times: Vec<(String, TimeTag)>,
    /// True when the node stands for an archive note (the label is its title).
    pub is_managed_note: bool,
    /// Set when the node is a virtual node mirroring another node's metadata.
    pub managed: Option<ManagedNodeType>,
}

/// No two tags of a list share a key.
pub open spec fn tag_keys_distinct(tags: Seq<(String, String)>) -> bool {
    forall|a: int, b: int| 0 <= a < b < tags.len() ==> (#[trigger] tags[a]).0@ != (#[trigger] tags[b]).0@
}

/// Two nodes agree in every field (list fields compared by their contents).
pub open spec fn same_node(a: Node, b: Node) -> bool {
    &&& a.label == b.label
    &&& a.parent == b.parent
    &&& a.children@ == b.children@
    &&& a.links@ == b.links@
    &&& a.collapsed == b.collapsed
    &&& a.row == b.row
    &&& a.world_x == b.world_x
    &&& a.world_y == b.world_y
    &&& a.world_x_end == b.world_x_end
    &&& a.tags@ == b.tags@
    &&& a.times@ == b.times@
    &&& a.is_managed_note == b.is_managed_note
    &&& a.managed == b.managed
}

/// Two node lists agree element by element.
pub open spec fn same_nodes(a: Seq<Node>, b: Seq<Node>) -> bool {
    &&& a.len() == b.len()
    &&& forall|i: int| 0 <= i < a.len() ==> same_node(#[trigger] a[i], b[i])
}

/// The row value of a node that is not on screen.
pub open spec fn hidden_row() -> usize {
    usize::MAX
}

/// The kind of an archive note.
#[derive(Clone, Copy, PartialEq, Eq, Structural, Debug)]
pub enum NoteType {
    Quick,
    Reference,
}

impl Default for NoteType {
    fn default() -> (r: Self)
        ensures
            r == NoteType::Quick,
    {
        NoteType::Quick
    }
}

/// A note of the archive page.
pub struct ArchiveNote {
    pub id: Option<i64>,
    pub title: String,
    pub content: String,
    pub note_type: NoteType,
}

/// A named query of the status page.
pub struct StatusQuery {
    pub id: Option<i64>,
    pub name: String,
    pub logic: String,
}

impl ManagedNodeType {
    pub fn clone_value(&self) -> (r: Self)
        ensures
            r == *self,
    {
        match self {
            ManagedNodeType::TimeGroup => ManagedNodeType::TimeGroup,
            ManagedNodeType::TimeTag { key } => ManagedNodeType::TimeTag { key: key.clone() },
        }
    }
}

pub fn clone_opt_string(s: &Option<String>) -> (r: Option<String>)
    ensures
        r == *s,
{
    match s {
        Some(x) => Some(x.clone()),
        None => None,
    }
}

pub fn clone_usizes(v: &Vec<usize>) -> (r: Vec<usize>)
    ensures
        r@ == v@,
{
    let mut r: Vec<usize> = Vec::new();
    let mut i: usize = 0;
    while i < v.len()
        invariant
            i <= v.len(),
            r@ == v@.take(i as int),
        decreases v.len() - i,
    {
        r.push(v[i]);
        i = i + 1;
        assert(r@ =~= v@.take(i as int));
    }
    assert(v@.take(v.len() as int) =~= v@);
    r
}

pub fn clone_tags(v: &Vec<(String, String)>) -> (r: Vec<(String, String)>)
    ensures
        r@ == v@,
{
    let mut r: Vec<(String, String)> = Vec::new();
    let mut i: usize = 0;
    while i < v.len()
        invariant
            i <= v.len(),
            r@ == v@.take(i as int),
        decreases v.len() - i,
    {
        let e = (v[i].0.clone(), v[i].1.clone());
        r.push(e);
        i = i + 1;
        assert(r@ =~= v@.take(i as int));
    }
    assert(v@.take(v.len() as int) =~= v@);
    r
}

impl TimeTag {
    pub fn clone_value(&self) -> (r: Self)
        ensures
            r == *self,
    {
        TimeTag { timestamp: self.timestamp, pattern: clone_opt_string(&self.pattern) }
    }
}

pub fn clone_times(v: &Vec<(String, TimeTag)>) -> (r: Vec<(String, TimeTag)>)
    ensures
        r@ == v@,
{
    let mut r: Vec<(String, TimeTag)> = Vec::new();
    let mut i: usize = 0;
    while i < v.len()
        invariant
            i <= v.len(),
            r@ == v@.take(i as int),
        decreases v.len() - i,
    {
        let e = (v[i].0.clone(), v[i].1.clone_value());
        r.push(e);
        i = i + 1;
        assert(r@ =~= v@.take(i as int));
    }
    assert(v@.take(v.len() as int) =~= v@);
    r
}

impl Node {
    /// A copy of the node, equal to it in every field.
    pub fn clone_value(&self) -> (r: Self)
        ensures
            same_node(r, *self),
    {
        Node {
            label: self.label.clone(),
            parent: self.parent,
            children: clone_usizes(&self.children),
            links: clone_usizes(&self.links),
            collapsed: self.collapsed,
            row: self.row,
            world_x: self.world_x,
            world_y: self.world_y,
            world_x_end: self.world_x_end,
            tags: clone_tags(&self.tags),
            times: clone_times(&self.times),
            is_managed_note: self.is_managed_note,
            managed: match &self.managed {
                Some(m) => Some(m.clone_value()),
                None => None,
            },
        }
    }

    /// A fresh node with the given label and parent and no metadata.
    pub fn plain(label: String, parent: Option<usize>, collapsed: bool, row: usize, world_x: i32, world_y: i32) -> (r: Self)
        ensures
            r.label == label,
            r.parent == parent,
            r.children@.len() == 0,
            r.links@.len() == 0,
            r.collapsed == collapsed,
            r.row == row,
            r.world_x == world_x,
            r.world_y == world_y,
            r.world_x_end == 0,
            r.tags@.len() == 0,
            r.times@.len() == 0,
            !r.is_managed_note,
            r.managed.is_none(),
    {
        Node {
            label,
            parent,
            children: Vec::new(),
            links: Vec::new(),
            collapsed,
            row,
            world_x,
            world_y,
            world_x_end: 0,
            tags: Vec::new(),
            times: Vec::new(),
            is_managed_note: false,
            managed: None,
        }
    }
}

/// A copy of a node list, agreeing with it element by element.
pub fn clone_nodes(v: &Vec<Node>) -> (r: Vec<Node>)
    ensures
        same_nodes(r@, v@),
{
    let mut r: Vec<Node> = Vec::new();
    let mut i: usize = 0;
    while i < v.len()
        invariant
            i <= v.len(),
            r@.len() == i,
            forall|k: int| 0 <= k < i ==> same_node(#[trigger] r@[k], v@[k]),
        decreases v.len() - i,
    {
        r.push(v[i].clone_value());
        i = i + 1;
    }
    r
}

impl StatusQuery {
    pub fn clone_value(&self) -> (r: Self)
        ensures
            r == *self,
    {
        StatusQuery { id: self.id, name: self.name.clone(), logic: self.logic.clone() }
    }
}

impl ArchiveNote {
    pub fn clone_value(&self) -> (r: Self)
        ensures
            r == *self,
    {
        ArchiveNote {
            id: self.id,
            title: self.title.clone(),
            content: self.content.clone(),
            note_type: self.note_type,
        }
    }
}

pub fn clone_queries(v: &Vec<StatusQuery>) -> (r: Vec<StatusQuery>)
    ensures
        r@ == v@,
{
    let mut r: Vec<StatusQuery> = Vec::new();
    let mut i: usize = 0;
    while i < v.len()
        invariant
            i <= v.len(),
            r@ == v@.take(i as int),
        decreases v.len() - i,
    {
        r.push(v[i].clone_value());
        i = i + 1;
        assert(r@ =~= v@.take(i as int));
    }
    assert(v@.take(v.len() as int) =~= v@);
    r
}

pub fn clone_notes(v: &Vec<ArchiveNote>) -> (r: Vec<ArchiveNote>)
    ensures
        r@ == v@,
{
    let mut r: Vec<ArchiveNote> = Vec::new();
    let mut i: usize = 0;
    while i < v.len()
        invariant
            i <= v.len(),
            r@ == v@.take(i as int),
        decreases v.len() - i,
    {
        r.push(v[i].clone_value());
        i = i + 1;
        assert(r@ =~= v@.take(i as int));
    }
    assert(v@.take(v.len() as int) =~= v@);
    r
}

pub fn clone_strings(v: &Vec<String>) -> (r: Vec<String>)
    ensures
        r@ == v@,
{
    let mut r: Vec<String> = Vec::new();
    let mut i: usize = 0;
    while i < v.len()
        invariant
            i <= v.len(),
            r@ == v@.take(i as int),
        decreases v.len() - i,
    {
        r.push(v[i].clone());
        i = i + 1;
        assert(r@ =~= v@.take(i as int));
    }
    assert(v@.take(v.len() as int) =~= v@);
    r
}

} // verus!
