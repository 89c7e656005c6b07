//! The statistics shown at the top of the status page: node and status
//! counts, total effort, deadlines in the coming week and project age.

use vstd::prelude::*;
use crate::app::App;
use crate::clock::now_secs;
use crate::duration::{decimal, decimal_string, duration_stat_text, format_duration_stat};
use crate::models::Node;
use crate::query::{tag_equals, tag_value, time_of, time_value};

verus! {

/// Seconds in a week.
pub const WEEK_SECS: i64 = 604800;

/// The number of nodes whose "status" tag is `word`.
pub open spec fn status_count(ns: Seq<Node>, word: Seq<char>) -> nat
    decreases ns.len(),
{
    if ns.len() == 0 {
        0
    } else {
        status_count(ns.drop_last(), word) + if tag_value(ns.last(), "status"@) == Some(word) {
            1nat
        } else {
            0nat
        }
    }
}

/// The sum of the "duration" time tags of the nodes.
pub open spec fn duration_sum(ns: Seq<Node>) -> int
    decreases ns.len(),
{
    if ns.len() == 0 {
        0
    } else {
        duration_sum(ns.drop_last()) + match time_value(ns.last(), "duration"@) {
            Some(t) => t as int,
            None => 0,
        }
    }
}

/// Every running total of the "duration" tags fits in `i64`, and the total
/// has an absolute value in `i64` too.
pub open spec fn durations_fit_spec(ns: Seq<Node>) -> bool {
    &&& forall|m: int| 0 <= m <= ns.len() ==> i64::MIN <= #[trigger] duration_sum(ns.take(m)) <= i64::MAX
    &&& duration_sum(ns) != i64::MIN
}

/// A "deadline" time tag strictly between `now` and a week later.
pub open spec fn deadline_soon(n: Node, now: int) -> bool {
    time_value(n, "deadline"@) matches Some(t) && now < t < now + WEEK_SECS
}

/// The number of nodes with a deadline in the coming week.
pub open spec fn upcoming_count(ns: Seq<Node>, now: int) -> nat
    decreases ns.len(),
{
    if ns.len() == 0 {
        0
    } else {
        upcoming_count(ns.drop_last(), now) + if deadline_soon(ns.last(), now) {
            1nat
        } else {
            0nat
        }
    }
}

/// Whole days from `created_at` to `now` (seconds since the epoch, `now`
/// taken as unsigned), none when `now` is earlier.
pub open spec fn age_days_spec(created_at: u64, now: i64) -> nat {
    let n = now as u64;
    if n >= created_at {
        ((n - created_at) / 86400) as nat
    } else {
        0
    }
}

/// The figures of the statistics panel.
pub struct ProjectStats {
    pub total_nodes: usize,
    pub todo: usize,
    pub in_progress: usize,
    pub completed: usize,
    pub blocked: usize,
    /// Sum of the "duration" time tags, in seconds.
    pub total_duration: i64,
    /// Nodes with a deadline within the next seven days.
    pub upcoming_deadlines: usize,
    pub age_days: u64,
}

/// `s` holds the statistics of `ns` at time `now` for a project created at
/// `created_at`.
pub open spec fn stats_of(s: ProjectStats, ns: Seq<Node>, created_at: u64, now: i64) -> bool {
    &&& s.total_nodes == ns.len()
    &&& s.todo == status_count(ns, "todo"@)
    &&& s.in_progress == status_count(ns, "in_progress"@)
    &&& s.completed == status_count(ns, "completed"@)
    &&& s.blocked == status_count(ns, "blocked"@)
    &&& s.total_duration == duration_sum(ns)
    &&& s.upcoming_deadlines == upcoming_count(ns, now as int)
    &&& s.age_days == age_days_spec(created_at, now)
}

/// Whether the "duration" tags of `nodes` can be added up in `i64` (see
/// `durations_fit_spec`).
pub fn durations_fit(nodes: &[Node]) -> (r: bool)
    ensures
        r == durations_fit_spec(nodes@),
{
    let ghost ns = nodes@;
    let mut acc: i64 = 0;
    let mut i: usize = 0;
    proof {
        assert(ns.take(0) =~= Seq::<Node>::empty());
    }
    while i < nodes.len()
        invariant
            i <= ns.len(),
            ns == nodes@,
            acc == duration_sum(ns.take(i as int)),
            forall|m: int| 0 <= m <= i ==> i64::MIN <= #[trigger] duration_sum(ns.take(m)) <= i64::MAX,
        decreases ns.len() - i,
    {
        let d: i64 = match time_of(&nodes[i], "duration") {
            Some(t) => t,
            None => 0,
        };
        proof {
            assert(ns.take(i as int + 1).drop_last() =~= ns.take(i as int));
            assert(ns.take(i as int + 1).last() == ns[i as int]);
        }
        match acc.checked_add(d) {
            Some(v) => {
                acc = v;
            },
            None => {
                proof {
                    assert(!(i64::MIN <= duration_sum(ns.take(i as int + 1)) <= i64::MAX));
                }
                return false;
            },
        }
        i = i + 1;
    }
    proof {
        assert(ns.take(ns.len() as int) =~= ns);
    }
    acc != i64::MIN
}

/// The statistics of `nodes` at time `now` (seconds since the epoch) for a
/// project created at `created_at`.
pub fn statistics_at(nodes: &[Node], created_at: u64, now: i64) -> (s: ProjectStats)
    requires
        durations_fit_spec(nodes@),
        now <= i64::MAX - WEEK_SECS,
    ensures
        stats_of(s, nodes@, created_at, now),
{
    let ghost ns = nodes@;
    let week_later = now + WEEK_SECS;
    let mut todo: usize = 0;
    let mut in_progress: usize = 0;
    let mut completed: usize = 0;
    let mut blocked: usize = 0;
    let mut total: i64 = 0;
    let mut upcoming: usize = 0;
    let mut i: usize = 0;
    proof {
        assert(ns.take(0) =~= Seq::<Node>::empty());
    }
    while i < nodes.len()
        invariant
            i <= ns.len(),
            ns == nodes@,
            durations_fit_spec(ns),
            week_later == now + WEEK_SECS,
            todo == status_count(ns.take(i as int), "todo"@),
            in_progress == status_count(ns.take(i as int), "in_progress"@),
            completed == status_count(ns.take(i as int), "completed"@),
            blocked == status_count(ns.take(i as int), "blocked"@),
            total == duration_sum(ns.take(i as int)),
            upcoming == upcoming_count(ns.take(i as int), now as int),
            todo <= i,
            in_progress <= i,
            completed <= i,
            blocked <= i,
            upcoming <= i,
        decreases ns.len() - i,
    {
        let n = &nodes[i];
        proof {
            assert(ns.take(i as int + 1).drop_last() =~= ns.take(i as int));
            assert(ns.take(i as int + 1).last() == ns[i as int]);
        }
        if tag_equals(n, "status", "todo") {
            todo = todo + 1;
        }
        if tag_equals(n, "status", "in_progress") {
            in_progress = in_progress + 1;
        }
        if tag_equals(n, "status", "completed") {
            completed = completed + 1;
        }
        if tag_equals(n, "status", "blocked") {
            blocked = blocked + 1;
        }
        if let Some(t) = time_of(n, "duration") {
            proof {
                assert(i64::MIN <= duration_sum(ns.take(i as int + 1)) <= i64::MAX);
            }
            total = total + t;
        }
        if let Some(t) = time_of(n, "deadline") {
            if now < t && t < week_later {
                upcoming = upcoming + 1;
            }
        }
        i = i + 1;
    }
    proof {
        assert(ns.take(ns.len() as int) =~= ns);
    }
    let n = now as u64;
    let age = if n >= created_at { (n - created_at) / 86400 } else { 0 };
    ProjectStats {
        total_nodes: nodes.len(),
        todo,
        in_progress,
        completed,
        blocked,
        total_duration: total,
        upcoming_deadlines: upcoming,
        age_days: age,
    }
}

impl App {
    /// The statistics of the open project now, or `None` when the durations
    /// cannot be added up in `i64`.
    pub fn statistics(&self) -> (r: Option<ProjectStats>)
        ensures
            r is Some <==> durations_fit_spec(self.nodes@),
            r matches Some(st) ==> exists|now: i64| #[trigger] stats_of(st, self.nodes@, self.project_created_at, now),
    {
        if !durations_fit(self.nodes.as_slice()) {
            return None;
        }
        let clock = now_secs();
        let now = if clock > i64::MAX - WEEK_SECS {
            i64::MAX - WEEK_SECS
        } else {
            clock
        };
        let st = statistics_at(self.nodes.as_slice(), self.project_created_at, now);
        let r = Some(st);
        assert(r matches Some(x) && stats_of(x, self.nodes@, self.project_created_at, now));
        r
    }
}

/// The "Statuses" figure: the four status counts after their symbols.
pub open spec fn statuses_text(s: ProjectStats) -> Seq<char> {
    "○ "@ + decimal(s.todo as nat) + "  ◑ "@ + decimal(s.in_progress as nat) + "  ● "@ + decimal(s.completed as nat)
        + "  ⊘ "@ + decimal(s.blocked as nat)
}

/// The five (label, value) pairs of the statistics panel.
pub open spec fn panel_text(s: ProjectStats) -> Seq<(Seq<char>, Seq<char>)> {
    seq![
        ("Total Nodes"@, decimal(s.total_nodes as nat)),
        ("Statuses"@, statuses_text(s)),
        ("Total Effort"@, duration_stat_text(s.total_duration as int)),
        ("Upcoming Deadlines"@, decimal(s.upcoming_deadlines as nat)),
        ("Project Age"@, decimal(s.age_days as nat) + " days"@),
    ]
}

impl ProjectStats {
    /// The (label, value) pairs of the statistics panel, left to right.
    pub fn panel(&self) -> (r: Vec<(String, String)>)
        requires
            self.total_duration != i64::MIN,
        ensures
            r@.map_values(|p: (String, String)| (p.0@, p.1@)) == panel_text(*self),
    {
        let mut st = String::from_str("○ ");
        st.append(decimal_string(self.todo as u64).as_str());
        st.append("  ◑ ");
        st.append(decimal_string(self.in_progress as u64).as_str());
        st.append("  ● ");
        st.append(decimal_string(self.completed as u64).as_str());
        st.append("  ⊘ ");
        st.append(decimal_string(self.blocked as u64).as_str());
        let mut age = decimal_string(self.age_days);
        age.append(" days");
        let mut r: Vec<(String, String)> = Vec::new();
        r.push((String::from_str("Total Nodes"), decimal_string(self.total_nodes as u64)));
        r.push((String::from_str("Statuses"), st));
        r.push((String::from_str("Total Effort"), format_duration_stat(self.total_duration)));
        r.push((String::from_str("Upcoming Deadlines"), decimal_string(self.upcoming_deadlines as u64)));
        r.push((String::from_str("Project Age"), age));
        proof {
            assert(r@.map_values(|p: (String, String)| (p.0@, p.1@)) =~= panel_text(*self));
        }
        r
    }
}

} // verus!
