//! The little query language of the status page: parts joined by " AND ",
//! each a tag match "key: value", a time comparison "key < when" or
//! "key > when", or a case-insensitive label search.

use vstd::prelude::*;
use vstd::string::StrSliceExecFns;
use crate::clock::{is_date_text_safe, now_secs, parse_english_date};
use crate::app::App;
use crate::models::{Node, StatusQuery};
use crate::ops::saved;
use crate::text::{lowercase, to_lowercase, trim, trimmed};

verus! {

/// The first index at which `sep` occurs in `s`, if any.
pub open spec fn first_occurrence(s: Seq<char>, sep: Seq<char>) -> Option<int> {
    if exists|k: int| 0 <= k && k + sep.len() <= s.len() && #[trigger] s.subrange(k, k + sep.len()) == sep {
        Some(
            choose|k: int|
                0 <= k && k + sep.len() <= s.len() && #[trigger] s.subrange(k, k + sep.len()) == sep && forall|j: int|
                    0 <= j < k ==> #[trigger] s.subrange(j, j + sep.len()) != sep,
        )
    } else {
        None
    }
}

/// `s` cut at every non-overlapping occurrence of the nonempty `sep`, left
/// to right.
pub open spec fn split_by(s: Seq<char>, sep: Seq<char>) -> Seq<Seq<char>>
    decreases s.len(),
{
    if sep.len() == 0 {
        seq![s]
    } else {
        match first_occurrence(s, sep) {
            Some(k) => if 0 <= k && k + sep.len() <= s.len() {
                seq![s.take(k)] + split_by(s.skip(k + sep.len()), sep)
            } else {
                seq![s]
            },
            None => seq![s],
        }
    }
}

/// `str::split` with a nonempty string pattern, the pieces collected.
#[verifier::external_body]
fn split_on(s: &str, sep: &str) -> (r: Vec<String>)
    requires
        sep@.len() > 0,
    ensures
        r@.map_values(|p: String| p@) == split_by(s@, sep@),
{
    s.split(sep).map(|p| p.to_string()).collect()
}

/// `needle` occurs in `hay`.
pub open spec fn has_substring(hay: Seq<char>, needle: Seq<char>) -> bool {
    exists|k: int| 0 <= k && k + needle.len() <= hay.len() && #[trigger] hay.subrange(k, k + needle.len()) == needle
}

/// Whether `needle` occurs in `hay`.
pub(crate) fn contains_str(hay: &str, needle: &str) -> (r: bool)
    ensures
        r == has_substring(hay@, needle@),
{
    let n = hay.unicode_len();
    let m = needle.unicode_len();
    if m > n {
        proof {
            assert(!has_substring(hay@, needle@));
        }
        return false;
    }
    let mut k: usize = 0;
    while k <= n - m
        invariant
            n == hay@.len(),
            m == needle@.len(),
            m <= n,
            k <= n - m + 1,
            forall|j: int| 0 <= j < k ==> #[trigger] hay@.subrange(j, j + m) != needle@,
        decreases n - m + 1 - k,
    {
        let mut i: usize = 0;
        let mut same = true;
        while i < m && same
            invariant
                n == hay@.len(),
                m == needle@.len(),
                k + m <= n,
                i <= m,
                same == forall|q: int| 0 <= q < i ==> hay@[k + q] == needle@[q],
            decreases m - i,
        {
            if hay.get_char(k + i) != needle.get_char(i) {
                same = false;
            }
            i = i + 1;
        }
        if same {
            proof {
                assert(hay@.subrange(k as int, k + m) =~= needle@);
            }
            return true;
        }
        proof {
            assert(hay@.subrange(k as int, k + m) != needle@) by {
                let q = choose|q: int| 0 <= q < i && hay@[k + q] != needle@[q];
                assert(hay@.subrange(k as int, k + m)[q] == hay@[k + q]);
            }
        }
        k = k + 1;
    }
    proof {
        assert forall|j: int| 0 <= j && j + m <= n implies #[trigger] hay@.subrange(j, j + m) != needle@ by {
            assert(j < k);
        }
    }
    false
}

/// The index of the first occurrence of `c` in `s`, if any.
fn find_char(s: &str, c: char) -> (r: Option<usize>)
    ensures
        match r {
            Some(k) => (k as int) < s@.len() && s@[k as int] == c && forall|j: int| 0 <= j < k ==> s@[j] != c,
            None => !s@.contains(c),
        },
{
    let n = s.unicode_len();
    let mut k: usize = 0;
    while k < n
        invariant
            n == s@.len(),
            k <= n,
            forall|j: int| 0 <= j < k ==> s@[j] != c,
        decreases n - k,
    {
        if s.get_char(k) == c {
            return Some(k);
        }
        k = k + 1;
    }
    None
}

/// The index of the first occurrence of `c` in `s`.
pub open spec fn index_of_char(s: Seq<char>, c: char) -> int {
    choose|k: int| 0 <= k < s.len() && s[k] == c && forall|j: int| 0 <= j < k ==> s[j] != c
}

/// The value of the first tag with key `key`.
pub open spec fn tag_value(node: Node, key: Seq<char>) -> Option<Seq<char>> {
    if exists|j: int| 0 <= j < node.tags@.len() && (#[trigger] node.tags@[j]).0@ == key {
        let j = choose|j: int|
            0 <= j < node.tags@.len() && (#[trigger] node.tags@[j]).0@ == key && forall|i: int| 0 <= i < j ==> (#[trigger] node.tags@[i]).0@ != key;
        Some(node.tags@[j].1@)
    } else {
        None
    }
}

/// Whether the node has a time tag with key `key`.
pub open spec fn has_time(node: Node, key: Seq<char>) -> bool {
    exists|j: int| 0 <= j < node.times@.len() && (#[trigger] node.times@[j]).0@ == key
}

/// What is known of one part for a node: `Some` verdict for a tag match or
/// a label search, and for a time comparison on a missing tag; `None` for a
/// time comparison on a present tag, which depends on the date parser and
/// the clock.
pub open spec fn part_verdict(part: Seq<char>, node: Node) -> Option<bool> {
    if part.contains(':') {
        let k = index_of_char(part, ':');
        let key = trimmed(part.take(k));
        let val = trimmed(part.skip(k + 1));
        Some(tag_value(node, key) == Some(val))
    } else if part.contains('<') || part.contains('>') {
        let op = if part.contains('<') { '<' } else { '>' };
        let k = index_of_char(part, op);
        let key = trimmed(part.take(k));
        if has_time(node, key) {
            None
        } else {
            Some(false)
        }
    } else {
        Some(has_substring(lowercase(node.label@), lowercase(part)))
    }
}

/// `ts` against the date the comparison text stood for: before it for
/// `<`, after it for `>`; false when the text named no date.
pub open spec fn time_verdict_spec(ts: i64, target: Option<i64>, less: bool) -> bool {
    match target {
        Some(t) => if less {
            ts < t
        } else {
            ts > t
        },
        None => false,
    }
}

/// Compare a time tag with the date a comparison names (`None` when the
/// date parser did not understand it).
pub fn time_verdict(ts: i64, target: Option<i64>, less: bool) -> (r: bool)
    ensures
        r == time_verdict_spec(ts, target, less),
{
    match target {
        Some(t) => if less {
            ts < t
        } else {
            ts > t
        },
        None => false,
    }
}

/// The part is a time comparison: it has no ':' but a '<' or a '>'.
pub open spec fn is_time_part(part: Seq<char>) -> bool {
    !part.contains(':') && (part.contains('<') || part.contains('>'))
}

/// The operator of a time comparison: the first '<' if there is one,
/// otherwise the first '>'.
pub open spec fn time_op(part: Seq<char>) -> char {
    if part.contains('<') {
        '<'
    } else {
        '>'
    }
}

/// The key of a time comparison: what precedes the operator, trimmed.
pub open spec fn time_key(part: Seq<char>) -> Seq<char> {
    trimmed(part.take(index_of_char(part, time_op(part))))
}

/// The date text of a time comparison: what follows the operator, trimmed.
pub open spec fn time_when(part: Seq<char>) -> Seq<char> {
    trimmed(part.skip(index_of_char(part, time_op(part)) + 1))
}

/// Whether one part holds for `node`, where `target` is the date that
/// the part's date text was read as (used by time comparisons only).
#[verifier::opaque]
pub open spec fn part_value(part: Seq<char>, node: Node, target: Option<i64>) -> bool {
    if is_time_part(part) {
        match time_value(node, time_key(part)) {
            Some(ts) => time_verdict_spec(ts, target, time_op(part) == '<'),
            None => false,
        }
    } else {
        part_verdict(part, node) == Some(true)
    }
}

/// Whether a whole query holds for `node`, where `targets[i]` is the date
/// that the `i`-th part's date text was read as: a blank query holds,
/// otherwise every part must.
pub open spec fn query_value(query: Seq<char>, node: Node, targets: Seq<Option<i64>>) -> bool {
    trimmed(query).len() == 0 || forall|i: int|
        0 <= i < query_parts(query).len() ==> part_value(#[trigger] query_parts(query)[i], node, targets[i])
}

/// The first tag with key `key`, compared with `val`.
pub(crate) fn tag_equals(node: &Node, key: &str, val: &str) -> (r: bool)
    ensures
        r == (tag_value(*node, key@) == Some(val@)),
{
    let mut j: usize = 0;
    while j < node.tags.len()
        invariant
            j <= node.tags@.len(),
            forall|i: int| 0 <= i < j ==> (#[trigger] node.tags@[i]).0@ != key@,
        decreases node.tags@.len() - j,
    {
        if crate::text::eq_lit(&node.tags[j].0, key) {
            proof {
                let c = choose|c: int|
                    0 <= c < node.tags@.len() && (#[trigger] node.tags@[c]).0@ == key@ && forall|i: int| 0 <= i < c ==> (#[trigger] node.tags@[i]).0@ != key@;
                assert(node.tags@[j as int].0@ == key@);
                if c < j {
                } else if c > j {
                    assert(node.tags@[j as int].0@ != key@);
                }
            }
            return crate::text::eq_lit(&node.tags[j].1, val);
        }
        j = j + 1;
    }
    false
}

/// The time of the first time tag with key `key`.
pub open spec fn time_value(node: Node, key: Seq<char>) -> Option<i64> {
    if has_time(node, key) {
        let j = choose|j: int|
            0 <= j < node.times@.len() && (#[trigger] node.times@[j]).0@ == key && forall|i: int| 0 <= i < j ==> (#[trigger] node.times@[i]).0@ != key;
        Some(node.times@[j].1.timestamp)
    } else {
        None
    }
}

/// The time of the first time tag with key `key`, if any.
pub(crate) fn time_of(node: &Node, key: &str) -> (r: Option<i64>)
    ensures
        r is Some <==> has_time(*node, key@),
        r == time_value(*node, key@),
{
    let mut j: usize = 0;
    while j < node.times.len()
        invariant
            j <= node.times@.len(),
            forall|i: int| 0 <= i < j ==> (#[trigger] node.times@[i]).0@ != key@,
        decreases node.times@.len() - j,
    {
        if crate::text::eq_lit(&node.times[j].0, key) {
            proof {
                let c = choose|c: int|
                    0 <= c < node.times@.len() && (#[trigger] node.times@[c]).0@ == key@ && forall|i: int| 0 <= i < c ==> (#[trigger] node.times@[i]).0@ != key@;
                assert(node.times@[j as int].0@ == key@);
                if c < j {
                } else if c > j {
                    assert(node.times@[j as int].0@ != key@);
                }
            }
            return Some(node.times[j].1.timestamp);
        }
        j = j + 1;
    }
    None
}

/// Whether one (trimmed) part holds for `node`, with `target` as the date
/// that a time comparison's date text was read as.
pub fn evaluate_single_with(part: &str, node: &Node, target: Option<i64>) -> (r: bool)
    ensures
        r == part_value(part@, *node, target),
{
    reveal(part_value);
    match find_char(part, ':') {
        Some(k) => {
            let n = part.unicode_len();
            let left = part.substring_char(0, k);
            let right = part.substring_char(k + 1, n);
            proof {
                assert(part@.contains(':')) by {
                    assert(part@[k as int] == ':');
                }
                assert(index_of_char(part@, ':') == k);
                assert(left@ =~= part@.take(k as int));
                assert(right@ =~= part@.skip(k + 1));
            }
            let key = trim(left);
            let val = trim(right);
            return tag_equals(node, key, val);
        },
        None => {},
    }
    let lt = find_char(part, '<');
    let gt = find_char(part, '>');
    let split = match lt {
        Some(k) => Some((k, true)),
        None => match gt {
            Some(k) => Some((k, false)),
            None => None,
        },
    };
    match split {
        Some((k, less)) => {
            let left = part.substring_char(0, k);
            proof {
                let op = time_op(part@);
                if lt is Some {
                    assert(part@.contains('<')) by {
                        assert(part@[k as int] == '<');
                    }
                } else {
                    assert(part@.contains('>')) by {
                        assert(part@[k as int] == '>');
                    }
                }
                assert(part@[k as int] == op);
                assert(index_of_char(part@, op) == k);
                assert(left@ =~= part@.take(k as int));
                assert(less == (op == '<'));
            }
            let key = trim(left);
            match time_of(node, key) {
                Some(ts) => time_verdict(ts, target, less),
                None => false,
            }
        },
        None => {
            let label = to_lowercase(node.label.as_str());
            let p = to_lowercase(part);
            contains_str(label.as_str(), p.as_str())
        },
    }
}

/// The date that the date text of part `part` is read as at Unix time
/// `now`: `None` for a part that is no time comparison, and for date text
/// that the parser is not handed (see `date_text_safe`) or does not
/// understand.
fn date_target(part: &str, now: i64) -> (r: Option<i64>)
    ensures
        !is_time_part(part@) ==> r is None,
{
    if find_char(part, ':').is_some() {
        return None;
    }
    let op = if find_char(part, '<').is_some() {
        '<'
    } else {
        '>'
    };
    match find_char(part, op) {
        Some(k) => {
            let n = part.unicode_len();
            let right = part.substring_char(k + 1, n);
            let when = trim(right);
            if is_date_text_safe(when) {
                parse_english_date(when, now)
            } else {
                None
            }
        },
        None => None,
    }
}

/// The trimmed parts of a query.
pub open spec fn query_parts(query: Seq<char>) -> Seq<Seq<char>> {
    split_by(query, " AND "@).map_values(|p: Seq<char>| trimmed(p))
}

/// What is known of a whole query for a node: it holds when it is blank or
/// every part holds, it fails when some part fails, and it is left open when
/// the only parts not known to hold are time comparisons on present tags.
pub open spec fn query_verdict(query: Seq<char>, node: Node) -> Option<bool> {
    if trimmed(query).len() == 0 {
        Some(true)
    } else {
        let parts = query_parts(query);
        if exists|i: int| 0 <= i < parts.len() && part_verdict(#[trigger] parts[i], node) == Some(false) {
            Some(false)
        } else if forall|i: int| 0 <= i < parts.len() ==> part_verdict(#[trigger] parts[i], node) == Some(true) {
            Some(true)
        } else {
            None
        }
    }
}

/// Whether `node` satisfies `query`: an empty query (once trimmed) matches
/// every node; otherwise every " AND " part must hold.  The date texts of
/// time comparisons are read relative to the clock, read once.
pub fn evaluate(query: &str, node: &Node) -> (r: bool)
    ensures
        trimmed(query@).len() == 0 ==> r,
        exists|targets: Seq<Option<i64>>|
            {
                &&& targets.len() == query_parts(query@).len()
                &&& forall|i: int| 0 <= i < targets.len() && !is_time_part(query_parts(query@)[i]) ==> (#[trigger] targets[i]) is None
                &&& r == query_value(query@, *node, targets)
            },
        trimmed(query@).len() > 0 ==> {
            let parts = query_parts(query@);
            &&& (exists|i: int| 0 <= i < parts.len() && part_verdict(parts[i], *node) == Some(false)) ==> !r
            &&& (forall|i: int| 0 <= i < parts.len() ==> part_verdict(#[trigger] parts[i], *node) == Some(true)) ==> r
        },
{
    let tq = trim(query);
    let tl = tq.unicode_len();
    proof {
        reveal_strlit(" AND ");
    }
    let ghost ps = query_parts(query@);
    if tl == 0 {
        proof {
            let w = Seq::new(ps.len(), |i: int| None::<i64>);
            assert(query_value(query@, *node, w));
        }
        return true;
    }
    let now = now_secs();
    let parts = split_on(query, " AND ");
    proof {
        assert(ps.len() == parts@.len());
    }
    let ghost mut tg: Seq<Option<i64>> = Seq::empty();
    let mut k: usize = 0;
    while k < parts.len()
        invariant
            trimmed(query@).len() > 0,
            k <= parts@.len(),
            ps == query_parts(query@),
            parts@.map_values(|p: String| p@) == split_by(query@, " AND "@),
            ps.len() == parts@.len(),
            tg.len() == k,
            forall|i: int| 0 <= i < k ==> part_value(#[trigger] ps[i], *node, tg[i]),
            forall|i: int| 0 <= i < k && !is_time_part(ps[i]) ==> (#[trigger] tg[i]) is None,
        decreases parts@.len() - k,
    {
        let p = trim(parts[k].as_str());
        proof {
            assert(parts@.map_values(|p: String| p@)[k as int] == parts@[k as int]@);
            assert(p@ == ps[k as int]);
        }
        let target = date_target(p, now);
        let hit = evaluate_single_with(p, node, target);
        proof {
            lemma_part_value_verdict(p@, *node, target);
        }
        if !hit {
            proof {
                let w = tg.push(target) + Seq::new((ps.len() - k - 1) as nat, |i: int| None::<i64>);
                assert(w[k as int] == target);
                assert(!part_value(ps[k as int], *node, w[k as int]));
                assert(!query_value(query@, *node, w));
                assert forall|i: int| 0 <= i < w.len() && !is_time_part(ps[i]) implies (#[trigger] w[i]) is None by {
                    if i < k {
                        assert(w[i] == tg[i]);
                    }
                }
                assert(part_verdict(ps[k as int], *node) != Some(true));
            }
            return false;
        }
        proof {
            tg = tg.push(target);
        }
        k = k + 1;
    }
    proof {
        assert(query_value(query@, *node, tg));
        assert forall|i: int| 0 <= i < ps.len() implies part_verdict(#[trigger] ps[i], *node) != Some(false) by {
            lemma_part_value_verdict(ps[i], *node, tg[i]);
        }
    }
    true
}

/// What is known of a part without the date parser agrees with its value
/// for every reading of its date text.
proof fn lemma_part_value_verdict(part: Seq<char>, node: Node, target: Option<i64>)
    ensures
        part_verdict(part, node) matches Some(v) ==> part_value(part, node, target) == v,
{
    reveal(part_value);
    if is_time_part(part) {
        let op = if part.contains('<') { '<' } else { '>' };
        assert(op == time_op(part));
    }
}

/// Text without " AND " is one part.
proof fn lemma_split_single(a: Seq<char>)
    requires
        !has_substring(a, " AND "@),
    ensures
        split_by(a, " AND "@) == seq![a],
{
    reveal_strlit(" AND ");
    assert(first_occurrence(a, " AND "@) is None);
}

#[verifier::spinoff_prover]
proof fn lemma_and_split(a: Seq<char>, b: Seq<char>)
    requires
        !has_substring(a, " AND "@),
        !has_substring(b, " AND "@),
        first_occurrence(a + " AND "@ + b, " AND "@) == Some(a.len() as int),
    ensures
        split_by(a + " AND "@ + b, " AND "@) == seq![a, b],
        split_by(a, " AND "@) == seq![a],
        split_by(b, " AND "@) == seq![b],
{
    reveal_strlit(" AND ");
    let sep = " AND "@;
    let q = a + sep + b;
    lemma_split_single(a);
    lemma_split_single(b);
    assert(q.take(a.len() as int) =~= a);
    assert(q.skip((a.len() + sep.len()) as int) =~= b);
    assert(split_by(q, sep) == seq![q.take(a.len() as int)] + split_by(q.skip((a.len() + sep.len()) as int), sep));
    assert(split_by(q, sep) =~= seq![a, b]);
}

proof fn lemma_and_nonblank(a: Seq<char>, b: Seq<char>)
    ensures
        trimmed(a + " AND "@ + b).len() > 0,
{
    let q = a + " AND "@ + b;
    reveal_strlit(" AND ");
    assert(" AND "@[1] == 'A');
    assert(q[a.len() + 1int] == 'A');
    assert(!crate::text::white_space('A'));
    crate::text::lemma_trimmed_nonblank(q, a.len() + 1int);
}

#[verifier::spinoff_prover]
proof fn lemma_and_parts(a: Seq<char>, b: Seq<char>)
    requires
        !has_substring(a, " AND "@),
        !has_substring(b, " AND "@),
        first_occurrence(a + " AND "@ + b, " AND "@) == Some(a.len() as int),
    ensures
        query_parts(a + " AND "@ + b) == seq![trimmed(a), trimmed(b)],
        query_parts(a) == seq![trimmed(a)],
        query_parts(b) == seq![trimmed(b)],
        trimmed(a + " AND "@ + b).len() > 0,
{
    let q = a + " AND "@ + b;
    lemma_and_split(a, b);
    assert(query_parts(q) =~= seq![trimmed(a), trimmed(b)]);
    assert(query_parts(a) =~= seq![trimmed(a)]);
    assert(query_parts(b) =~= seq![trimmed(b)]);
    lemma_and_nonblank(a, b);
}

/// A query "a AND b" holds exactly when both halves hold, each with the
/// date that its own time comparison is read as; the halves are not blank
/// and hold no " AND ", and the first " AND " of the whole is the one
/// between them.
#[verifier::spinoff_prover]
pub proof fn lemma_query_and(a: Seq<char>, b: Seq<char>, node: Node, ta: Option<i64>, tb: Option<i64>)
    requires
        !has_substring(a, " AND "@),
        !has_substring(b, " AND "@),
        first_occurrence(a + " AND "@ + b, " AND "@) == Some(a.len() as int),
        trimmed(a).len() > 0,
        trimmed(b).len() > 0,
    ensures
        query_value(a + " AND "@ + b, node, seq![ta, tb]) == (query_value(a, node, seq![ta]) && query_value(
            b,
            node,
            seq![tb],
        )),
{
    let q = a + " AND "@ + b;
    lemma_and_parts(a, b);
    let t = seq![ta, tb];
    let pa = part_value(trimmed(a), node, ta);
    let pb = part_value(trimmed(b), node, tb);
    assert(query_value(a, node, seq![ta]) == pa) by {
        assert(seq![ta][0] == ta);
        assert(query_parts(a)[0] == trimmed(a));
        if pa {
            assert forall|i: int| 0 <= i < query_parts(a).len() implies part_value(#[trigger] query_parts(a)[i], node, seq![ta][i]) by {
                assert(i == 0);
            }
        }
    }
    assert(query_value(b, node, seq![tb]) == pb) by {
        assert(seq![tb][0] == tb);
        assert(query_parts(b)[0] == trimmed(b));
        if pb {
            assert forall|i: int| 0 <= i < query_parts(b).len() implies part_value(#[trigger] query_parts(b)[i], node, seq![tb][i]) by {
                assert(i == 0);
            }
        }
    }
    assert(query_value(q, node, t) == (pa && pb)) by {
        assert(query_parts(q)[0] == trimmed(a) && query_parts(q)[1] == trimmed(b));
        assert(t[0] == ta && t[1] == tb);
        if pa && pb {
            assert forall|i: int| 0 <= i < query_parts(q).len() implies part_value(#[trigger] query_parts(q)[i], node, t[i]) by {
                if i == 0 {
                } else {
                }
            }
        }
    }
}

/// The verdict of a whole query follows from what `evaluate` promises.
proof fn lemma_query_verdict(query: Seq<char>, node: Node, r: bool)
    requires
        trimmed(query).len() == 0 ==> r,
        trimmed(query).len() > 0 ==> {
            let parts = query_parts(query);
            &&& (exists|i: int| 0 <= i < parts.len() && part_verdict(parts[i], node) == Some(false)) ==> !r
            &&& (forall|i: int| 0 <= i < parts.len() ==> part_verdict(#[trigger] parts[i], node) == Some(true)) ==> r
        },
    ensures
        query_verdict(query, node) matches Some(v) ==> r == v,
{
}

impl App {
    /// Add a query and save.
    pub fn status_add_query(&mut self, name: String, logic: String)
        ensures
            final(self).queries@ == old(self).queries@.push(StatusQuery { id: None, name, logic }),
            saved(App { queries: final(self).queries, ..*old(self) }, *final(self)),
    {
        self.queries.push(StatusQuery { id: None, name, logic });
        self.save_project();
    }

    /// Remove query `idx` and save; nothing happens for an index past the end.
    pub fn status_remove_query(&mut self, idx: usize)
        ensures
            idx >= old(self).queries@.len() ==> *final(self) == *old(self),
            idx < old(self).queries@.len() ==> final(self).queries@ == old(self).queries@.remove(idx as int)
                && saved(App { queries: final(self).queries, ..*old(self) }, *final(self)),
    {
        if idx < self.queries.len() {
            self.queries.remove(idx);
            self.save_project();
        }
    }

    /// Replace the name and logic of query `idx` and save; nothing happens
    /// for an index past the end.
    pub fn status_update_query(&mut self, idx: usize, name: String, logic: String)
        ensures
            idx >= old(self).queries@.len() ==> *final(self) == *old(self),
            idx < old(self).queries@.len() ==> final(self).queries@ == old(self).queries@.update(
                idx as int,
                StatusQuery { name, logic, ..old(self).queries@[idx as int] },
            ) && saved(App { queries: final(self).queries, ..*old(self) }, *final(self)),
    {
        if idx < self.queries.len() {
            self.queries[idx].name = name;
            self.queries[idx].logic = logic;
            self.save_project();
        }
    }

    /// The indices, in increasing order, of the nodes that satisfy query
    /// `query_idx`; none for an index past the end.
    pub fn get_query_results(&self, query_idx: usize) -> (r: Vec<usize>)
        ensures
            query_idx >= self.queries@.len() ==> r@.len() == 0,
            forall|a: int, b: int| 0 <= a < b < r@.len() ==> r@[a] < r@[b],
            forall|a: int| 0 <= a < r@.len() ==> (r@[a] as int) < self.nodes@.len(),
            query_idx < self.queries@.len() ==> forall|i: int|
                #![trigger self.nodes@[i]]
                0 <= i < self.nodes@.len() ==> (query_verdict(self.queries@[query_idx as int].logic@, self.nodes@[i]) matches Some(v)
                    ==> (r@.contains(i as usize) <==> v)),
    {
        let mut out: Vec<usize> = Vec::new();
        if query_idx >= self.queries.len() {
            return out;
        }
        let logic = self.queries[query_idx].logic.as_str();
        let mut i: usize = 0;
        while i < self.nodes.len()
            invariant
                query_idx < self.queries@.len(),
                logic@ == self.queries@[query_idx as int].logic@,
                i <= self.nodes@.len(),
                forall|a: int, b: int| 0 <= a < b < out@.len() ==> out@[a] < out@[b],
                forall|a: int| 0 <= a < out@.len() ==> out@[a] < i,
                forall|j: int|
                    #![trigger self.nodes@[j]]
                    0 <= j < i ==> (query_verdict(logic@, self.nodes@[j]) matches Some(v)
                        ==> (out@.contains(j as usize) <==> v)),
            decreases self.nodes@.len() - i,
        {
            let hit = evaluate(logic, &self.nodes[i]);
            proof {
                lemma_query_verdict(logic@, self.nodes@[i as int], hit);
            }
            let ghost before = out@;
            if hit {
                out.push(i);
            }
            proof {
                assert forall|j: int|
                    #![trigger self.nodes@[j]]
                    0 <= j < i + 1 implies (query_verdict(logic@, self.nodes@[j]) matches Some(v)
                        ==> (out@.contains(j as usize) <==> v)) by {
                    if j < i {
                        if hit {
                            assert(out@ == before.push(i));
                            if out@.contains(j as usize) {
                                let w = choose|w: int| 0 <= w < out@.len() && out@[w] == j as usize;
                                if w == before.len() {
                                } else {
                                    assert(before[w] == j as usize);
                                }
                            }
                            if before.contains(j as usize) {
                                let w = choose|w: int| 0 <= w < before.len() && before[w] == j as usize;
                                assert(out@[w] == j as usize);
                            }
                        }
                    } else {
                        if hit {
                            assert(out@[before.len() as int] == i);
                        } else {
                            if out@.contains(i) {
                                let w = choose|w: int| 0 <= w < out@.len() && out@[w] == i;
                                assert(out@[w] < i);
                            }
                        }
                    }
                }
            }
            i = i + 1;
        }
        out
    }
}

} // verus!
