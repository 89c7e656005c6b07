//! A text buffer shown with its cursor: the text before the cursor, the
//! character under it (a blank at the end), and the text after it; for
//! multi-line text, one such split per line.

use vstd::prelude::*;
use vstd::string::StrSliceExecFns;
use crate::buffer::{char_index, char_index_at, on_boundary, utf8_len};

verus! {

/// One displayed line: `before` and `after` in the plain style, `cursor`
/// (when present) in the cursor style between them.
pub struct EditLine {
    pub before: String,
    pub cursor: Option<char>,
    pub after: String,
}

/// An edit line as plain values.
pub open spec fn line_view(l: EditLine) -> (Seq<char>, Option<char>, Seq<char>) {
    (l.before@, l.cursor, l.after@)
}

/// The split of `s` around character index `k`: the character there, or a
/// blank when `k` is the end.
pub open spec fn split_view(s: Seq<char>, k: int) -> (Seq<char>, Option<char>, Seq<char>) {
    if k < s.len() {
        (s.take(k), Some(s[k]), s.skip(k + 1))
    } else {
        (s, Some(' '), Seq::empty())
    }
}

/// The buffer `buf` split around the cursor at byte offset `cursor`.
pub fn editable_line(buf: &str, cursor: usize) -> (r: EditLine)
    requires
        on_boundary(buf@, cursor as int),
        utf8_len(buf@) <= usize::MAX,
    ensures
        line_view(r) == split_view(buf@, char_index(buf@, cursor as int)),
{
    let k = match char_index_at(buf, cursor) {
        Some(k) => k,
        None => 0,
    };
    let n = buf.unicode_len();
    if k < n {
        let before = buf.substring_char(0, k).to_string();
        let c = buf.get_char(k);
        let after = buf.substring_char(k + 1, n).to_string();
        proof {
            assert(before@ =~= buf@.take(k as int));
            assert(after@ =~= buf@.skip(k + 1));
        }
        EditLine { before, cursor: Some(c), after }
    } else {
        proof {
            assert(buf@.take(k as int) =~= buf@);
        }
        EditLine { before: buf.to_string(), cursor: Some(' '), after: String::new() }
    }
}

/// Where the first line of `s` ends: just after its first newline, or at
/// the end.
pub open spec fn piece_end(s: Seq<char>) -> int {
    if s.contains('\n') {
        (choose|j: int| 0 <= j < s.len() && s[j] == '\n' && forall|i: int| 0 <= i < j ==> s[i] != '\n') + 1
    } else {
        s.len() as int
    }
}

/// The displayed form of one line `piece` of a text whose cursor is at
/// character index `k` counted from the start of the line.
pub open spec fn line_of(piece: Seq<char>, k: int) -> (Seq<char>, Option<char>, Seq<char>) {
    let j = piece.len() as int;
    if 0 <= k < j {
        (piece.take(k), Some(piece[k]), piece.skip(k + 1))
    } else if k == j && piece.last() != '\n' {
        (piece, Some(' '), Seq::empty())
    } else {
        (piece, None, Seq::empty())
    }
}

/// The displayed lines of `s` (each with its newline) when the cursor is at
/// character index `k` counted from the start of `s`: the line holding the
/// cursor is split there; a line without newline that the cursor ends gets
/// a blank cursor after it.
#[verifier::opaque]
pub open spec fn lines_from(s: Seq<char>, k: int) -> Seq<(Seq<char>, Option<char>, Seq<char>)>
    decreases s.len(),
{
    if s.len() == 0 {
        Seq::empty()
    } else {
        let j = piece_end(s);
        if 0 < j <= s.len() {
            seq![line_of(s.take(j), k)] + lines_from(s.skip(j), k - j)
        } else {
            seq![line_of(s.take(j), k)]
        }
    }
}

/// The displayed lines of `s` with the cursor at character index `k`; a
/// cursor at the end of an empty text or after a final newline gets a line
/// of its own.
pub open spec fn content_view(s: Seq<char>, k: int) -> Seq<(Seq<char>, Option<char>, Seq<char>)> {
    if k == s.len() && (s.len() == 0 || s.last() == '\n') {
        lines_from(s, k).push((Seq::empty(), Some(' '), Seq::empty()))
    } else {
        lines_from(s, k)
    }
}

proof fn lemma_piece_end(s: Seq<char>, j: int)
    requires
        0 <= j <= s.len(),
        forall|i: int| 0 <= i < j ==> s[i] != '\n',
        j == s.len() || s[j] == '\n',
        s.len() > 0,
    ensures
        piece_end(s) == if j < s.len() { j + 1 } else { j },
        0 < piece_end(s) <= s.len(),
{
    if s.contains('\n') {
        let c = choose|c: int| 0 <= c < s.len() && s[c] == '\n' && forall|i: int| 0 <= i < c ==> s[i] != '\n';
        if j < s.len() {
            assert(0 <= j < s.len() && s[j] == '\n' && forall|i: int| 0 <= i < j ==> s[i] != '\n');
            if c < j {
            } else if c > j {
                assert(s[j] != '\n');
            }
        } else {
            let w = choose|w: int| 0 <= w < s.len() && s[w] == '\n';
            assert(s[w] != '\n');
        }
    } else {
        if j < s.len() {
            assert(s.contains('\n')) by {
                assert(s[j] == '\n');
            }
        }
    }
}

/// The lines from character `start` on are the line that starts there
/// followed by the lines after it.
proof fn lemma_lines_step(s: Seq<char>, start: int, end: int, k: int, lv: (Seq<char>, Option<char>, Seq<char>))
    requires
        0 <= start < end <= s.len(),
        piece_end(s.skip(start)) == end - start,
        lv == line_of(s.skip(start).take(end - start), k - start),
    ensures
        lines_from(s.skip(start), k - start) == seq![lv] + lines_from(s.skip(end), k - end),
{
    let rest = s.skip(start);
    reveal(lines_from);
    assert(rest.skip(end - start) =~= s.skip(end));
    assert(k - start - (end - start) == k - end);
}

/// Where the line of `buf` that starts at character `start` ends: just
/// after its newline, or at the end of the text.
fn line_end(buf: &str, start: usize) -> (end: usize)
    requires
        start < buf@.len(),
    ensures
        start < end <= buf@.len(),
        piece_end(buf@.skip(start as int)) == end - start,
{
    let n = buf.unicode_len();
    let mut j: usize = start;
    while j < n && buf.get_char(j) != '\n'
        invariant
            start <= j <= n,
            n == buf@.len(),
            forall|i: int| start <= i < j ==> buf@[i] != '\n',
        decreases n - j,
    {
        j = j + 1;
    }
    proof {
        let rest = buf@.skip(start as int);
        assert forall|i: int| 0 <= i < j - start implies rest[i] != '\n' by {
            assert(rest[i] == buf@[start + i]);
        }
        if j < n {
            assert(rest[j - start] == buf@[j as int]);
        }
        lemma_piece_end(rest, j - start);
    }
    if j < n { j + 1 } else { j }
}

/// The displayed form of the line `piece` (nonempty) with the cursor at
/// character `k - start` of it.
fn piece_line(piece: &str, k: usize, start: usize) -> (r: EditLine)
    requires
        piece@.len() > 0,
        start + piece@.len() <= usize::MAX,
    ensures
        line_view(r) == line_of(piece@, k - start),
{
    let m = piece.unicode_len();
    if start <= k && k < start + m {
        let local = k - start;
        let before = piece.substring_char(0, local).to_string();
        let c = piece.get_char(local);
        let after = piece.substring_char(local + 1, m).to_string();
        proof {
            assert(before@ =~= piece@.take(local as int));
            assert(after@ =~= piece@.skip(local + 1));
        }
        EditLine { before, cursor: Some(c), after }
    } else if k == start + m && piece.get_char(m - 1) != '\n' {
        proof {
            assert(piece@.last() == piece@[m - 1]);
        }
        EditLine { before: piece.to_string(), cursor: Some(' '), after: String::new() }
    } else {
        proof {
            assert(piece@.last() == piece@[m - 1]);
        }
        EditLine { before: piece.to_string(), cursor: None, after: String::new() }
    }
}

/// The multi-line buffer `buf` as displayed lines with the cursor at byte
/// offset `cursor` (see `content_view`).
pub fn editable_content(buf: &str, cursor: usize) -> (r: Vec<EditLine>)
    requires
        on_boundary(buf@, cursor as int),
        utf8_len(buf@) <= usize::MAX,
    ensures
        r@.map_values(|l: EditLine| line_view(l)) == content_view(buf@, char_index(buf@, cursor as int)),
{
    let ghost s = buf@;
    let k = match char_index_at(buf, cursor) {
        Some(k) => k,
        None => 0,
    };
    let ghost kk = k as int;
    let n = buf.unicode_len();
    let mut out: Vec<EditLine> = Vec::new();
    let mut start: usize = 0;
    proof {
        assert(s.skip(0) =~= s);
        assert(out@.map_values(|l: EditLine| line_view(l)) =~= Seq::empty());
        assert(Seq::<(Seq<char>, Option<char>, Seq<char>)>::empty() + lines_from(s, kk) =~= lines_from(s, kk));
    }
    let ghost mut done: Seq<(Seq<char>, Option<char>, Seq<char>)> = Seq::empty();
    while start < n
        invariant
            n == s.len(),
            s == buf@,
            start <= n,
            kk == k,
            k <= n,
            out@.map_values(|l: EditLine| line_view(l)) == done,
            done + lines_from(s.skip(start as int), kk - start) == lines_from(s, kk),
        decreases n - start,
    {
        let end = line_end(buf, start);
        let piece = buf.substring_char(start, end);
        proof {
            assert(piece@ =~= s.skip(start as int).take(end - start));
        }
        let line = piece_line(piece, k, start);
        let ghost lv = line_view(line);
        proof {
            lemma_lines_step(s, start as int, end as int, kk, lv);
            assert(done.push(lv) + lines_from(s.skip(end as int), kk - end) =~= done + (seq![lv] + lines_from(s.skip(end as int), kk - end)));
        }
        let ghost prev = out@;
        out.push(line);
        proof {
            assert(out@.map_values(|l: EditLine| line_view(l)) =~= prev.map_values(|l: EditLine| line_view(l)).push(lv));
            done = done.push(lv);
        }
        start = end;
    }
    proof {
        assert(s.skip(n as int) =~= Seq::<char>::empty());
        assert(lines_from(s.skip(n as int), kk - n) == Seq::<(Seq<char>, Option<char>, Seq<char>)>::empty()) by {
            reveal(lines_from);
        }
        assert(done + lines_from(s.skip(n as int), kk - n) =~= done);
        assert(out@.map_values(|l: EditLine| line_view(l)) =~= lines_from(s, kk));
    }
    if k == n && (n == 0 || buf.get_char(n - 1) == '\n') {
        out.push(EditLine { before: String::new(), cursor: Some(' '), after: String::new() });
        proof {
            assert(s.last() == s[n - 1]);
            assert(out@.map_values(|l: EditLine| line_view(l)) =~= content_view(s, kk));
        }
    } else {
        proof {
            if n > 0 {
                assert(s.last() == s[n - 1]);
            }
        }
    }
    out
}

} // verus!
