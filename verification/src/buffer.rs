//! Editing of a text buffer with a cursor that is a byte offset into the
//! UTF-8 encoding of the text, always on a character boundary.

use vstd::prelude::*;
use vstd::utf8::encode_utf8;
use vstd::utf8::encode_scalar;
use vstd::string::StrSliceExecFns;

verus! {

/// The number of bytes of the UTF-8 encoding of `s`.
pub open spec fn utf8_len(s: Seq<char>) -> nat {
    encode_utf8(s).len()
}

/// The number of bytes of the UTF-8 encoding of `c`.
pub open spec fn char_width(c: char) -> nat {
    if (c as u32) < 0x80 {
        1
    } else if (c as u32) < 0x800 {
        2
    } else if (c as u32) < 0x10000 {
        3
    } else {
        4
    }
}

/// Byte offset `cursor` sits just before the character at index `k` of `s`
/// (at the end when `k` is the length).
pub open spec fn at_char(s: Seq<char>, cursor: int, k: int) -> bool {
    0 <= k <= s.len() && utf8_len(s.take(k)) == cursor
}

/// Byte offset `cursor` is a character boundary of `s`.
pub open spec fn on_boundary(s: Seq<char>, cursor: int) -> bool {
    exists|k: int| at_char(s, cursor, k)
}

/// The character index of the boundary at byte offset `cursor`.
pub open spec fn char_index(s: Seq<char>, cursor: int) -> int {
    choose|k: int| at_char(s, cursor, k)
}

/// A buffer and its cursor as the editing functions need them: the cursor on
/// a boundary and the text well below the size of the address space.
pub open spec fn buf_ok(s: Seq<char>, cursor: int) -> bool {
    &&& on_boundary(s, cursor)
    &&& utf8_len(s) + 4 <= usize::MAX
}

pub proof fn lemma_char_width(c: char)
    ensures
        encode_scalar(c as u32).len() == char_width(c),
        1 <= char_width(c) <= 4,
{
    vstd::utf8::char_is_scalar(c);
}

/// Appending a character adds its width.
pub proof fn lemma_utf8_len_push(s: Seq<char>, c: char)
    ensures
        utf8_len(s.push(c)) == utf8_len(s) + char_width(c),
    decreases s.len(),
{
    lemma_char_width(c);
    if s.len() == 0 {
        assert(s.push(c).drop_first() =~= Seq::<char>::empty());
        assert(encode_utf8(Seq::<char>::empty()) =~= Seq::<u8>::empty());
    } else {
        lemma_utf8_len_push(s.drop_first(), c);
        assert(s.push(c).drop_first() =~= s.drop_first().push(c));
        assert(s.push(c)[0] == s[0]);
    }
}

/// The prefix of length `k + 1` is one character wider than that of length `k`.
pub proof fn lemma_take_step(s: Seq<char>, k: int)
    requires
        0 <= k < s.len(),
    ensures
        utf8_len(s.take(k + 1)) == utf8_len(s.take(k)) + char_width(s[k]),
{
    assert(s.take(k + 1) =~= s.take(k).push(s[k]));
    lemma_utf8_len_push(s.take(k), s[k]);
}

/// Longer prefixes have strictly longer encodings.
pub proof fn lemma_take_mono(s: Seq<char>, j: int, k: int)
    requires
        0 <= j <= k <= s.len(),
    ensures
        utf8_len(s.take(j)) + (k - j) <= utf8_len(s.take(k)),
    decreases k - j,
{
    if j < k {
        lemma_take_mono(s, j, k - 1);
        lemma_take_step(s, k - 1);
        lemma_char_width(s[k - 1]);
    }
}

/// A boundary has exactly one character index.
pub proof fn lemma_at_char_unique(s: Seq<char>, cursor: int, k: int)
    requires
        at_char(s, cursor, k),
    ensures
        on_boundary(s, cursor),
        char_index(s, cursor) == k,
{
    let j = char_index(s, cursor);
    if j < k {
        lemma_take_mono(s, j + 1, k);
        lemma_take_mono(s, j, j + 1);
    } else if k < j {
        lemma_take_mono(s, k + 1, j);
        lemma_take_mono(s, k, k + 1);
    }
}

/// The encoding of the whole text bounds that of each prefix.
pub proof fn lemma_take_le(s: Seq<char>, k: int)
    requires
        0 <= k <= s.len(),
    ensures
        utf8_len(s.take(k)) <= utf8_len(s),
{
    lemma_take_mono(s, k, s.len() as int);
    assert(s.take(s.len() as int) =~= s);
}

/// The width in bytes of the UTF-8 encoding of `c`.
pub fn utf8_width(c: char) -> (r: usize)
    ensures
        r == char_width(c),
{
    let v = c as u32;
    if v < 0x80 {
        1
    } else if v < 0x800 {
        2
    } else if v < 0x10000 {
        3
    } else {
        4
    }
}

/// The character index of byte offset `cursor` in `s`, or `None` when the
/// offset is not a character boundary.
pub fn char_index_at(s: &str, cursor: usize) -> (r: Option<usize>)
    requires
        utf8_len(s@) <= usize::MAX,
    ensures
        match r {
            Some(k) => at_char(s@, cursor as int, k as int) && char_index(s@, cursor as int) == k,
            None => !on_boundary(s@, cursor as int),
        },
{
    let n = s.unicode_len();
    let mut i: usize = 0;
    let mut pos: usize = 0;
    proof {
        assert(s@.take(0) =~= Seq::<char>::empty());
        assert(encode_utf8(Seq::<char>::empty()) =~= Seq::<u8>::empty());
    }
    while i < n && pos < cursor
        invariant
            n == s@.len(),
            i <= n,
            pos == utf8_len(s@.take(i as int)),
            utf8_len(s@) <= usize::MAX,
            i > 0 ==> utf8_len(s@.take(i - 1)) < cursor,
        decreases n - i,
    {
        let c = s.get_char(i);
        proof {
            lemma_take_step(s@, i as int);
            lemma_take_le(s@, i + 1);
        }
        pos = pos + utf8_width(c);
        i = i + 1;
    }
    if pos == cursor {
        proof {
            lemma_at_char_unique(s@, cursor as int, i as int);
        }
        Some(i)
    } else {
        proof {
            if on_boundary(s@, cursor as int) {
                let k = choose|k: int| at_char(s@, cursor as int, k);
                if k < i {
                    if i > 0 {
                        lemma_take_mono(s@, k, i - 1);
                    }
                } else if k > i {
                    lemma_take_mono(s@, i as int, k);
                }
            }
        }
        None
    }
}

/// `String::insert`: inserts `c` at byte offset `idx`, which must be a
/// character boundary (the std function panics otherwise).
#[verifier::external_body]
fn string_insert(s: &mut String, idx: usize, c: char)
    requires
        on_boundary(old(s)@, idx as int),
    ensures
        final(s)@ == old(s)@.insert(char_index(old(s)@, idx as int), c),
{
    s.insert(idx, c);
}

/// `String::remove`: removes and returns the character that starts at byte
/// offset `idx`, which must be a character boundary before the end (the std
/// function panics otherwise).
#[verifier::external_body]
fn string_remove(s: &mut String, idx: usize) -> (r: char)
    requires
        on_boundary(old(s)@, idx as int),
        char_index(old(s)@, idx as int) < old(s)@.len(),
    ensures
        r == old(s)@[char_index(old(s)@, idx as int)],
        final(s)@ == old(s)@.remove(char_index(old(s)@, idx as int)),
{
    s.remove(idx)
}

/// Inserting a character before index `k` moves the boundary after it one
/// character to the right.
proof fn lemma_insert_boundary(s: Seq<char>, k: int, c: char)
    requires
        0 <= k <= s.len(),
    ensures
        at_char(s.insert(k, c), (utf8_len(s.take(k)) + char_width(c)) as int, k + 1),
        utf8_len(s.insert(k, c)) == utf8_len(s) + char_width(c),
{
    let t = s.insert(k, c);
    assert(t.take(k + 1) =~= s.take(k).push(c));
    lemma_utf8_len_push(s.take(k), c);
    lemma_utf8_len_append(s.take(k).push(c), s.skip(k));
    lemma_utf8_len_append(s.take(k), s.skip(k));
    assert(t =~= s.take(k).push(c) + s.skip(k));
    assert(s =~= s.take(k) + s.skip(k));
}

/// The encoding of a concatenation is as long as both encodings.
pub proof fn lemma_utf8_len_append(a: Seq<char>, b: Seq<char>)
    ensures
        utf8_len(a + b) == utf8_len(a) + utf8_len(b),
    decreases b.len(),
{
    if b.len() == 0 {
        assert(a + b =~= a);
        assert(encode_utf8(b) =~= Seq::<u8>::empty());
    } else {
        lemma_utf8_len_append(a, b.drop_last());
        assert(a + b =~= (a + b.drop_last()).push(b.last()));
        assert(b =~= b.drop_last().push(b.last()));
        lemma_utf8_len_push(a + b.drop_last(), b.last());
        lemma_utf8_len_push(b.drop_last(), b.last());
    }
}

/// Removing the character at index `k` narrows the text by its width and
/// keeps the boundary before it.
proof fn lemma_remove_boundary(s: Seq<char>, k: int)
    requires
        0 <= k < s.len(),
    ensures
        at_char(s.remove(k), utf8_len(s.take(k)) as int, k),
        utf8_len(s.remove(k)) + char_width(s[k]) == utf8_len(s),
{
    let t = s.remove(k);
    assert(t.take(k) =~= s.take(k));
    assert(t =~= s.take(k) + s.skip(k + 1));
    assert(s =~= s.take(k + 1) + s.skip(k + 1));
    lemma_utf8_len_append(s.take(k), s.skip(k + 1));
    lemma_utf8_len_append(s.take(k + 1), s.skip(k + 1));
    lemma_take_step(s, k);
}

/// Type `c` at the cursor: it goes in before the character the cursor is
/// on, and the cursor moves past it.
pub fn buf_insert(buf: &mut String, cursor: &mut usize, c: char)
    requires
        buf_ok(old(buf)@, *old(cursor) as int),
    ensures
        ({
            let k = char_index(old(buf)@, *old(cursor) as int);
            &&& final(buf)@ == old(buf)@.insert(k, c)
            &&& at_char(final(buf)@, *final(cursor) as int, k + 1)
            &&& *final(cursor) == *old(cursor) + char_width(c)
            &&& utf8_len(final(buf)@) == utf8_len(old(buf)@) + char_width(c)
        }),
{
    let ghost k = char_index(old(buf)@, *old(cursor) as int);
    proof {
        let w = choose|w: int| at_char(buf@, *cursor as int, w);
        lemma_at_char_unique(buf@, *cursor as int, w);
        lemma_insert_boundary(buf@, k, c);
        lemma_char_width(c);
        lemma_take_le(buf@, k);
    }
    string_insert(buf, *cursor, c);
    *cursor = *cursor + utf8_width(c);
}

/// Delete the character before the cursor, if there is one; the cursor
/// moves back over it.
pub fn buf_backspace(buf: &mut String, cursor: &mut usize)
    requires
        buf_ok(old(buf)@, *old(cursor) as int),
    ensures
        ({
            let k = char_index(old(buf)@, *old(cursor) as int);
            if k == 0 {
                &&& final(buf)@ == old(buf)@
                &&& *final(cursor) == *old(cursor)
            } else {
                &&& final(buf)@ == old(buf)@.remove(k - 1)
                &&& at_char(final(buf)@, *final(cursor) as int, k - 1)
                &&& *final(cursor) + char_width(old(buf)@[k - 1]) == *old(cursor)
            }
        }),
        buf_ok(final(buf)@, *final(cursor) as int),
{
    let ghost k = char_index(old(buf)@, *old(cursor) as int);
    proof {
        let w = choose|w: int| at_char(buf@, *cursor as int, w);
        lemma_at_char_unique(buf@, *cursor as int, w);
    }
    let idx = char_index_at(buf.as_str(), *cursor);
    match idx {
        Some(i) => {
            if i > 0 {
                let c = buf.as_str().get_char(i - 1);
                proof {
                    lemma_take_step(buf@, k - 1);
                    lemma_remove_boundary(buf@, k - 1);
                    lemma_at_char_unique(buf@, *cursor as int - char_width(c) as int, k - 1);
                }
                let prev = *cursor - utf8_width(c);
                string_remove(buf, prev);
                *cursor = prev;
                proof {
                    lemma_at_char_unique(buf@, *cursor as int, k - 1);
                }
            }
        },
        None => {},
    }
}

/// Move the cursor one character left (`delta < 0`) or right, stopping at
/// either end.
pub fn move_cursor_in_buf(buf: &str, cursor: &mut usize, delta: i32)
    requires
        buf_ok(buf@, *old(cursor) as int),
    ensures
        ({
            let k = char_index(buf@, *old(cursor) as int);
            let k2 = if delta < 0 {
                if k > 0 { k - 1 } else { k }
            } else {
                if k < buf@.len() { k + 1 } else { k }
            };
            at_char(buf@, *final(cursor) as int, k2)
        }),
        buf_ok(buf@, *final(cursor) as int),
{
    let ghost k = char_index(buf@, *old(cursor) as int);
    proof {
        let w = choose|w: int| at_char(buf@, *cursor as int, w);
        lemma_at_char_unique(buf@, *cursor as int, w);
    }
    let idx = char_index_at(buf, *cursor);
    match idx {
        Some(i) => {
            if delta < 0 {
                if i > 0 {
                    let c = buf.get_char(i - 1);
                    proof {
                        lemma_take_step(buf@, k - 1);
                    }
                    *cursor = *cursor - utf8_width(c);
                }
            } else if i < buf.unicode_len() {
                let c = buf.get_char(i);
                proof {
                    lemma_take_step(buf@, k);
                    lemma_take_le(buf@, k + 1);
                }
                *cursor = *cursor + utf8_width(c);
            }
        },
        None => {},
    }
}

/// The byte length of `s`.
pub fn byte_len(s: &String) -> (r: usize)
    ensures
        r == utf8_len(s@),
        at_char(s@, r as int, s@.len() as int),
{
    assert(s@.take(s@.len() as int) =~= s@);
    s.as_str().as_bytes().len()
}

/// Typing a character and deleting it again gives back the buffer and the
/// cursor.
pub proof fn lemma_insert_backspace(s: Seq<char>, cursor: int, c: char)
    requires
        on_boundary(s, cursor),
    ensures
        ({
            let k = char_index(s, cursor);
            let t = s.insert(k, c);
            &&& char_index(t, cursor + char_width(c)) == k + 1
            &&& t.remove(k) == s
            &&& cursor + char_width(c) - char_width(t[k]) == cursor
        }),
{
    let k = char_index(s, cursor);
    let t = s.insert(k, c);
    lemma_insert_boundary(s, k, c);
    lemma_at_char_unique(t, cursor + char_width(c), k + 1);
    assert(t.remove(k) =~= s);
}

} // verus!
