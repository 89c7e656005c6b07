//! Link arrows: a buffer of line-segment cells that merge where routes
//! meet, obstacle-aware column search, and Manhattan routing.

use vstd::prelude::*;
use std::collections::HashMap;

verus! {

/// Segment direction bits of a cell: north, south, east, west.
pub const CN: u8 = 1;
pub const CS: u8 = 2;
pub const CE: u8 = 4;
pub const CW: u8 = 8;

/// The number of set bits of `v`.
pub open spec fn ones(v: u8) -> nat
    decreases v,
{
    if v == 0 {
        0
    } else {
        (v % 2) as nat + ones(v / 2)
    }
}

proof fn lemma_ones_le(v: u8)
    ensures
        ones(v) <= v,
    decreases v,
{
    if v > 0 {
        lemma_ones_le(v / 2);
    }
}

/// The number of set bits of `v`.
fn count_ones(v: u8) -> (r: u32)
    ensures
        r == ones(v),
{
    let mut m = v;
    let mut c: u32 = 0;
    proof {
        lemma_ones_le(v);
    }
    while m > 0
        invariant
            c + ones(m) == ones(v),
            ones(v) <= 255,
        decreases m,
    {
        c = c + (m % 2) as u32;
        m = m / 2;
    }
    c
}

/// A cell: its segment bits, and for a lone arrowhead the direction the
/// path came from.
pub type Cell = (u8, Option<u8>);

/// The key of screen cell `(x, y)`.
pub open spec fn cell_key(x: u16, y: u16) -> u32 {
    (x as u32 * 65536 + y as u32) as u32
}

proof fn lemma_cell_key_injective(x: u16, y: u16, x2: u16, y2: u16)
    ensures
        cell_key(x, y) == cell_key(x2, y2) ==> x == x2 && y == y2,
{
    assert(x as u32 * 65536 + y as u32 <= 0xffff_ffff) by (nonlinear_arith)
        requires
            x <= 0xffff,
            y <= 0xffff,
    ;
    assert(x2 as u32 * 65536 + y2 as u32 <= 0xffff_ffff) by (nonlinear_arith)
        requires
            x2 <= 0xffff,
            y2 <= 0xffff,
    ;
    if cell_key(x, y) == cell_key(x2, y2) {
        assert(x == x2 && y == y2) by (nonlinear_arith)
            requires
                x as int * 65536 + y as int == x2 as int * 65536 + y2 as int,
                0 <= y < 65536,
                0 <= y2 < 65536,
        ;
    }
}

/// A through segment added to a cell: the bits are merged, and a lone
/// arrowhead that now has company becomes a junction.
pub open spec fn with_seg(c: Option<Cell>, bits: u8) -> Cell {
    let (b, t) = match c {
        Some(v) => v,
        None => (0u8, None),
    };
    let b2 = b | bits;
    (b2, if t is Some && ones(b2) > 1 { None } else { t })
}

/// An arrowhead added to a cell: the bits are merged, and the cell is a
/// lone arrowhead exactly when it has only the entry bit.
pub open spec fn with_terminal(c: Option<Cell>, entry: u8) -> Cell {
    let b = match c {
        Some(v) => v.0,
        None => 0u8,
    };
    let b2 = b | entry;
    (b2, if ones(b2) == 1 { Some(entry) } else { None })
}

/// The character drawn for a cell.
pub open spec fn arrow_char(conn: u8, terminal: Option<u8>) -> char {
    if terminal is Some {
        if conn == CW { '→' } else if conn == CE { '←' } else if conn == CN { '↓' } else if conn == CS { '↑' } else { ' ' }
    } else if conn == CE | CW {
        '╌'
    } else if conn == CN | CS {
        '╎'
    } else if conn == CS | CE {
        '╭'
    } else if conn == CS | CW {
        '╮'
    } else if conn == CN | CE {
        '╰'
    } else if conn == CN | CW {
        '╯'
    } else if conn == CN | CS | CE {
        '├'
    } else if conn == CN | CS | CW {
        '┤'
    } else if conn == CE | CW | CS {
        '┬'
    } else if conn == CE | CW | CN {
        '┴'
    } else if conn == CN | CS | CE | CW {
        '┼'
    } else {
        ' '
    }
}

/// The cells of the arrows being drawn, by screen position.
pub struct ArrowBuf {
    cells: HashMap<u32, Cell>,
}

impl ArrowBuf {
    /// The cell at screen position `(x, y)`, if anything was drawn there.
    pub closed spec fn cell(&self, x: u16, y: u16) -> Option<Cell> {
        if self.cells@.contains_key(cell_key(x, y)) {
            Some(self.cells@[cell_key(x, y)])
        } else {
            None
        }
    }

    /// An empty buffer.
    pub fn new() -> (r: Self)
        ensures
            forall|x: u16, y: u16| r.cell(x, y) is None,
    {
        ArrowBuf { cells: HashMap::new() }
    }

    /// The cell at `(x, y)`.
    pub fn get(&self, x: u16, y: u16) -> (r: Option<Cell>)
        ensures
            r == self.cell(x, y),
    {
        broadcast use vstd::std_specs::hash::group_hash_axioms;
        let k = (x as u32) * 65536 + (y as u32);
        match self.cells.get(&k) {
            Some(c) => Some(*c),
            None => None,
        }
    }

    /// Add a through segment with direction bits `bits` at `(x, y)`.
    pub fn add_seg(&mut self, x: u16, y: u16, bits: u8)
        ensures
            final(self).cell(x, y) == Some(with_seg(old(self).cell(x, y), bits)),
            forall|x2: u16, y2: u16| !(x2 == x && y2 == y) ==> #[trigger] final(self).cell(x2, y2) == old(self).cell(x2, y2),
    {
        broadcast use vstd::std_specs::hash::group_hash_axioms;
        let k = (x as u32) * 65536 + (y as u32);
        let (b, t) = match self.cells.get(&k) {
            Some(c) => *c,
            None => (0u8, None),
        };
        let b2 = b | bits;
        let t2 = if t.is_some() && count_ones(b2) > 1 { None } else { t };
        self.cells.insert(k, (b2, t2));
        proof {
            assert forall|x2: u16, y2: u16| !(x2 == x && y2 == y) implies #[trigger] self.cell(x2, y2) == old(self).cell(x2, y2) by {
                lemma_cell_key_injective(x, y, x2, y2);
            }
        }
    }

    /// Add an arrowhead at `(x, y)` whose path arrived from direction
    /// `entry_bit`.
    pub fn add_terminal(&mut self, x: u16, y: u16, entry_bit: u8)
        ensures
            final(self).cell(x, y) == Some(with_terminal(old(self).cell(x, y), entry_bit)),
            forall|x2: u16, y2: u16| !(x2 == x && y2 == y) ==> #[trigger] final(self).cell(x2, y2) == old(self).cell(x2, y2),
    {
        broadcast use vstd::std_specs::hash::group_hash_axioms;
        let k = (x as u32) * 65536 + (y as u32);
        let b = match self.cells.get(&k) {
            Some(c) => c.0,
            None => 0u8,
        };
        let b2 = b | entry_bit;
        let t2 = if count_ones(b2) == 1 { Some(entry_bit) } else { None };
        self.cells.insert(k, (b2, t2));
        proof {
            assert forall|x2: u16, y2: u16| !(x2 == x && y2 == y) implies #[trigger] self.cell(x2, y2) == old(self).cell(x2, y2) by {
                lemma_cell_key_injective(x, y, x2, y2);
            }
        }
    }

    /// The character drawn for a cell with bits `conn` (an arrow when it is
    /// a lone arrowhead, a line or junction otherwise, blank when the bits
    /// make no shape).
    pub fn char_for(conn: u8, terminal: Option<u8>) -> (r: char)
        ensures
            r == arrow_char(conn, terminal),
    {
        if terminal.is_some() {
            return if conn == CW {
                '→'
            } else if conn == CE {
                '←'
            } else if conn == CN {
                '↓'
            } else if conn == CS {
                '↑'
            } else {
                ' '
            };
        }
        if conn == CE | CW {
            '╌'
        } else if conn == CN | CS {
            '╎'
        } else if conn == CS | CE {
            '╭'
        } else if conn == CS | CW {
            '╮'
        } else if conn == CN | CE {
            '╰'
        } else if conn == CN | CW {
            '╯'
        } else if conn == CN | CS | CE {
            '├'
        } else if conn == CN | CS | CW {
            '┤'
        } else if conn == CE | CW | CS {
            '┬'
        } else if conn == CE | CW | CN {
            '┴'
        } else if conn == CN | CS | CE | CW {
            '┼'
        } else {
            ' '
        }
    }
}

/// Column `cx` crosses no node's text on the rows strictly between `y0` and
/// `y1` (`nodes` holds `(world_x, world_y, world_x_end)` of visible nodes).
pub open spec fn column_clear(nodes: Seq<(i32, i32, i32)>, cx: int, y0: int, y1: int) -> bool {
    let lo = if y0 <= y1 { y0 } else { y1 };
    let hi = if y0 <= y1 { y1 } else { y0 };
    lo + 1 >= hi || forall|k: int|
        0 <= k < nodes.len() ==> !(lo < (#[trigger] nodes[k]).1 < hi && nodes[k].0 <= cx <= nodes[k].2)
}

/// Whether column `cx` is clear of node text between rows `y0` and `y1`.
pub fn col_clear_vert(nodes: &[(i32, i32, i32)], cx: i32, y0: i32, y1: i32) -> (r: bool)
    ensures
        r == column_clear(nodes@, cx as int, y0 as int, y1 as int),
{
    let lo = if y0 <= y1 { y0 } else { y1 };
    let hi = if y0 <= y1 { y1 } else { y0 };
    if lo as i64 + 1 >= hi as i64 {
        return true;
    }
    let mut k: usize = 0;
    while k < nodes.len()
        invariant
            k <= nodes@.len(),
            lo == (if y0 <= y1 { y0 } else { y1 }),
            hi == (if y0 <= y1 { y1 } else { y0 }),
            forall|j: int| 0 <= j < k ==> !(lo < (#[trigger] nodes@[j]).1 < hi && nodes@[j].0 <= cx <= nodes@[j].2),
        decreases nodes@.len() - k,
    {
        let (wx, wy, wx_end) = nodes[k];
        if wy > lo && wy < hi && cx >= wx && cx <= wx_end {
            return false;
        }
        k = k + 1;
    }
    true
}

/// The column `k` steps from `preferred` towards `limit`.
pub open spec fn col_at(preferred: int, limit: int, k: int) -> int {
    if limit >= preferred { preferred + k } else { preferred - k }
}

/// The first clear column scanning from `preferred` towards `limit`, or
/// `preferred` when none is.
pub open spec fn clear_col(nodes: Seq<(i32, i32, i32)>, preferred: int, limit: int, y0: int, y1: int) -> int {
    let span: int = if limit >= preferred { limit - preferred } else { preferred - limit };
    if exists|k: int| 0 <= k <= span && #[trigger] column_clear(nodes, col_at(preferred, limit, k), y0, y1) {
        let k = choose|k: int|
            0 <= k <= span && #[trigger] column_clear(nodes, col_at(preferred, limit, k), y0, y1) && forall|j: int|
                0 <= j < k ==> !#[trigger] column_clear(nodes, col_at(preferred, limit, j), y0, y1);
        col_at(preferred, limit, k)
    } else {
        preferred
    }
}

/// Scan the columns from `preferred` to `limit` for one clear of node text
/// between rows `y0` and `y1`; fall back to `preferred`.
pub fn find_clear_col(nodes: &[(i32, i32, i32)], preferred: i32, limit: i32, y0: i32, y1: i32) -> (r: i32)
    ensures
        r == clear_col(nodes@, preferred as int, limit as int, y0 as int, y1 as int),
        (preferred <= r <= limit) || (limit <= r <= preferred),
{
    let step: i32 = if limit >= preferred { 1 } else { -1 };
    let ghost span: int = if limit >= preferred { limit - preferred } else { preferred - limit };
    let ghost p = preferred as int;
    let ghost l = limit as int;
    let mut cx: i32 = preferred;
    let ghost mut k: int = 0;
    loop
        invariant
            p == preferred as int,
            l == limit as int,
            step == (if limit >= preferred { 1i32 } else { -1i32 }),
            span == (if limit >= preferred { limit - preferred } else { preferred - limit }),
            0 <= k <= span,
            cx == col_at(p, l, k),
            forall|j: int| 0 <= j < k ==> !#[trigger] column_clear(nodes@, col_at(p, l, j), y0 as int, y1 as int),
        decreases span - k,
    {
        if col_clear_vert(nodes, cx, y0, y1) {
            proof {
                assert(column_clear(nodes@, col_at(p, l, k), y0 as int, y1 as int));
                let c = choose|c: int|
                    0 <= c <= span && #[trigger] column_clear(nodes@, col_at(p, l, c), y0 as int, y1 as int) && forall|j: int|
                        0 <= j < c ==> !#[trigger] column_clear(nodes@, col_at(p, l, j), y0 as int, y1 as int);
                if c < k {
                    assert(!column_clear(nodes@, col_at(p, l, c), y0 as int, y1 as int));
                } else if c > k {
                    assert(!column_clear(nodes@, col_at(p, l, k), y0 as int, y1 as int));
                }
            }
            return cx;
        }
        if cx == limit {
            proof {
                assert(k == span);
                assert forall|c: int| 0 <= c <= span implies !#[trigger] column_clear(nodes@, col_at(p, l, c), y0 as int, y1 as int) by {
                    if c < k {
                    }
                }
            }
            return preferred;
        }
        cx = cx + step;
        proof {
            k = k + 1;
        }
    }
}

/// Coordinates well inside `i32`, so that routing arithmetic cannot overflow.
pub open spec fn small(v: i32) -> bool {
    -0x4000_0000 <= v <= 0x4000_0000
}

/// The screen cell of world cell `(wx, wy)`, if it is on a `w` by `h`
/// screen whose top left is the world cell `(cam_x, cam_y)`.
pub open spec fn on_screen(w: u16, h: u16, cam_x: int, cam_y: int, wx: int, wy: int) -> Option<(u16, u16)> {
    let sx = wx - cam_x;
    let sy = wy - cam_y;
    if sx < 0 || sy < 0 || sx >= w || sy >= h {
        None
    } else {
        Some((sx as u16, sy as u16))
    }
}

/// One drawing step at a world cell: `(x, y, bits, arrowhead)`, a through
/// segment with direction `bits`, or an arrowhead entered from `bits`.
pub type DrawOp = (int, int, u8, bool);

/// A cell after one drawing step on it.
pub open spec fn apply_op(c: Option<Cell>, op: DrawOp) -> Option<Cell> {
    Some(if op.3 { with_terminal(c, op.2) } else { with_seg(c, op.2) })
}

/// Screen cell `(x, y)`, starting from `c`, after the drawing steps `ops`
/// (those off screen or elsewhere leave it alone).
pub open spec fn cell_after(c: Option<Cell>, ops: Seq<DrawOp>, w: u16, h: u16, cam_x: int, cam_y: int, x: u16, y: u16) -> Option<Cell>
    decreases ops.len(),
{
    if ops.len() == 0 {
        c
    } else {
        let prev = cell_after(c, ops.drop_last(), w, h, cam_x, cam_y, x, y);
        let op = ops.last();
        if on_screen(w, h, cam_x, cam_y, op.0, op.1) == Some((x, y)) {
            apply_op(prev, op)
        } else {
            prev
        }
    }
}

/// `b` is `a` with the steps `ops` drawn on a `w` by `h` screen whose top
/// left is the world cell `(cam_x, cam_y)`.
pub open spec fn drawn(a: ArrowBuf, b: ArrowBuf, ops: Seq<DrawOp>, w: u16, h: u16, cam_x: int, cam_y: int) -> bool {
    forall|x: u16, y: u16| #[trigger] b.cell(x, y) == cell_after(a.cell(x, y), ops, w, h, cam_x, cam_y, x, y)
}

proof fn lemma_cell_after_concat(c: Option<Cell>, p: Seq<DrawOp>, q: Seq<DrawOp>, w: u16, h: u16, cam_x: int, cam_y: int, x: u16, y: u16)
    ensures
        cell_after(c, p + q, w, h, cam_x, cam_y, x, y) == cell_after(cell_after(c, p, w, h, cam_x, cam_y, x, y), q, w, h, cam_x, cam_y, x, y),
    decreases q.len(),
{
    if q.len() == 0 {
        assert(p + q =~= p);
    } else {
        assert((p + q).drop_last() =~= p + q.drop_last());
        assert((p + q).last() == q.last());
        lemma_cell_after_concat(c, p, q.drop_last(), w, h, cam_x, cam_y, x, y);
    }
}

/// Drawing `p` and then `q` draws `p + q`.
proof fn lemma_drawn_concat(a: ArrowBuf, b: ArrowBuf, c: ArrowBuf, p: Seq<DrawOp>, q: Seq<DrawOp>, w: u16, h: u16, cam_x: int, cam_y: int)
    requires
        drawn(a, b, p, w, h, cam_x, cam_y),
        drawn(b, c, q, w, h, cam_x, cam_y),
    ensures
        drawn(a, c, p + q, w, h, cam_x, cam_y),
{
    assert forall|x: u16, y: u16| #[trigger] c.cell(x, y) == cell_after(a.cell(x, y), p + q, w, h, cam_x, cam_y, x, y) by {
        lemma_cell_after_concat(a.cell(x, y), p, q, w, h, cam_x, cam_y, x, y);
    }
}

proof fn lemma_drawn_nothing(a: ArrowBuf, w: u16, h: u16, cam_x: int, cam_y: int)
    ensures
        drawn(a, a, Seq::empty(), w, h, cam_x, cam_y),
{
}

/// A segment at world cell `(wx, wy)`, drawn when on screen.
fn seg_at(buf: &mut ArrowBuf, w: u16, h: u16, cam_x: i64, cam_y: i64, wx: i64, wy: i64, bits: u8)
    requires
        -0x1_0000_0000 <= wx - cam_x <= 0x1_0000_0000,
        -0x1_0000_0000 <= wy - cam_y <= 0x1_0000_0000,
    ensures
        drawn(*old(buf), *final(buf), seq![(wx as int, wy as int, bits, false)], w, h, cam_x as int, cam_y as int),
{
    let ghost op: DrawOp = (wx as int, wy as int, bits, false);
    proof {
        assert(seq![op].drop_last() =~= Seq::<DrawOp>::empty());
    }
    let sx = wx - cam_x;
    let sy = wy - cam_y;
    if sx < 0 || sy < 0 || sx >= w as i64 || sy >= h as i64 {
        proof {
            assert(on_screen(w, h, cam_x as int, cam_y as int, op.0, op.1) is None);
            assert forall|x: u16, y: u16| #[trigger] buf.cell(x, y) == cell_after(old(buf).cell(x, y), seq![op], w, h, cam_x as int, cam_y as int, x, y) by {
                reveal_with_fuel(cell_after, 2);
                assert(seq![op].last() == op);
                assert(cell_after(old(buf).cell(x, y), seq![op].drop_last(), w, h, cam_x as int, cam_y as int, x, y) == old(buf).cell(x, y));
            }
        }
        return;
    }
    buf.add_seg(sx as u16, sy as u16, bits);
    proof {
        assert(on_screen(w, h, cam_x as int, cam_y as int, op.0, op.1) == Some((sx as u16, sy as u16)));
        assert forall|x: u16, y: u16| #[trigger] buf.cell(x, y) == cell_after(old(buf).cell(x, y), seq![op], w, h, cam_x as int, cam_y as int, x, y) by {
                reveal_with_fuel(cell_after, 2);
                assert(seq![op].last() == op);
                assert(cell_after(old(buf).cell(x, y), seq![op].drop_last(), w, h, cam_x as int, cam_y as int, x, y) == old(buf).cell(x, y));
            }
    }
}

/// An arrowhead at world cell `(wx, wy)`, drawn when on screen.
fn term_at(buf: &mut ArrowBuf, w: u16, h: u16, cam_x: i64, cam_y: i64, wx: i64, wy: i64, entry: u8)
    requires
        -0x1_0000_0000 <= wx - cam_x <= 0x1_0000_0000,
        -0x1_0000_0000 <= wy - cam_y <= 0x1_0000_0000,
    ensures
        drawn(*old(buf), *final(buf), seq![(wx as int, wy as int, entry, true)], w, h, cam_x as int, cam_y as int),
{
    let ghost op: DrawOp = (wx as int, wy as int, entry, true);
    proof {
        assert(seq![op].drop_last() =~= Seq::<DrawOp>::empty());
    }
    let sx = wx - cam_x;
    let sy = wy - cam_y;
    if sx < 0 || sy < 0 || sx >= w as i64 || sy >= h as i64 {
        proof {
            assert(on_screen(w, h, cam_x as int, cam_y as int, op.0, op.1) is None);
            assert forall|x: u16, y: u16| #[trigger] buf.cell(x, y) == cell_after(old(buf).cell(x, y), seq![op], w, h, cam_x as int, cam_y as int, x, y) by {
                reveal_with_fuel(cell_after, 2);
                assert(seq![op].last() == op);
                assert(cell_after(old(buf).cell(x, y), seq![op].drop_last(), w, h, cam_x as int, cam_y as int, x, y) == old(buf).cell(x, y));
            }
        }
        return;
    }
    buf.add_terminal(sx as u16, sy as u16, entry);
    proof {
        assert(on_screen(w, h, cam_x as int, cam_y as int, op.0, op.1) == Some((sx as u16, sy as u16)));
        assert forall|x: u16, y: u16| #[trigger] buf.cell(x, y) == cell_after(old(buf).cell(x, y), seq![op], w, h, cam_x as int, cam_y as int, x, y) by {
                reveal_with_fuel(cell_after, 2);
                assert(seq![op].last() == op);
                assert(cell_after(old(buf).cell(x, y), seq![op].drop_last(), w, h, cam_x as int, cam_y as int, x, y) == old(buf).cell(x, y));
            }
    }
}

/// Segments `bits` on the world cells `from..to` of row `wy`.
pub open spec fn hline_ops(from: int, to: int, wy: int, bits: u8) -> Seq<DrawOp> {
    Seq::new(if to > from { (to - from) as nat } else { 0 }, |i: int| (from + i, wy, bits, false))
}

/// Vertical segments on column `wx` strictly between rows `r0` and `r1`.
pub open spec fn vline_ops(wx: int, r0: int, r1: int) -> Seq<DrawOp> {
    let lo = if r0 < r1 { r0 + 1 } else { r1 + 1 };
    let hi = if r0 < r1 { r1 } else { r0 };
    Seq::new(if hi > lo { (hi - lo) as nat } else { 0 }, |i: int| (wx, lo + i, CN | CS, false))
}

/// Segments `bits` on the world cells `from..to` of row `wy`.
fn hline(buf: &mut ArrowBuf, w: u16, h: u16, cam_x: i64, cam_y: i64, from: i64, to: i64, wy: i64, bits: u8)
    requires
        -0x1_0000_0000 <= from - cam_x <= 0x1_0000_0000,
        -0x1_0000_0000 <= to - cam_x <= 0x1_0000_0000,
        -0x1_0000_0000 <= wy - cam_y <= 0x1_0000_0000,
    ensures
        drawn(*old(buf), *final(buf), hline_ops(from as int, to as int, wy as int, bits), w, h, cam_x as int, cam_y as int),
{
    let ghost start = *buf;
    let mut x = from;
    proof {
        assert(hline_ops(from as int, from as int, wy as int, bits) =~= Seq::empty());
    }
    while x < to
        invariant
            -0x1_0000_0000 <= from - cam_x <= 0x1_0000_0000,
            -0x1_0000_0000 <= to - cam_x <= 0x1_0000_0000,
            -0x1_0000_0000 <= wy - cam_y <= 0x1_0000_0000,
            from <= x,
            x <= to || from >= to,
            from >= to ==> x == from,
            drawn(start, *buf, hline_ops(from as int, x as int, wy as int, bits), w, h, cam_x as int, cam_y as int),
        decreases to - x,
    {
        let ghost mid = *buf;
        seg_at(buf, w, h, cam_x, cam_y, x, wy, bits);
        proof {
            lemma_drawn_concat(start, mid, *buf, hline_ops(from as int, x as int, wy as int, bits), seq![(x as int, wy as int, bits, false)], w, h, cam_x as int, cam_y as int);
            assert(hline_ops(from as int, x as int, wy as int, bits) + seq![(x as int, wy as int, bits, false)] =~= hline_ops(from as int, x + 1, wy as int, bits));
        }
        x = x + 1;
    }
    proof {
        if from >= to {
            assert(hline_ops(from as int, to as int, wy as int, bits) =~= hline_ops(from as int, x as int, wy as int, bits));
        }
    }
}

/// Vertical segments on column `wx` strictly between rows `r0` and `r1`.
fn vline(buf: &mut ArrowBuf, w: u16, h: u16, cam_x: i64, cam_y: i64, wx: i64, r0: i64, r1: i64)
    requires
        -0x1_0000_0000 <= cam_y <= 0x1_0000_0000,
        -0x1_0000_0000 <= wx - cam_x <= 0x1_0000_0000,
        -0x1_0000_0000 <= r0 - cam_y <= 0x1_0000_0000,
        -0x1_0000_0000 <= r1 - cam_y <= 0x1_0000_0000,
    ensures
        drawn(*old(buf), *final(buf), vline_ops(wx as int, r0 as int, r1 as int), w, h, cam_x as int, cam_y as int),
{
    let ghost start = *buf;
    let (lo, hi) = if r0 < r1 { (r0 + 1, r1) } else { (r1 + 1, r0) };
    let mut y = lo;
    let ghost lv = lo as int;
    proof {
        assert(Seq::<DrawOp>::new(0, |i: int| (wx as int, lv + i, CN | CS, false)) =~= Seq::empty());
    }
    while y < hi
        invariant
            -0x1_0000_0000 <= wx - cam_x <= 0x1_0000_0000,
            -0x1_0000_0000 <= lo - 1 - cam_y <= 0x1_0000_0000,
            -0x1_0000_0000 <= hi - cam_y <= 0x1_0000_0000,
            lv == lo,
            lo <= y,
            y <= hi || lo >= hi,
            lo >= hi ==> y == lo,
            drawn(start, *buf, Seq::new((y - lo) as nat, |i: int| (wx as int, lv + i, CN | CS, false)), w, h, cam_x as int, cam_y as int),
        decreases hi - y,
    {
        let ghost mid = *buf;
        seg_at(buf, w, h, cam_x, cam_y, wx, y, CN | CS);
        proof {
            let done = Seq::new((y - lo) as nat, |i: int| (wx as int, lv + i, CN | CS, false));
            lemma_drawn_concat(start, mid, *buf, done, seq![(wx as int, y as int, CN | CS, false)], w, h, cam_x as int, cam_y as int);
            assert(done + seq![(wx as int, y as int, CN | CS, false)] =~= Seq::new((y + 1 - lo) as nat, |i: int| (wx as int, lv + i, CN | CS, false)));
        }
        y = y + 1;
    }
    proof {
        let done = Seq::new((y - lo) as nat, |i: int| (wx as int, lv + i, CN | CS, false));
        assert(done =~= vline_ops(wx as int, r0 as int, r1 as int));
    }
}

/// The hook drawn when the column spans of the two nodes overlap: right
/// of both, on the first column clear of node text among the 31 from four
/// past the further right end (or that one), ending in a "←" right of the
/// target.
pub open spec fn hook_plan(nodes: Seq<(i32, i32, i32)>, ox: int, oy: int, ox_end: int, tx: int, ty: int, tx_end: int) -> Seq<DrawOp> {
    let down = ty > oy;
    let base = (if ox_end >= tx_end { ox_end } else { tx_end }) + 4;
    let hook = clear_col(nodes, base, base + 30, oy, ty);
    hline_ops(ox_end + 1, hook, oy, CE | CW) + seq![(hook, oy, if down { CW | CS } else { CW | CN }, false)]
        + vline_ops(hook, oy, ty) + seq![(hook, ty, if down { CW | CN } else { CW | CS }, false)]
        + hline_ops(tx_end + 2, hook, ty, CE | CW) + seq![(tx_end + 1, ty, CE, true)]
}

/// The line to a target right of the origin: along the origin's row from
/// its right end to a column (the first clear one scanning from two before
/// the target back towards the origin, when the gap is three columns or
/// more, else the one next to the target), down or up it, and along the
/// target's row to an arrowhead "→" in the cell just left of the target.
pub open spec fn right_plan(nodes: Seq<(i32, i32, i32)>, ox: int, oy: int, ox_end: int, tx: int, ty: int, tx_end: int) -> Seq<DrawOp> {
    let down = ty > oy;
    let use_z = tx - ox_end >= 3;
    let cx = if use_z { clear_col(nodes, tx - 2, ox_end + 1, oy, ty) } else { tx - 1 };
    let head = tx - 1;
    hline_ops(ox_end + 1, cx, oy, CE | CW) + if oy == ty {
        hline_ops(cx, head, oy, CE | CW) + seq![(head, ty, CW, true)]
    } else {
        seq![(cx, oy, if down { CW | CS } else { CW | CN }, false)] + vline_ops(cx, oy, ty) + if use_z {
            seq![(cx, ty, if down { CE | CN } else { CE | CS }, false)] + hline_ops(cx + 1, head, ty, CE | CW)
                + seq![(head, ty, CW, true)]
        } else {
            seq![(cx, ty, CW, true)]
        }
    }
}

/// The mirror image of `right_plan` for a target left of the origin, ending
/// in a "←" in the cell just right of the target.
pub open spec fn left_plan(nodes: Seq<(i32, i32, i32)>, ox: int, oy: int, ox_end: int, tx: int, ty: int, tx_end: int) -> Seq<DrawOp> {
    let down = ty > oy;
    let use_z = ox - tx_end >= 3;
    let cx = if use_z { clear_col(nodes, tx_end + 2, ox - 1, oy, ty) } else { tx_end + 1 };
    let head = tx_end + 1;
    hline_ops(cx + 1, ox, oy, CE | CW) + if oy == ty {
        hline_ops(head + 1, cx + 1, oy, CE | CW) + seq![(head, ty, CE, true)]
    } else {
        seq![(cx, oy, if down { CE | CS } else { CE | CN }, false)] + vline_ops(cx, oy, ty) + if use_z {
            seq![(cx, ty, if down { CW | CN } else { CW | CS }, false)] + hline_ops(head + 1, cx, ty, CE | CW)
                + seq![(head, ty, CE, true)]
        } else {
            seq![(cx, ty, CE, true)]
        }
    }
}

/// The drawing steps of the link from the node spanning columns
/// `ox..=ox_end` on row `oy` to the node spanning `tx..=tx_end` on row `ty`
/// (`nodes` holds `(world_x, world_y, world_x_end)` of the visible nodes):
/// nothing for a link to itself, a hook when the column spans overlap, and
/// otherwise a line from the side of the origin facing the target.
pub open spec fn route_plan(nodes: Seq<(i32, i32, i32)>, ox: int, oy: int, ox_end: int, tx: int, ty: int, tx_end: int) -> Seq<DrawOp> {
    if ox == tx && ox_end == tx_end && oy == ty {
        Seq::empty()
    } else if tx <= ox_end && tx_end >= ox {
        hook_plan(nodes, ox, oy, ox_end, tx, ty, tx_end)
    } else if tx > ox_end {
        right_plan(nodes, ox, oy, ox_end, tx, ty, tx_end)
    } else {
        left_plan(nodes, ox, oy, ox_end, tx, ty, tx_end)
    }
}


/// Every step of `ops` on row `row` lies right of column `x0`.
pub open spec fn row_right_of(ops: Seq<DrawOp>, row: int, x0: int) -> bool {
    forall|i: int| 0 <= i < ops.len() && (#[trigger] ops[i]).1 == row ==> ops[i].0 > x0
}

/// Every step of `ops` on row `row` lies left of column `x0`.
pub open spec fn row_left_of(ops: Seq<DrawOp>, row: int, x0: int) -> bool {
    forall|i: int| 0 <= i < ops.len() && (#[trigger] ops[i]).1 == row ==> ops[i].0 < x0
}

/// No step of `ops` lies on row `row` between columns `lo` and `hi`.
pub open spec fn avoids(ops: Seq<DrawOp>, row: int, lo: int, hi: int) -> bool {
    forall|i: int| 0 <= i < ops.len() ==> !((#[trigger] ops[i]).1 == row && lo <= ops[i].0 <= hi)
}

/// Some step of `ops` is at world cell `(x, y)`.
pub open spec fn touches(ops: Seq<DrawOp>, x: int, y: int) -> bool {
    exists|i: int| 0 <= i < ops.len() && (#[trigger] ops[i]).0 == x && ops[i].1 == y
}

proof fn lemma_right_of_concat(a: Seq<DrawOp>, b: Seq<DrawOp>, row: int, x0: int)
    requires
        row_right_of(a, row, x0),
        row_right_of(b, row, x0),
    ensures
        row_right_of(a + b, row, x0),
{
    assert forall|i: int| 0 <= i < (a + b).len() && (#[trigger] (a + b)[i]).1 == row implies (a + b)[i].0 > x0 by {
        if i < a.len() {
            assert((a + b)[i] == a[i]);
        } else {
            assert((a + b)[i] == b[i - a.len()]);
        }
    }
}

proof fn lemma_left_of_concat(a: Seq<DrawOp>, b: Seq<DrawOp>, row: int, x0: int)
    requires
        row_left_of(a, row, x0),
        row_left_of(b, row, x0),
    ensures
        row_left_of(a + b, row, x0),
{
    assert forall|i: int| 0 <= i < (a + b).len() && (#[trigger] (a + b)[i]).1 == row implies (a + b)[i].0 < x0 by {
        if i < a.len() {
            assert((a + b)[i] == a[i]);
        } else {
            assert((a + b)[i] == b[i - a.len()]);
        }
    }
}

proof fn lemma_avoids_concat(a: Seq<DrawOp>, b: Seq<DrawOp>, row: int, lo: int, hi: int)
    requires
        avoids(a, row, lo, hi),
        avoids(b, row, lo, hi),
    ensures
        avoids(a + b, row, lo, hi),
{
    assert forall|i: int| 0 <= i < (a + b).len() implies !((#[trigger] (a + b)[i]).1 == row && lo <= (a + b)[i].0 <= hi) by {
        if i < a.len() {
            assert((a + b)[i] == a[i]);
        } else {
            assert((a + b)[i] == b[i - a.len()]);
        }
    }
}

proof fn lemma_touches_concat(a: Seq<DrawOp>, b: Seq<DrawOp>, x: int, y: int)
    requires
        touches(a, x, y) || touches(b, x, y),
    ensures
        touches(a + b, x, y),
{
    if touches(a, x, y) {
        let i = choose|i: int| 0 <= i < a.len() && (#[trigger] a[i]).0 == x && a[i].1 == y;
        assert((a + b)[i] == a[i]);
    } else {
        let i = choose|i: int| 0 <= i < b.len() && (#[trigger] b[i]).0 == x && b[i].1 == y;
        assert((a + b)[a.len() + i] == b[i]);
    }
}

/// A clear column at step `k` means there is a first clear one.
proof fn lemma_first_clear(nodes: Seq<(i32, i32, i32)>, preferred: int, limit: int, y0: int, y1: int, k: int)
    requires
        0 <= k,
        column_clear(nodes, col_at(preferred, limit, k), y0, y1),
    ensures
        exists|m: int|
            0 <= m <= k && #[trigger] column_clear(nodes, col_at(preferred, limit, m), y0, y1) && forall|j: int|
                0 <= j < m ==> !#[trigger] column_clear(nodes, col_at(preferred, limit, j), y0, y1),
    decreases k,
{
    if exists|j: int| 0 <= j < k && #[trigger] column_clear(nodes, col_at(preferred, limit, j), y0, y1) {
        let j = choose|j: int| 0 <= j < k && #[trigger] column_clear(nodes, col_at(preferred, limit, j), y0, y1);
        lemma_first_clear(nodes, preferred, limit, y0, y1, j);
    } else {
        assert(0 <= k <= k && column_clear(nodes, col_at(preferred, limit, k), y0, y1));
    }
}

/// The first clear column lies between the preferred column and the limit.
proof fn lemma_clear_col_range(nodes: Seq<(i32, i32, i32)>, preferred: int, limit: int, y0: int, y1: int)
    ensures
        ({
            let r = clear_col(nodes, preferred, limit, y0, y1);
            (preferred <= r <= limit) || (limit <= r <= preferred)
        }),
{
    let span: int = if limit >= preferred { limit - preferred } else { preferred - limit };
    if exists|k: int| 0 <= k <= span && #[trigger] column_clear(nodes, col_at(preferred, limit, k), y0, y1) {
        let k0 = choose|k: int| 0 <= k <= span && #[trigger] column_clear(nodes, col_at(preferred, limit, k), y0, y1);
        lemma_first_clear(nodes, preferred, limit, y0, y1, k0);
    }
}


#[verifier::spinoff_prover]
#[verifier::rlimit(60)]
proof fn lemma_right_plan(nodes: Seq<(i32, i32, i32)>, ox: int, oy: int, ox_end: int, tx: int, ty: int, tx_end: int)
    requires
        tx > ox_end,
        tx <= tx_end,
    ensures
        avoids(right_plan(nodes, ox, oy, ox_end, tx, ty, tx_end), ty, tx, tx_end),
        tx >= ox_end + 2 ==> row_right_of(right_plan(nodes, ox, oy, ox_end, tx, ty, tx_end), oy, ox_end),
        tx >= ox_end + 2 ==> touches(right_plan(nodes, ox, oy, ox_end, tx, ty, tx_end), ox_end + 1, oy),
{
    let down = ty > oy;
    let use_z = tx - ox_end >= 3;
    let cx = if use_z { clear_col(nodes, tx - 2, ox_end + 1, oy, ty) } else { tx - 1 };
    let head = tx - 1;
    if use_z {
        lemma_clear_col_range(nodes, tx - 2, ox_end + 1, oy, ty);
    }
    assert(ox_end <= cx <= tx - 1);
    assert(tx >= ox_end + 2 ==> cx >= ox_end + 1);
    assert(head <= tx - 1);
    let a = hline_ops(ox_end + 1, cx, oy, CE | CW);
    let rest = if oy == ty {
        hline_ops(cx, head, oy, CE | CW) + seq![(head, ty, CW, true)]
    } else {
        seq![(cx, oy, if down { CW | CS } else { CW | CN }, false)] + vline_ops(cx, oy, ty) + if use_z {
            seq![(cx, ty, if down { CE | CN } else { CE | CS }, false)] + hline_ops(cx + 1, head, ty, CE | CW)
                + seq![(head, ty, CW, true)]
        } else {
            seq![(cx, ty, CW, true)]
        }
    };
    let plan = right_plan(nodes, ox, oy, ox_end, tx, ty, tx_end);
    assert(plan == a + rest);
    assert(avoids(a, ty, tx, tx_end));
    assert(avoids(rest, ty, tx, tx_end));
    lemma_avoids_concat(a, rest, ty, tx, tx_end);
    if tx >= ox_end + 2 {
        assert(row_right_of(a, oy, ox_end));
        assert(row_right_of(rest, oy, ox_end));
        lemma_right_of_concat(a, rest, oy, ox_end);
        if cx > ox_end + 1 {
            assert(a[0] == (ox_end + 1, oy, CE | CW, false));
            lemma_touches_concat(a, rest, ox_end + 1, oy);
        } else {
            assert(rest[0].0 == ox_end + 1 && rest[0].1 == oy);
            lemma_touches_concat(a, rest, ox_end + 1, oy);
        }
    }
}

#[verifier::spinoff_prover]
#[verifier::rlimit(60)]
proof fn lemma_left_plan(nodes: Seq<(i32, i32, i32)>, ox: int, oy: int, ox_end: int, tx: int, ty: int, tx_end: int)
    requires
        tx_end < ox,
        tx <= tx_end,
    ensures
        avoids(left_plan(nodes, ox, oy, ox_end, tx, ty, tx_end), ty, tx, tx_end),
        tx_end <= ox - 2 ==> row_left_of(left_plan(nodes, ox, oy, ox_end, tx, ty, tx_end), oy, ox),
        tx_end <= ox - 2 ==> touches(left_plan(nodes, ox, oy, ox_end, tx, ty, tx_end), ox - 1, oy),
{
    let down = ty > oy;
    let use_z = ox - tx_end >= 3;
    let cx = if use_z { clear_col(nodes, tx_end + 2, ox - 1, oy, ty) } else { tx_end + 1 };
    let head = tx_end + 1;
    if use_z {
        lemma_clear_col_range(nodes, tx_end + 2, ox - 1, oy, ty);
    }
    assert(tx_end + 1 <= cx <= ox);
    assert(tx_end <= ox - 2 ==> cx <= ox - 1);
    assert(head >= tx_end + 1);
    let a = hline_ops(cx + 1, ox, oy, CE | CW);
    let rest = if oy == ty {
        hline_ops(head + 1, cx + 1, oy, CE | CW) + seq![(head, ty, CE, true)]
    } else {
        seq![(cx, oy, if down { CE | CS } else { CE | CN }, false)] + vline_ops(cx, oy, ty) + if use_z {
            seq![(cx, ty, if down { CW | CN } else { CW | CS }, false)] + hline_ops(head + 1, cx, ty, CE | CW)
                + seq![(head, ty, CE, true)]
        } else {
            seq![(cx, ty, CE, true)]
        }
    };
    let plan = left_plan(nodes, ox, oy, ox_end, tx, ty, tx_end);
    assert(plan == a + rest);
    assert(avoids(a, ty, tx, tx_end));
    assert(avoids(rest, ty, tx, tx_end));
    lemma_avoids_concat(a, rest, ty, tx, tx_end);
    if tx_end <= ox - 2 {
        assert(row_left_of(a, oy, ox));
        assert(row_left_of(rest, oy, ox));
        lemma_left_of_concat(a, rest, oy, ox);
        if cx < ox - 1 {
            assert(a[a.len() - 1] == (ox - 1, oy, CE | CW, false));
            lemma_touches_concat(a, rest, ox - 1, oy);
        } else {
            if oy == ty {
                if use_z {
                    assert(rest[(ox - 1) - (tx_end + 2)].0 == ox - 1 && rest[(ox - 1) - (tx_end + 2)].1 == oy);
                } else {
                    assert(rest[0] == (head, ty, CE, true));
                }
            } else {
                assert(rest[0].0 == ox - 1 && rest[0].1 == oy);
            }
            lemma_touches_concat(a, rest, ox - 1, oy);
        }
    }
}

proof fn lemma_hook_plan(nodes: Seq<(i32, i32, i32)>, ox: int, oy: int, ox_end: int, tx: int, ty: int, tx_end: int)
    requires
        oy != ty,
        ox <= ox_end,
        tx <= tx_end,
    ensures
        avoids(hook_plan(nodes, ox, oy, ox_end, tx, ty, tx_end), ty, tx, tx_end),
        row_right_of(hook_plan(nodes, ox, oy, ox_end, tx, ty, tx_end), oy, ox_end),
        touches(hook_plan(nodes, ox, oy, ox_end, tx, ty, tx_end), ox_end + 1, oy),
{
    let down = ty > oy;
    let base = (if ox_end >= tx_end { ox_end } else { tx_end }) + 4;
    let hook = clear_col(nodes, base, base + 30, oy, ty);
    lemma_clear_col_range(nodes, base, base + 30, oy, ty);
    let a = hline_ops(ox_end + 1, hook, oy, CE | CW);
    let b = seq![(hook, oy, if down { CW | CS } else { CW | CN }, false)];
    let c = vline_ops(hook, oy, ty);
    let d = seq![(hook, ty, if down { CW | CN } else { CW | CS }, false)];
    let e = hline_ops(tx_end + 2, hook, ty, CE | CW);
    let f = seq![(tx_end + 1, ty, CE, true)];
    let plan = hook_plan(nodes, ox, oy, ox_end, tx, ty, tx_end);
    assert(plan == a + b + c + d + e + f);
    assert(avoids(a, ty, tx, tx_end) && avoids(b, ty, tx, tx_end) && avoids(c, ty, tx, tx_end));
    assert(avoids(d, ty, tx, tx_end) && avoids(e, ty, tx, tx_end) && avoids(f, ty, tx, tx_end));
    lemma_avoids_concat(a, b, ty, tx, tx_end);
    lemma_avoids_concat(a + b, c, ty, tx, tx_end);
    lemma_avoids_concat(a + b + c, d, ty, tx, tx_end);
    lemma_avoids_concat(a + b + c + d, e, ty, tx, tx_end);
    lemma_avoids_concat(a + b + c + d + e, f, ty, tx, tx_end);
    assert(row_right_of(a, oy, ox_end) && row_right_of(b, oy, ox_end) && row_right_of(c, oy, ox_end));
    assert(row_right_of(d, oy, ox_end) && row_right_of(e, oy, ox_end) && row_right_of(f, oy, ox_end));
    lemma_right_of_concat(a, b, oy, ox_end);
    lemma_right_of_concat(a + b, c, oy, ox_end);
    lemma_right_of_concat(a + b + c, d, oy, ox_end);
    lemma_right_of_concat(a + b + c + d, e, oy, ox_end);
    lemma_right_of_concat(a + b + c + d + e, f, oy, ox_end);
    assert(a[0] == (ox_end + 1, oy, CE | CW, false));
    assert((a + b + c + d + e + f)[0] == a[0]);
}

/// A link to a node right of its origin, at least one column apart, stays
/// right of the origin on the origin's row and starts in the cell just
/// right of the origin's end: it leaves from the right side and never
/// crosses the origin.
pub proof fn lemma_link_leaves_right(nodes: Seq<(i32, i32, i32)>, ox: int, oy: int, ox_end: int, tx: int, ty: int, tx_end: int)
    requires
        ox <= ox_end,
        tx <= tx_end,
        tx >= ox_end + 2,
    ensures
        row_right_of(route_plan(nodes, ox, oy, ox_end, tx, ty, tx_end), oy, ox_end),
        touches(route_plan(nodes, ox, oy, ox_end, tx, ty, tx_end), ox_end + 1, oy),
{
    lemma_right_plan(nodes, ox, oy, ox_end, tx, ty, tx_end);
}

/// A link to a node left of its origin, at least one column apart, stays
/// left of the origin on the origin's row and reaches the cell just left
/// of the origin's start: it leaves from the left side and never crosses
/// the origin.
pub proof fn lemma_link_leaves_left(nodes: Seq<(i32, i32, i32)>, ox: int, oy: int, ox_end: int, tx: int, ty: int, tx_end: int)
    requires
        ox <= ox_end,
        tx <= tx_end,
        tx_end <= ox - 2,
    ensures
        row_left_of(route_plan(nodes, ox, oy, ox_end, tx, ty, tx_end), oy, ox),
        touches(route_plan(nodes, ox, oy, ox_end, tx, ty, tx_end), ox - 1, oy),
{
    lemma_left_plan(nodes, ox, oy, ox_end, tx, ty, tx_end);
}

/// A link between nodes on different rows whose column spans overlap hooks
/// out of the origin's right end and never crosses the origin.
pub proof fn lemma_hook_leaves_right(nodes: Seq<(i32, i32, i32)>, ox: int, oy: int, ox_end: int, tx: int, ty: int, tx_end: int)
    requires
        ox <= ox_end,
        tx <= tx_end,
        tx <= ox_end && tx_end >= ox,
        oy != ty,
    ensures
        row_right_of(route_plan(nodes, ox, oy, ox_end, tx, ty, tx_end), oy, ox_end),
        touches(route_plan(nodes, ox, oy, ox_end, tx, ty, tx_end), ox_end + 1, oy),
{
    lemma_hook_plan(nodes, ox, oy, ox_end, tx, ty, tx_end);
}

/// A link never draws over its target node (two different nodes whose
/// spans overlap on the same row excepted).
pub proof fn lemma_link_spares_target(nodes: Seq<(i32, i32, i32)>, ox: int, oy: int, ox_end: int, tx: int, ty: int, tx_end: int)
    requires
        ox <= ox_end,
        tx <= tx_end,
        !(ox == tx && ox_end == tx_end && oy == ty),
        !(tx <= ox_end && tx_end >= ox && oy == ty),
    ensures
        avoids(route_plan(nodes, ox, oy, ox_end, tx, ty, tx_end), ty, tx, tx_end),
{
    if tx <= ox_end && tx_end >= ox {
        lemma_hook_plan(nodes, ox, oy, ox_end, tx, ty, tx_end);
    } else if tx > ox_end {
        lemma_right_plan(nodes, ox, oy, ox_end, tx, ty, tx_end);
    } else {
        lemma_left_plan(nodes, ox, oy, ox_end, tx, ty, tx_end);
    }
}

proof fn lemma_hook_plan_last(nodes: Seq<(i32, i32, i32)>, ox: int, oy: int, ox_end: int, tx: int, ty: int, tx_end: int)
    ensures
        hook_plan(nodes, ox, oy, ox_end, tx, ty, tx_end).len() > 0,
        hook_plan(nodes, ox, oy, ox_end, tx, ty, tx_end).last() == (tx_end + 1, ty, CE, true),
{
    let down = ty > oy;
    let base = (if ox_end >= tx_end { ox_end } else { tx_end }) + 4;
    let hook = clear_col(nodes, base, base + 30, oy, ty);
    let pre = hline_ops(ox_end + 1, hook, oy, CE | CW) + seq![(hook, oy, if down { CW | CS } else { CW | CN }, false)]
        + vline_ops(hook, oy, ty) + seq![(hook, ty, if down { CW | CN } else { CW | CS }, false)] + hline_ops(
        tx_end + 2,
        hook,
        ty,
        CE | CW,
    );
    assert(hook_plan(nodes, ox, oy, ox_end, tx, ty, tx_end) == pre + seq![(tx_end + 1, ty, CE, true)]);
}

proof fn lemma_last_concat(a: Seq<DrawOp>, b: Seq<DrawOp>)
    requires
        b.len() > 0,
    ensures
        (a + b).len() > 0,
        (a + b).last() == b.last(),
{
    assert((a + b)[(a + b).len() - 1] == b[b.len() - 1]);
}

#[verifier::spinoff_prover]
proof fn lemma_right_plan_last(nodes: Seq<(i32, i32, i32)>, ox: int, oy: int, ox_end: int, tx: int, ty: int, tx_end: int)
    ensures
        right_plan(nodes, ox, oy, ox_end, tx, ty, tx_end).len() > 0,
        right_plan(nodes, ox, oy, ox_end, tx, ty, tx_end).last() == (tx - 1, ty, CW, true),
{
    let down = ty > oy;
    let use_z = tx - ox_end >= 3;
    let cx = if use_z { clear_col(nodes, tx - 2, ox_end + 1, oy, ty) } else { tx - 1 };
    let head = tx - 1;
    let a = hline_ops(ox_end + 1, cx, oy, CE | CW);
    let t = seq![(head, ty, CW, true)];
    let inner = if use_z {
        seq![(cx, ty, if down { CE | CN } else { CE | CS }, false)] + hline_ops(cx + 1, head, ty, CE | CW) + t
    } else {
        seq![(cx, ty, CW, true)]
    };
    let rest = if oy == ty {
        hline_ops(cx, head, oy, CE | CW) + t
    } else {
        seq![(cx, oy, if down { CW | CS } else { CW | CN }, false)] + vline_ops(cx, oy, ty) + inner
    };
    assert(right_plan(nodes, ox, oy, ox_end, tx, ty, tx_end) == a + rest);
    if use_z {
        lemma_last_concat(seq![(cx, ty, if down { CE | CN } else { CE | CS }, false)] + hline_ops(cx + 1, head, ty, CE | CW), t);
    }
    if oy == ty {
        lemma_last_concat(hline_ops(cx, head, oy, CE | CW), t);
    } else {
        lemma_last_concat(seq![(cx, oy, if down { CW | CS } else { CW | CN }, false)] + vline_ops(cx, oy, ty), inner);
    }
    lemma_last_concat(a, rest);
}

#[verifier::spinoff_prover]
proof fn lemma_left_plan_last(nodes: Seq<(i32, i32, i32)>, ox: int, oy: int, ox_end: int, tx: int, ty: int, tx_end: int)
    ensures
        left_plan(nodes, ox, oy, ox_end, tx, ty, tx_end).len() > 0,
        left_plan(nodes, ox, oy, ox_end, tx, ty, tx_end).last() == (tx_end + 1, ty, CE, true),
{
    let down = ty > oy;
    let use_z = ox - tx_end >= 3;
    let cx = if use_z { clear_col(nodes, tx_end + 2, ox - 1, oy, ty) } else { tx_end + 1 };
    let head = tx_end + 1;
    let a = hline_ops(cx + 1, ox, oy, CE | CW);
    let t = seq![(head, ty, CE, true)];
    let inner = if use_z {
        seq![(cx, ty, if down { CW | CN } else { CW | CS }, false)] + hline_ops(head + 1, cx, ty, CE | CW) + t
    } else {
        seq![(cx, ty, CE, true)]
    };
    let rest = if oy == ty {
        hline_ops(head + 1, cx + 1, oy, CE | CW) + t
    } else {
        seq![(cx, oy, if down { CE | CS } else { CE | CN }, false)] + vline_ops(cx, oy, ty) + inner
    };
    assert(left_plan(nodes, ox, oy, ox_end, tx, ty, tx_end) == a + rest);
    if use_z {
        lemma_last_concat(seq![(cx, ty, if down { CW | CN } else { CW | CS }, false)] + hline_ops(head + 1, cx, ty, CE | CW), t);
    }
    if oy == ty {
        lemma_last_concat(hline_ops(head + 1, cx + 1, oy, CE | CW), t);
    } else {
        lemma_last_concat(seq![(cx, oy, if down { CE | CS } else { CE | CN }, false)] + vline_ops(cx, oy, ty), inner);
    }
    lemma_last_concat(a, rest);
}

/// Every link but one to itself ends in an arrowhead beside its target, on
/// the target's row: "→" in the cell just left of a target that lies right
/// of the origin, otherwise "←" in the cell just right of the target.
pub proof fn lemma_link_ends_beside_target(nodes: Seq<(i32, i32, i32)>, ox: int, oy: int, ox_end: int, tx: int, ty: int, tx_end: int)
    requires
        !(ox == tx && ox_end == tx_end && oy == ty),
    ensures
        route_plan(nodes, ox, oy, ox_end, tx, ty, tx_end).len() > 0,
        route_plan(nodes, ox, oy, ox_end, tx, ty, tx_end).last() == (if tx > ox_end {
            (tx - 1, ty, CW, true)
        } else {
            (tx_end + 1, ty, CE, true)
        }),
{
    if tx <= ox_end && tx_end >= ox {
        lemma_hook_plan_last(nodes, ox, oy, ox_end, tx, ty, tx_end);
    } else if tx > ox_end {
        lemma_right_plan_last(nodes, ox, oy, ox_end, tx, ty, tx_end);
    } else {
        lemma_left_plan_last(nodes, ox, oy, ox_end, tx, ty, tx_end);
    }
}

/// `v` has exactly one bit set exactly when it is a power of two.
proof fn lemma_one_bit(v: u8)
    ensures
        ones(v) == 1 <==> (v == 1 || v == 2 || v == 4 || v == 8 || v == 16 || v == 32 || v == 64 || v == 128),
    decreases v,
{
    if v > 0 {
        lemma_one_bit(v / 2);
        if ones(v) == 1 && v % 2 == 1 {
            assert(ones(v / 2) == 0);
            if v / 2 != 0 {
                lemma_ones_pos((v / 2) as u8);
            }
        }
    }
}

proof fn lemma_ones_pos(v: u8)
    requires
        v != 0,
    ensures
        ones(v) >= 1,
    decreases v,
{
    if v % 2 == 0 {
        lemma_ones_pos((v / 2) as u8);
    }
}

/// A cell as drawing leaves it: a lone arrowhead's entry is its only bit.
pub open spec fn cell_ok(c: Option<Cell>) -> bool {
    c matches Some(v) ==> (v.1 matches Some(e) ==> e == v.0 && ones(v.0) == 1)
}

proof fn lemma_apply_ok(c: Option<Cell>, o: DrawOp)
    requires
        cell_ok(c),
        o.2 != 0,
    ensures
        cell_ok(apply_op(c, o)),
{
    let b: u8 = match c {
        Some(v) => v.0,
        None => 0u8,
    };
    let b2 = b | o.2;
    lemma_one_bit(b2);
    let e = o.2;
    if o.3 && ones(b2) == 1 {
        assert(e == b2) by (bit_vector)
            requires
                b2 == b | e,
                e != 0,
                b2 == 1 || b2 == 2 || b2 == 4 || b2 == 8 || b2 == 16 || b2 == 32 || b2 == 64 || b2 == 128,
        ;
    }
    if !o.3 {
        if let Some(v) = c {
            let v0: u8 = v.0;
            if v.1 is Some && ones(b2) <= 1 {
                lemma_one_bit(v0);
                assert(b2 != 0) by (bit_vector)
                    requires
                        b2 == v0 | e,
                        e != 0,
                ;
                lemma_ones_pos(b2);
                assert(b2 == v0) by (bit_vector)
                    requires
                        b2 == v0 | e,
                        e != 0,
                        v0 == 1 || v0 == 2 || v0 == 4 || v0 == 8 || v0 == 16 || v0 == 32 || v0 == 64 || v0 == 128,
                        b2 == 1 || b2 == 2 || b2 == 4 || b2 == 8 || b2 == 16 || b2 == 32 || b2 == 64 || b2 == 128,
                ;
            }
        }
    }
}

/// Two drawing steps on one cell commute: an arrow cell holds the same
/// whatever order its segments and arrowheads were drawn in.
pub proof fn lemma_draw_steps_commute(c: Option<Cell>, o1: DrawOp, o2: DrawOp)
    requires
        cell_ok(c),
        o1.2 != 0,
        o2.2 != 0,
    ensures
        apply_op(apply_op(c, o1), o2) == apply_op(apply_op(c, o2), o1),
        cell_ok(apply_op(c, o1)),
{
    lemma_apply_ok(c, o1);
    lemma_apply_ok(c, o2);
    let b: u8 = match c {
        Some(v) => v.0,
        None => 0u8,
    };
    let t: Option<u8> = match c {
        Some(v) => v.1,
        None => None,
    };
    let (x, y) = (o1.2, o2.2);
    let bx = b | x;
    let by_ = b | y;
    let all = b | x | y;
    assert((b | x) | y == (b | y) | x) by (bit_vector);
    lemma_one_bit(bx);
    lemma_one_bit(by_);
    lemma_one_bit(all);
    assert(all == (b | y) | x) by (bit_vector)
        requires
            all == b | x | y,
    ;
    assert(all != 0) by (bit_vector)
        requires
            all == b | x | y,
            x != 0,
    ;
    lemma_ones_pos(all);
    if ones(all) == 1 {
        assert(bx == all && by_ == all && x == all && y == all && (b == 0 || b == all)) by (bit_vector)
            requires
                all == b | x | y,
                bx == b | x,
                by_ == b | y,
                x != 0,
                y != 0,
                all == 1 || all == 2 || all == 4 || all == 8 || all == 16 || all == 32 || all == 64 || all == 128,
        ;
        if t is Some {
            lemma_ones_pos(b);
        }
    } else {
        assert(ones(all) > 1);
    }
}

/// Cells that no step of `ops` lands on keep what they held.
pub proof fn lemma_untouched_cell(c: Option<Cell>, ops: Seq<DrawOp>, w: u16, h: u16, cam_x: int, cam_y: int, x: u16, y: u16)
    requires
        forall|i: int| 0 <= i < ops.len() ==> on_screen(w, h, cam_x, cam_y, (#[trigger] ops[i]).0, ops[i].1) != Some((x, y)),
    ensures
        cell_after(c, ops, w, h, cam_x, cam_y, x, y) == c,
    decreases ops.len(),
{
    if ops.len() > 0 {
        assert forall|i: int| 0 <= i < ops.drop_last().len() implies on_screen(w, h, cam_x, cam_y, (#[trigger] ops.drop_last()[i]).0, ops.drop_last()[i].1) != Some((x, y)) by {
            assert(ops.drop_last()[i] == ops[i]);
        }
        lemma_untouched_cell(c, ops.drop_last(), w, h, cam_x, cam_y, x, y);
        assert(ops.last() == ops[ops.len() - 1]);
    }
}

/// Draw `hook_plan`.
#[verifier::spinoff_prover]
#[verifier::rlimit(40)]
fn draw_hook(buf: &mut ArrowBuf, w: u16, h: u16, cam_x: i32, cam_y: i32, nodes: &[(i32, i32, i32)], ox: i32, oy: i32, ox_end: i32, tx: i32, ty: i32, tx_end: i32)
    requires
        small(cam_x),
        small(cam_y),
        small(ox),
        small(oy),
        small(ox_end),
        small(tx),
        small(ty),
        small(tx_end),
    ensures
        drawn(*old(buf), *final(buf), hook_plan(nodes@, ox as int, oy as int, ox_end as int, tx as int, ty as int, tx_end as int), w, h, cam_x as int, cam_y as int),
{
    let ghost start = *buf;
    let ghost (c0x, c0y) = (cam_x as int, cam_y as int);
    let (cx0, cy0) = (cam_x as i64, cam_y as i64);
    let (oyl, oxe, tyl, txe) = (oy as i64, ox_end as i64, ty as i64, tx_end as i64);
    let down = ty > oy;
    let base_hook = if ox_end >= tx_end { ox_end } else { tx_end } + 4;
    let hook = find_clear_col(nodes, base_hook, base_hook + 30, oy, ty);
    let hk = hook as i64;
    hline(buf, w, h, cx0, cy0, oxe + 1, hk, oyl, CE | CW);
    let ghost ops = hline_ops(oxe + 1, hk as int, oyl as int, CE | CW);
    let ghost mid = *buf;
    seg_at(buf, w, h, cx0, cy0, hk, oyl, if down { CW | CS } else { CW | CN });
    let ghost step = seq![(hk as int, oyl as int, if down { CW | CS } else { CW | CN }, false)];
    proof {
        lemma_drawn_concat(start, mid, *buf, ops, step, w, h, c0x, c0y);
    }
    let ghost ops = ops + step;
    let ghost mid = *buf;
    vline(buf, w, h, cx0, cy0, hk, oyl, tyl);
    let ghost step = vline_ops(hk as int, oyl as int, tyl as int);
    proof {
        lemma_drawn_concat(start, mid, *buf, ops, step, w, h, c0x, c0y);
    }
    let ghost ops = ops + step;
    let ghost mid = *buf;
    seg_at(buf, w, h, cx0, cy0, hk, tyl, if down { CW | CN } else { CW | CS });
    let ghost step = seq![(hk as int, tyl as int, if down { CW | CN } else { CW | CS }, false)];
    proof {
        lemma_drawn_concat(start, mid, *buf, ops, step, w, h, c0x, c0y);
    }
    let ghost ops = ops + step;
    let ghost mid = *buf;
    hline(buf, w, h, cx0, cy0, txe + 2, hk, tyl, CE | CW);
    let ghost step = hline_ops(txe + 2, hk as int, tyl as int, CE | CW);
    proof {
        lemma_drawn_concat(start, mid, *buf, ops, step, w, h, c0x, c0y);
    }
    let ghost ops = ops + step;
    let ghost mid = *buf;
    term_at(buf, w, h, cx0, cy0, txe + 1, tyl, CE);
    let ghost step = seq![(txe + 1, tyl as int, CE, true)];
    proof {
        lemma_drawn_concat(start, mid, *buf, ops, step, w, h, c0x, c0y);
        assert(ops + step =~= hook_plan(nodes@, ox as int, oy as int, ox_end as int, tx as int, ty as int, tx_end as int));
    }
}

/// Draw `right_plan`.
#[verifier::spinoff_prover]
#[verifier::rlimit(40)]
fn draw_right(buf: &mut ArrowBuf, w: u16, h: u16, cam_x: i32, cam_y: i32, nodes: &[(i32, i32, i32)], ox: i32, oy: i32, ox_end: i32, tx: i32, ty: i32, tx_end: i32)
    requires
        small(cam_x),
        small(cam_y),
        small(ox),
        small(oy),
        small(ox_end),
        small(tx),
        small(ty),
        small(tx_end),
        tx > ox_end,
    ensures
        drawn(*old(buf), *final(buf), right_plan(nodes@, ox as int, oy as int, ox_end as int, tx as int, ty as int, tx_end as int), w, h, cam_x as int, cam_y as int),
{
    let ghost start = *buf;
    let ghost (c0x, c0y) = (cam_x as int, cam_y as int);
    let ghost plan = right_plan(nodes@, ox as int, oy as int, ox_end as int, tx as int, ty as int, tx_end as int);
    let (cx0, cy0) = (cam_x as i64, cam_y as i64);
    let (oyl, oxe, txl, tyl) = (oy as i64, ox_end as i64, tx as i64, ty as i64);
    let down = ty > oy;
    let use_z = txl - oxe >= 3;
    let (cx, head) = if use_z {
        let c = find_clear_col(nodes, tx - 2, ox_end + 1, oy, ty);
        (c as i64, txl - 1)
    } else {
        (txl - 1, txl - 1)
    };
    hline(buf, w, h, cx0, cy0, oxe + 1, cx, oyl, CE | CW);
    let ghost ops = hline_ops(oxe + 1, cx as int, oyl as int, CE | CW);
    if oy == ty {
        let ghost mid = *buf;
        hline(buf, w, h, cx0, cy0, cx, head, oyl, CE | CW);
        let ghost step = hline_ops(cx as int, head as int, oyl as int, CE | CW);
        proof {
            lemma_drawn_concat(start, mid, *buf, ops, step, w, h, c0x, c0y);
        }
        let ghost ops = ops + step;
        let ghost mid = *buf;
        term_at(buf, w, h, cx0, cy0, head, tyl, CW);
        let ghost step = seq![(head as int, tyl as int, CW, true)];
        proof {
            lemma_drawn_concat(start, mid, *buf, ops, step, w, h, c0x, c0y);
            assert(ops + step =~= plan);
        }
        return;
    }
    let ghost mid = *buf;
    seg_at(buf, w, h, cx0, cy0, cx, oyl, if down { CW | CS } else { CW | CN });
    let ghost step = seq![(cx as int, oyl as int, if down { CW | CS } else { CW | CN }, false)];
    proof {
        lemma_drawn_concat(start, mid, *buf, ops, step, w, h, c0x, c0y);
    }
    let ghost ops = ops + step;
    let ghost mid = *buf;
    vline(buf, w, h, cx0, cy0, cx, oyl, tyl);
    let ghost step = vline_ops(cx as int, oyl as int, tyl as int);
    proof {
        lemma_drawn_concat(start, mid, *buf, ops, step, w, h, c0x, c0y);
    }
    let ghost ops = ops + step;
    if use_z {
        let ghost mid = *buf;
        seg_at(buf, w, h, cx0, cy0, cx, tyl, if down { CE | CN } else { CE | CS });
        let ghost step = seq![(cx as int, tyl as int, if down { CE | CN } else { CE | CS }, false)];
        proof {
            lemma_drawn_concat(start, mid, *buf, ops, step, w, h, c0x, c0y);
        }
        let ghost ops = ops + step;
        let ghost mid = *buf;
        hline(buf, w, h, cx0, cy0, cx + 1, head, tyl, CE | CW);
        let ghost step = hline_ops(cx + 1, head as int, tyl as int, CE | CW);
        proof {
            lemma_drawn_concat(start, mid, *buf, ops, step, w, h, c0x, c0y);
        }
        let ghost ops = ops + step;
        let ghost mid = *buf;
        term_at(buf, w, h, cx0, cy0, head, tyl, CW);
        let ghost step = seq![(head as int, tyl as int, CW, true)];
        proof {
            lemma_drawn_concat(start, mid, *buf, ops, step, w, h, c0x, c0y);
            assert(ops + step =~= plan);
        }
    } else {
        let ghost mid = *buf;
        term_at(buf, w, h, cx0, cy0, cx, tyl, CW);
        let ghost step = seq![(cx as int, tyl as int, CW, true)];
        proof {
            lemma_drawn_concat(start, mid, *buf, ops, step, w, h, c0x, c0y);
            assert(ops + step =~= plan);
        }
    }
}

/// Draw `left_plan`.
#[verifier::spinoff_prover]
#[verifier::rlimit(40)]
fn draw_left(buf: &mut ArrowBuf, w: u16, h: u16, cam_x: i32, cam_y: i32, nodes: &[(i32, i32, i32)], ox: i32, oy: i32, ox_end: i32, tx: i32, ty: i32, tx_end: i32)
    requires
        small(cam_x),
        small(cam_y),
        small(ox),
        small(oy),
        small(ox_end),
        small(tx),
        small(ty),
        small(tx_end),
        tx_end < ox,
    ensures
        drawn(*old(buf), *final(buf), left_plan(nodes@, ox as int, oy as int, ox_end as int, tx as int, ty as int, tx_end as int), w, h, cam_x as int, cam_y as int),
{
    let ghost start = *buf;
    let ghost (c0x, c0y) = (cam_x as int, cam_y as int);
    let ghost plan = left_plan(nodes@, ox as int, oy as int, ox_end as int, tx as int, ty as int, tx_end as int);
    let (cx0, cy0) = (cam_x as i64, cam_y as i64);
    let (oxl, oyl, tyl, txe) = (ox as i64, oy as i64, ty as i64, tx_end as i64);
    let down = ty > oy;
    let use_z = oxl - txe >= 3;
    let (cx, head) = if use_z {
        let c = find_clear_col(nodes, tx_end + 2, ox - 1, oy, ty);
        (c as i64, txe + 1)
    } else {
        (txe + 1, txe + 1)
    };
    hline(buf, w, h, cx0, cy0, cx + 1, oxl, oyl, CE | CW);
    let ghost ops = hline_ops(cx + 1, oxl as int, oyl as int, CE | CW);
    if oy == ty {
        let ghost mid = *buf;
        hline(buf, w, h, cx0, cy0, head + 1, cx + 1, oyl, CE | CW);
        let ghost step = hline_ops(head + 1, cx + 1, oyl as int, CE | CW);
        proof {
            lemma_drawn_concat(start, mid, *buf, ops, step, w, h, c0x, c0y);
        }
        let ghost ops = ops + step;
        let ghost mid = *buf;
        term_at(buf, w, h, cx0, cy0, head, tyl, CE);
        let ghost step = seq![(head as int, tyl as int, CE, true)];
        proof {
            lemma_drawn_concat(start, mid, *buf, ops, step, w, h, c0x, c0y);
            assert(ops + step =~= plan);
        }
        return;
    }
    let ghost mid = *buf;
    seg_at(buf, w, h, cx0, cy0, cx, oyl, if down { CE | CS } else { CE | CN });
    let ghost step = seq![(cx as int, oyl as int, if down { CE | CS } else { CE | CN }, false)];
    proof {
        lemma_drawn_concat(start, mid, *buf, ops, step, w, h, c0x, c0y);
    }
    let ghost ops = ops + step;
    let ghost mid = *buf;
    vline(buf, w, h, cx0, cy0, cx, oyl, tyl);
    let ghost step = vline_ops(cx as int, oyl as int, tyl as int);
    proof {
        lemma_drawn_concat(start, mid, *buf, ops, step, w, h, c0x, c0y);
    }
    let ghost ops = ops + step;
    if use_z {
        let ghost mid = *buf;
        seg_at(buf, w, h, cx0, cy0, cx, tyl, if down { CW | CN } else { CW | CS });
        let ghost step = seq![(cx as int, tyl as int, if down { CW | CN } else { CW | CS }, false)];
        proof {
            lemma_drawn_concat(start, mid, *buf, ops, step, w, h, c0x, c0y);
        }
        let ghost ops = ops + step;
        let ghost mid = *buf;
        hline(buf, w, h, cx0, cy0, head + 1, cx, tyl, CE | CW);
        let ghost step = hline_ops(head + 1, cx as int, tyl as int, CE | CW);
        proof {
            lemma_drawn_concat(start, mid, *buf, ops, step, w, h, c0x, c0y);
        }
        let ghost ops = ops + step;
        let ghost mid = *buf;
        term_at(buf, w, h, cx0, cy0, head, tyl, CE);
        let ghost step = seq![(head as int, tyl as int, CE, true)];
        proof {
            lemma_drawn_concat(start, mid, *buf, ops, step, w, h, c0x, c0y);
            assert(ops + step =~= plan);
        }
    } else {
        let ghost mid = *buf;
        term_at(buf, w, h, cx0, cy0, cx, tyl, CE);
        let ghost step = seq![(cx as int, tyl as int, CE, true)];
        proof {
            lemma_drawn_concat(start, mid, *buf, ops, step, w, h, c0x, c0y);
            assert(ops + step =~= plan);
        }
    }
}

/// Route a link from the node spanning columns `ox..=ox_end` on row `oy`
/// to the node spanning `tx..=tx_end` on row `ty`, drawing it into `buf`
/// for a `canvas_w` by `canvas_h` screen whose top left is world cell
/// `(cam_x, cam_y)`: the steps of `route_plan` are drawn, those off screen
/// left out.
pub fn route_link_into_buf(
    buf: &mut ArrowBuf,
    canvas_w: u16,
    canvas_h: u16,
    cam_x: i32,
    cam_y: i32,
    nodes: &[(i32, i32, i32)],
    ox: i32,
    oy: i32,
    ox_end: i32,
    tx: i32,
    ty: i32,
    tx_end: i32,
)
    requires
        small(cam_x),
        small(cam_y),
        small(ox),
        small(oy),
        small(ox_end),
        small(tx),
        small(ty),
        small(tx_end),
    ensures
        drawn(
            *old(buf),
            *final(buf),
            route_plan(nodes@, ox as int, oy as int, ox_end as int, tx as int, ty as int, tx_end as int),
            canvas_w,
            canvas_h,
            cam_x as int,
            cam_y as int,
        ),
{
    if ox == tx && ox_end == tx_end && oy == ty {
        proof {
            lemma_drawn_nothing(*buf, canvas_w, canvas_h, cam_x as int, cam_y as int);
        }
        return;
    }
    if tx <= ox_end && tx_end >= ox {
        draw_hook(buf, canvas_w, canvas_h, cam_x, cam_y, nodes, ox, oy, ox_end, tx, ty, tx_end);
    } else if tx > ox_end {
        draw_right(buf, canvas_w, canvas_h, cam_x, cam_y, nodes, ox, oy, ox_end, tx, ty, tx_end);
    } else {
        draw_left(buf, canvas_w, canvas_h, cam_x, cam_y, nodes, ox, oy, ox_end, tx, ty, tx_end);
    }
}

} // verus!
