//! The line-oriented textual program format.
//!
//! A program source is plain text: one row per line, columns by character
//! offset.  Loading assigns each character's code point to the corresponding
//! grid coordinate; serialization is the exact inverse for grids whose cells
//! are all single Unicode scalar values, modulo trailing spaces per row.

use vstd::prelude::*;
use crate::space::{FungeSpace, SPACE, in_zero_page, grid_cell, grid_set, grid_inv};
use crate::errors::BefungeError;

verus! {

/// The code point of a character, as a cell value.
pub open spec fn char_val(c: char) -> i64 {
    (c as u32) as i64
}

/// The code-point sequence of a character sequence.
pub open spec fn char_vals(s: Seq<char>) -> Seq<i64> {
    s.map_values(|c: char| char_val(c))
}

/// Index of the first newline in `s`, or `s.len()` if there is none.
pub open spec fn first_nl(s: Seq<char>) -> int
    decreases s.len(),
{
    if s.len() == 0 {
        0
    } else if s[0] == '\n' {
        0
    } else {
        1 + first_nl(s.drop_first())
    }
}

/// A line with a trailing carriage return removed, as when the line ended in
/// a carriage return/newline pair.
pub open spec fn strip_cr(line: Seq<char>) -> Seq<char> {
    if line.len() > 0 && line.last() == '\r' {
        line.drop_last()
    } else {
        line
    }
}

/// The rows of a text: split at newlines, each stripped of a carriage return
/// that immediately preceded the newline; a final newline ends the last row,
/// it does not open an empty one.
pub open spec fn split_lines(s: Seq<char>) -> Seq<Seq<char>>
    decreases s.len(),
{
    if s.len() == 0 {
        Seq::empty()
    } else {
        let i = first_nl(s);
        if 0 <= i < s.len() {
            seq![strip_cr(s.take(i))] + split_lines(s.skip(i + 1))
        } else {
            seq![s]
        }
    }
}

/// The grid model of a fresh grid: only the zero page, all spaces.
pub open spec fn empty_grid() -> Map<(i64, i64), i64> {
    Map::new(|p: (i64, i64)| in_zero_page(p), |p: (i64, i64)| SPACE)
}

/// The grid model after writing one row of characters at row `y` of `m`.
pub open spec fn apply_line(m: Map<(i64, i64), i64>, line: Seq<char>, y: i64) -> Map<
    (i64, i64),
    i64,
> {
    Map::new(
        |p: (i64, i64)|
            if p.1 == y && 0 <= p.0 < line.len() {
                in_zero_page(p) || char_val(line[p.0 as int]) != SPACE
            } else {
                m.contains_key(p)
            },
        |p: (i64, i64)|
            if p.1 == y && 0 <= p.0 < line.len() {
                char_val(line[p.0 as int])
            } else {
                m[p]
            },
    )
}

/// The grid model after writing consecutive rows starting at row `y`.
pub open spec fn apply_lines(m: Map<(i64, i64), i64>, lines: Seq<Seq<char>>, y: i64) -> Map<
    (i64, i64),
    i64,
>
    decreases lines.len(),
{
    if lines.len() == 0 {
        m
    } else {
        apply_lines(apply_line(m, lines[0], y), lines.drop_first(), (y + 1) as i64)
    }
}

/// The grid a program text denotes.
pub open spec fn parse_grid(s: Seq<char>) -> Map<(i64, i64), i64> {
    apply_lines(empty_grid(), split_lines(s), 0)
}

/// `first_nl` is determined by its characterization: everything before `k` is
/// not a newline, and `k` is either a newline or the end.
pub proof fn lemma_first_nl_is(s: Seq<char>, k: int)
    requires
        0 <= k <= s.len(),
        forall|j: int| 0 <= j < k ==> s[j] != '\n',
        k == s.len() || s[k] == '\n',
    ensures
        first_nl(s) == k,
    decreases s.len(),
{
    if s.len() != 0 && s[0] != '\n' {
        lemma_first_nl_is(s.drop_first(), k - 1);
    }
}

/// The characters of a string, in order.
pub fn str_to_chars(s: &str) -> (r: Vec<char>)
    ensures
        r@ == s@,
{
    let n = s.unicode_len();
    let mut r: Vec<char> = Vec::new();
    let mut i: usize = 0;
    while i < n
        invariant
            n == s@.len(),
            i <= n,
            r@.len() == i,
            forall|j: int| 0 <= j < i ==> r@[j] == s@[j],
        decreases n - i,
    {
        let c = s.get_char(i);
        r.push(c);
        i = i + 1;
    }
    proof {
        assert(r@ =~= s@);
    }
    r
}

impl FungeSpace {
    /// A grid loaded from program text: row `y`, column `x` holds the code
    /// point of the character at line `y`, offset `x` of the input.
    pub fn new_from_string(input: String) -> (r: Self)
        requires
            input@.len() < 0x7fff_ffff_ffff_ffff,
        ensures
            r.inv(),
            r@ == parse_grid(input@),
    {
        let chars = str_to_chars(input.as_str());
        let s = Ghost(input@);
        let mut g = FungeSpace::new();
        proof {
            assert forall|p: (i64, i64)| g@.contains_key(p) implies g@[p] == SPACE by {
                assert(grid_cell(g@, p) == SPACE);
            }
            assert(g@ =~= empty_grid());
            assert(s@.skip(0) =~= s@);
        }
        let n = chars.len();
        let mut pos: usize = 0;
        let mut y: i64 = 0;
        while pos < n
            invariant
                g.inv(),
                chars@ == s@,
                n == chars@.len(),
                n < 0x7fff_ffff_ffff_ffff,
                pos <= n,
                0 <= y <= pos,
                apply_lines(g@, split_lines(s@.skip(pos as int)), y) == parse_grid(s@),
            decreases n - pos,
        {
            let ghost rest = s@.skip(pos as int);
            // Find the end of the current line.
            let mut e: usize = pos;
            while e < n && chars[e] != '\n'
                invariant
                    chars@ == s@,
                    n == chars@.len(),
                    pos <= e <= n,
                    forall|j: int| pos <= j < e ==> s@[j] != '\n',
                decreases n - e,
            {
                e = e + 1;
            }
            proof {
                assert forall|j: int| 0 <= j < e - pos implies rest[j] != '\n' by {
                    assert(rest[j] == s@[pos + j]);
                }
                if e < n {
                    assert(rest[e - pos] == s@[e as int]);
                }
                lemma_first_nl_is(rest, e - pos);
            }
            // Drop a carriage return that immediately precedes the newline.
            let le: usize = if e < n && e > pos && chars[e - 1] == '\r' {
                e - 1
            } else {
                e
            };
            let ghost line = if e < n {
                strip_cr(rest.take(e - pos))
            } else {
                rest
            };
            proof {
                assert(rest.take(e - pos) =~= s@.subrange(pos as int, e as int));
                if e < n {
                    if e > pos && s@[e - 1] == '\r' {
                        assert(rest.take(e - pos).last() == s@[e - 1]);
                        assert(line =~= s@.subrange(pos as int, le as int));
                    } else {
                        assert(line =~= s@.subrange(pos as int, le as int));
                    }
                } else {
                    assert(line =~= s@.subrange(pos as int, le as int));
                }
                assert(line == s@.subrange(pos as int, le as int));
            }
            // Write the cells of this line.
            let ghost g0 = g@;
            proof {
                assert(g@ =~= apply_line_prefix(g0, line, y, 0));
            }
            let mut x: usize = 0;
            while x < le - pos
                invariant
                    g.inv(),
                    chars@ == s@,
                    n == chars@.len(),
                    n < 0x7fff_ffff_ffff_ffff,
                    pos <= le <= n,
                    x <= le - pos,
                    0 <= y <= pos,
                    line == s@.subrange(pos as int, le as int),
                    g@ == apply_line_prefix(g0, line, y, x as int),
                decreases le - pos - x,
            {
                let c = chars[pos + x];
                let v: i64 = (c as u32) as i64;
                g.set((x as i64, y), v);
                proof {
                    assert(line[x as int] == s@[pos + x]);
                    assert(g@ =~= apply_line_prefix(g0, line, y, x as int + 1)) by {
                        assert(g@ == grid_set(apply_line_prefix(g0, line, y, x as int), (x as i64, y), v));
                    }
                }
                x = x + 1;
            }
            proof {
                assert(g@ =~= apply_line(g0, line, y));
            }
            let next: usize = if e < n {
                e + 1
            } else {
                e
            };
            proof {
                if e < n {
                    assert(split_lines(rest) == seq![line] + split_lines(
                        s@.skip(next as int),
                    )) by {
                        assert(first_nl(rest) == e - pos < rest.len());
                        assert(rest.skip(e - pos + 1) =~= s@.skip(next as int));
                    }
                    assert(split_lines(rest).drop_first() =~= split_lines(s@.skip(next as int)));
                    assert(split_lines(rest)[0] == line);
                } else {
                    assert(first_nl(rest) == rest.len());
                    assert(rest.len() > 0);
                    assert(split_lines(rest) == seq![rest]);
                    assert(split_lines(rest)[0] == line);
                    assert(s@.skip(next as int) =~= Seq::<char>::empty());
                    assert(split_lines(rest).drop_first() =~= split_lines(s@.skip(next as int)));
                }
                assert(apply_lines(g0, split_lines(rest), y) == apply_lines(
                    apply_line(g0, line, y),
                    split_lines(s@.skip(next as int)),
                    (y + 1) as i64,
                ));
            }
            pos = next;
            y = y + 1;
        }
        proof {
            assert(s@.skip(n as int) =~= Seq::<char>::empty());
            assert(apply_lines(g@, split_lines(s@.skip(pos as int)), y) == g@);
        }
        g
    }
}

/// True when `v` is a Unicode scalar value.
pub open spec fn is_scalar(v: i64) -> bool {
    (0 <= v < 0xD800) || (0xE000 <= v <= 0x10FFFF)
}

/// True when `v` can stand in a line of program text: a Unicode scalar value
/// that is neither a newline nor a carriage return.
pub open spec fn serializable(v: i64) -> bool {
    is_scalar(v) && v != 10 && v != 13
}

/// True when every materialized cell of `m` can be written to program text:
/// all values serializable, all coordinates non-negative and below the top of
/// the coordinate range.
pub open spec fn grid_serializable(m: Map<(i64, i64), i64>) -> bool {
    forall|p: (i64, i64)| #[trigger]
        m.contains_key(p) ==> serializable(m[p]) && 0 <= p.0 < i64::MAX && 0 <= p.1 < i64::MAX
}

/// `h` is the exact number of rows of the serialized form of `m`: at least
/// the zero page, covering every materialized cell, and minimal.
pub open spec fn valid_height(m: Map<(i64, i64), i64>, h: i64) -> bool {
    &&& h >= 10
    &&& forall|p: (i64, i64)| #[trigger] m.contains_key(p) ==> p.1 < h
    &&& exists|x: i64| #[trigger] m.contains_key((x, (h - 1) as i64))
}

/// `w` is the exact width of row `y` of the serialized form of `m`: covering
/// every materialized cell of the row, and minimal.
pub open spec fn valid_width(m: Map<(i64, i64), i64>, y: i64, w: i64) -> bool {
    &&& w >= 0
    &&& forall|x: i64| m.contains_key((x, y)) ==> x < w
    &&& w == 0 || m.contains_key(((w - 1) as i64, y))
}

/// `ws` lists the exact widths of all rows of the serialized form of `m`.
pub open spec fn valid_widths(m: Map<(i64, i64), i64>, ws: Seq<i64>) -> bool {
    forall|y: int| 0 <= y < ws.len() ==> valid_width(m, y as i64, #[trigger] ws[y])
}

/// The cell values of row `y`, columns `0..w`.
pub open spec fn render_row_vals(m: Map<(i64, i64), i64>, y: i64, w: i64) -> Seq<i64> {
    Seq::new(if w >= 0 { w as nat } else { 0 }, |x: int| grid_cell(m, (x as i64, y)))
}

/// The cell values of the serialized form of `m` with row widths `ws`,
/// starting at row `y0`: each row followed by a newline.
pub open spec fn render_vals(m: Map<(i64, i64), i64>, ws: Seq<i64>, y0: i64) -> Seq<i64>
    decreases ws.len(),
{
    if ws.len() == 0 {
        Seq::empty()
    } else {
        render_row_vals(m, y0, ws[0]) + seq![10i64] + render_vals(m, ws.drop_first(), (y0 + 1) as i64)
    }
}

/// Appending one more row width extends the rendered values by that row and
/// its newline.
pub proof fn lemma_render_vals_push(m: Map<(i64, i64), i64>, ws: Seq<i64>, y0: i64, w: i64)
    requires
        y0 + ws.len() < i64::MAX,
        y0 >= 0,
    ensures
        render_vals(m, ws.push(w), y0) == render_vals(m, ws, y0) + render_row_vals(
            m,
            (y0 + ws.len()) as i64,
            w,
        ) + seq![10i64],
    decreases ws.len(),
{
    if ws.len() == 0 {
        let pushed = ws.push(w);
        assert(pushed[0] == w);
        let rest = pushed.drop_first();
        assert(rest =~= Seq::<i64>::empty());
        assert(render_vals(m, rest, (y0 + 1) as i64) == Seq::<i64>::empty());
        assert(render_vals(m, pushed, y0) == render_row_vals(m, y0, w) + seq![10i64]
            + render_vals(m, rest, (y0 + 1) as i64));
        assert(render_row_vals(m, y0, w) + seq![10i64] + Seq::<i64>::empty() =~= render_row_vals(
            m,
            y0,
            w,
        ) + seq![10i64]);
        assert(render_vals(m, ws, y0) == Seq::<i64>::empty());
        assert(render_vals(m, ws, y0) + render_row_vals(m, y0, w) + seq![10i64] =~= render_row_vals(
            m,
            y0,
            w,
        ) + seq![10i64]);
    } else {
        assert(ws.push(w)[0] == ws[0]);
        assert(ws.push(w).drop_first() =~= ws.drop_first().push(w));
        lemma_render_vals_push(m, ws.drop_first(), (y0 + 1) as i64, w);
        assert(render_vals(m, ws.push(w), y0) =~= render_vals(m, ws, y0) + render_row_vals(
            m,
            (y0 + ws.len()) as i64,
            w,
        ) + seq![10i64]);
    }
}

/// True exactly when the serializability check accepts `v`.
fn val_serializable(v: i64) -> (r: bool)
    ensures
        r == serializable(v),
{
    ((0 <= v && v < 0xD800) || (0xE000 <= v && v <= 0x10FFFF)) && v != 10 && v != 13
}

impl FungeSpace {
    /// Whether every materialized cell can be written to program text; on
    /// failure, reports a witness through the result.
    fn check_serializable(&self) -> (r: bool)
        requires
            self.inv(),
        ensures
            r == grid_serializable(self@),
    {
        let n = self.cells.len();
        let mut i: usize = 0;
        while i < n
            invariant
                self.inv(),
                n == self.cells@.len(),
                i <= n,
                forall|j: int|
                    0 <= j < i ==> serializable((#[trigger] self.cells@[j]).1) && 0
                        <= self.cells@[j].0.0 < i64::MAX && 0 <= self.cells@[j].0.1 < i64::MAX,
            decreases n - i,
        {
            let ((x, y), v) = self.cells[i];
            if x < 0 || y < 0 || x == i64::MAX || y == i64::MAX || !val_serializable(v) {
                proof {
                    self.lemma_sparse_entry(i as int);
                }
                return false;
            }
            i = i + 1;
        }
        let mut y: i64 = 0;
        while y < 10
            invariant
                self.inv(),
                0 <= y <= 10,
                forall|j: int|
                    0 <= j < self.cells@.len() ==> serializable((#[trigger] self.cells@[j]).1) && 0
                        <= self.cells@[j].0.0 < i64::MAX && 0 <= self.cells@[j].0.1 < i64::MAX,
                forall|p: (i64, i64)|
                    in_zero_page(p) && p.1 < y ==> serializable(grid_cell(self@, p)),
            decreases 10 - y,
        {
            let mut x: i64 = 0;
            while x < 10
                invariant
                    self.inv(),
                    0 <= y < 10,
                    0 <= x <= 10,
                    forall|j: int|
                        0 <= j < self.cells@.len() ==> serializable((#[trigger] self.cells@[j]).1)
                            && 0 <= self.cells@[j].0.0 < i64::MAX && 0 <= self.cells@[j].0.1
                            < i64::MAX,
                    forall|p: (i64, i64)|
                        in_zero_page(p) && p.1 < y ==> serializable(grid_cell(self@, p)),
                    forall|p: (i64, i64)|
                        in_zero_page(p) && p.1 == y && p.0 < x ==> serializable(
                            grid_cell(self@, p),
                        ),
                decreases 10 - x,
            {
                let idx: usize = (x + y * 10) as usize;
                let v = self.zero_page[idx];
                proof {
                    assert(self@.contains_key((x, y)));
                    assert(self@[(x, y)] == v);
                }
                if !val_serializable(v) {
                    return false;
                }
                x = x + 1;
            }
            y = y + 1;
        }
        proof {
            assert forall|p: (i64, i64)| #[trigger]
                self@.contains_key(p) implies serializable(self@[p]) && 0 <= p.0 < i64::MAX && 0
                <= p.1 < i64::MAX by {
                if !in_zero_page(p) {
                    let j = choose|j: int|
                        0 <= j < self.cells@.len() && (#[trigger] self.cells@[j]).0 == p;
                    self.lemma_sparse_entry(j);
                } else {
                    assert(serializable(grid_cell(self@, p)));
                }
            }
        }
        true
    }

    /// The number of rows of the serialized form: one past the last used row,
    /// and at least the ten rows of the zero page.
    fn used_height(&self) -> (h: i64)
        requires
            self.inv(),
            grid_serializable(self@),
        ensures
            valid_height(self@, h),
    {
        let mut h: i64 = 10;
        let n = self.cells.len();
        let mut i: usize = 0;
        let ghost mut wit: (i64, i64) = (0i64, 9i64);
        while i < n
            invariant
                self.inv(),
                grid_serializable(self@),
                n == self.cells@.len(),
                i <= n,
                h >= 10,
                self@.contains_key(wit) && wit.1 == h - 1,
                forall|j: int| 0 <= j < i ==> (#[trigger] self.cells@[j]).0.1 < h,
            decreases n - i,
        {
            let ((_, y), _) = self.cells[i];
            proof {
                self.lemma_sparse_entry(i as int);
            }
            if y >= h {
                h = y + 1;
                proof {
                    wit = self.cells@[i as int].0;
                }
            }
            i = i + 1;
        }
        proof {
            assert forall|p: (i64, i64)| #[trigger] self@.contains_key(p) implies p.1 < h by {
                if !in_zero_page(p) {
                    let j = choose|j: int|
                        0 <= j < self.cells@.len() && (#[trigger] self.cells@[j]).0 == p;
                }
            }
            assert(self@.contains_key((wit.0, (h - 1) as i64)));
        }
        h
    }

    /// The width of row `y` of the serialized form: one past the last used
    /// column, and at least the ten columns of the zero page for its rows.
    fn used_width(&self, y: i64) -> (w: i64)
        requires
            self.inv(),
            grid_serializable(self@),
            y >= 0,
        ensures
            valid_width(self@, y, w),
    {
        let mut w: i64 = if y < 10 {
            10
        } else {
            0
        };
        proof {
            if y < 10 {
                assert(self@.contains_key((9i64, y)));
            }
        }
        let n = self.cells.len();
        let mut i: usize = 0;
        while i < n
            invariant
                self.inv(),
                grid_serializable(self@),
                n == self.cells@.len(),
                i <= n,
                w >= 0,
                y < 10 ==> w >= 10,
                w == 0 || self@.contains_key(((w - 1) as i64, y)),
                forall|j: int|
                    0 <= j < i && (#[trigger] self.cells@[j]).0.1 == y ==> self.cells@[j].0.0 < w,
            decreases n - i,
        {
            let ((x, cy), _) = self.cells[i];
            proof {
                self.lemma_sparse_entry(i as int);
            }
            if cy == y && x >= w {
                w = x + 1;
            }
            i = i + 1;
        }
        proof {
            assert forall|x: i64| self@.contains_key((x, y)) implies x < w by {
                let p = (x, y);
                if !in_zero_page(p) {
                    let j = choose|j: int|
                        0 <= j < self.cells@.len() && (#[trigger] self.cells@[j]).0 == p;
                }
            }
        }
        w
    }

    /// The textual program form of the grid: one line per row up to the last
    /// used row, each padded with spaces up to its last used column.  Fails
    /// with a serialization mismatch when some cell value cannot stand in a
    /// line of text.
    pub fn serialize(&self) -> (r: Result<String, BefungeError>)
        requires
            self.inv(),
        ensures
            r is Err <==> !grid_serializable(self@),
            r is Err ==> r->Err_0 == BefungeError::SerializationMismatch,
            r is Ok ==> exists|ws: Seq<i64>|
                #[trigger] valid_widths(self@, ws) && ws.len() <= i64::MAX && valid_height(
                    self@,
                    ws.len() as i64,
                ) && char_vals(r->Ok_0@) == render_vals(self@, ws, 0),
    {
        if !self.check_serializable() {
            return Err(BefungeError::SerializationMismatch);
        }
        let h = self.used_height();
        let mut out = String::new();
        let ghost mut ws: Seq<i64> = Seq::empty();
        let mut y: i64 = 0;
        while y < h
            invariant
                self.inv(),
                grid_serializable(self@),
                valid_height(self@, h),
                0 <= y <= h,
                ws.len() == y,
                valid_widths(self@, ws),
                char_vals(out@) == render_vals(self@, ws, 0),
            decreases h - y,
        {
            let w = self.used_width(y);
            let ghost row_start = out@;
            let mut x: i64 = 0;
            while x < w
                invariant
                    self.inv(),
                    grid_serializable(self@),
                    0 <= x <= w,
                    y >= 0,
                    char_vals(out@) == char_vals(row_start) + render_row_vals(self@, y, w).take(
                        x as int,
                    ),
                decreases w - x,
            {
                let v = match self.get((x, y)) {
                    Some(v) => v,
                    None => SPACE,
                };
                proof {
                    assert(v == grid_cell(self@, (x, y)));
                    if self@.contains_key((x, y)) {
                        assert(serializable(v));
                    }
                }
                let c = match char::from_u32(v as u32) {
                    Some(c) => c,
                    None => {
                        proof {
                            assert(false);
                        }
                        ' '
                    },
                };
                let ghost prev = out@;
                out.push(c);
                proof {
                    assert(char_val(c) == v);
                    let rr = render_row_vals(self@, y, w);
                    assert(rr[x as int] == grid_cell(self@, (x, y)));
                    assert(char_vals(out@) =~= char_vals(prev).push(char_val(c)));
                    assert(rr.take(x + 1) =~= rr.take(x as int).push(v));
                    assert(char_vals(row_start) + rr.take(x + 1) =~= (char_vals(row_start)
                        + rr.take(x as int)).push(v));
                    assert(char_vals(out@) == char_vals(row_start) + rr.take(x + 1));
                }
                x = x + 1;
            }
            let nl = match char::from_u32(10u32) {
                Some(c) => c,
                None => {
                    proof {
                        assert(false);
                    }
                    ' '
                },
            };
            let ghost prev2 = out@;
            out.push(nl);
            proof {
                assert(char_val(nl) == 10);
                let rr = render_row_vals(self@, y, w);
                assert(rr.take(w as int) =~= rr);
                assert(char_vals(prev2) == char_vals(row_start) + rr);
                assert(char_vals(out@) =~= char_vals(prev2).push(10i64));
                lemma_render_vals_push(self@, ws, 0, w);
                assert((0 + ws.len()) as i64 == y);
                ws = ws.push(w);
                assert(char_vals(out@) =~= char_vals(row_start) + rr + seq![10i64]);
                assert(char_vals(out@) == render_vals(self@, ws, 0));
            }
            y = y + 1;
        }
        Ok(out)
    }
}

/// Characters with the same code point are the same character.
proof fn lemma_char_eq(c1: char, c2: char)
    requires
        c1 as u32 == c2 as u32,
    ensures
        c1 == c2,
{
}

/// The code-point sequence has the same length as the character sequence.
pub(crate) proof fn lemma_char_vals_len(s: Seq<char>)
    ensures
        char_vals(s).len() == s.len(),
{
}

/// The code-point sequence is the pointwise code point.
pub(crate) proof fn lemma_char_vals_index(s: Seq<char>, j: int)
    requires
        0 <= j < s.len(),
    ensures
        char_vals(s).len() == s.len(),
        char_vals(s)[j] == char_val(s[j]),
{
}

/// Rendered cell values never collide with the line structure: a rendered
/// value is either a serializable cell value or the space default, so it is
/// neither a newline nor a carriage return.
proof fn lemma_render_row_vals_clean(m: Map<(i64, i64), i64>, y: i64, w: i64, x: int)
    requires
        grid_serializable(m),
        0 <= x < render_row_vals(m, y, w).len(),
    ensures
        render_row_vals(m, y, w)[x] != 10,
        render_row_vals(m, y, w)[x] != 13,
{
    let p = (x as i64, y);
    if m.contains_key(p) {
        assert(serializable(m[p]));
    }
}

/// A text whose code points render a sequence of rows splits back into
/// exactly those rows.
proof fn lemma_split_render(m: Map<(i64, i64), i64>, ws: Seq<i64>, y0: i64, s: Seq<char>)
    requires
        grid_serializable(m),
        0 <= y0,
        y0 + ws.len() <= i64::MAX,
        char_vals(s) == render_vals(m, ws, y0),
    ensures
        split_lines(s).len() == ws.len(),
        forall|y: int|
            0 <= y < ws.len() ==> char_vals(#[trigger] split_lines(s)[y]) == render_row_vals(
                m,
                (y0 + y) as i64,
                ws[y],
            ),
    decreases ws.len(),
{
    lemma_char_vals_len(s);
    if ws.len() == 0 {
        assert(char_vals(s).len() == 0);
        assert(s.len() == 0);
    } else {
        let w = ws[0];
        let row = render_row_vals(m, y0, w);
        let k = row.len() as int;
        let rest_vals = render_vals(m, ws.drop_first(), (y0 + 1) as i64);
        assert(char_vals(s) == row + seq![10i64] + rest_vals);
        assert(s.len() == k + 1 + rest_vals.len());
        assert forall|j: int| 0 <= j < k implies s[j] != '\n' by {
            lemma_char_vals_index(s, j);
            assert(char_vals(s)[j] == (row + seq![10i64] + rest_vals)[j]);
            assert(char_val(s[j]) == row[j]);
            lemma_render_row_vals_clean(m, y0, w, j);
            assert('\n' as u32 == 10);
        }
        lemma_char_vals_index(s, k);
        assert(char_vals(s)[k] == (row + seq![10i64] + rest_vals)[k]);
        assert(char_val(s[k]) == 10);
        assert(s[k] as u32 == 10) by {
            assert((s[k] as u32) as i64 == 10);
        }
        assert('\n' as u32 == 10);
        lemma_char_eq(s[k], '\n');
        lemma_first_nl_is(s, k);
        let line = s.take(k);
        lemma_char_vals_len(line);
        assert forall|j: int| 0 <= j < k implies char_vals(line)[j] == row[j] by {
            lemma_char_vals_index(line, j);
            lemma_char_vals_index(s, j);
            assert(line[j] == s[j]);
            assert(char_vals(s)[j] == (row + seq![10i64] + rest_vals)[j]);
        }
        assert(char_vals(line) =~= row);
        if k > 0 {
            lemma_char_vals_index(line, k - 1);
            assert(char_val(line.last()) == row[k - 1]);
            lemma_render_row_vals_clean(m, y0, w, k - 1);
            assert('\r' as u32 == 13);
            assert(line.last() != '\r');
        }
        assert(strip_cr(line) == line);
        let tail = s.skip(k + 1);
        lemma_char_vals_len(tail);
        assert forall|j: int| 0 <= j < tail.len() implies char_vals(tail)[j] == rest_vals[j] by {
            lemma_char_vals_index(tail, j);
            lemma_char_vals_index(s, k + 1 + j);
            assert(tail[j] == s[k + 1 + j]);
            assert(char_vals(s)[k + 1 + j] == (row + seq![10i64] + rest_vals)[k + 1 + j]);
        }
        assert(char_vals(tail) =~= rest_vals);
        lemma_split_render(m, ws.drop_first(), (y0 + 1) as i64, tail);
        assert(split_lines(s) == seq![line] + split_lines(tail));
        assert(split_lines(s).len() == ws.len());
        assert forall|y: int|
            0 <= y < ws.len() implies char_vals(#[trigger] split_lines(s)[y]) == render_row_vals(
            m,
            (y0 + y) as i64,
            ws[y],
        ) by {
            if y == 0 {
                assert(split_lines(s)[0] == line);
            } else {
                assert(split_lines(s)[y] == split_lines(tail)[y - 1]);
                assert(ws.drop_first()[y - 1] == ws[y]);
            }
        }
    }
}

/// Writing rows whose code points render `m`'s rows onto a grid that already
/// agrees with `m` below row `y0` yields `m` itself.
proof fn lemma_apply_render(
    m: Map<(i64, i64), i64>,
    ws: Seq<i64>,
    y0: i64,
    lines: Seq<Seq<char>>,
    g: Map<(i64, i64), i64>,
)
    requires
        grid_inv(m),
        grid_serializable(m),
        0 <= y0,
        y0 + ws.len() <= i64::MAX,
        y0 + ws.len() >= 10,
        lines.len() == ws.len(),
        forall|y: int|
            0 <= y < ws.len() ==> char_vals(#[trigger] lines[y]) == render_row_vals(
                m,
                (y0 + y) as i64,
                ws[y],
            ),
        forall|y: int| 0 <= y < ws.len() ==> valid_width(m, (y0 + y) as i64, #[trigger] ws[y]),
        forall|p: (i64, i64)| #[trigger] m.contains_key(p) ==> p.1 < y0 + ws.len(),
        forall|p: (i64, i64)| #[trigger]
            g.contains_key(p) && p.1 < y0 ==> m.contains_key(p) && g[p] == m[p],
        forall|p: (i64, i64)| m.contains_key(p) && p.1 < y0 ==> #[trigger] g.contains_key(p),
        forall|p: (i64, i64)| p.1 >= y0 ==> (#[trigger] g.contains_key(p) <==> in_zero_page(p)),
    ensures
        apply_lines(g, lines, y0) == m,
    decreases ws.len(),
{
    if ws.len() == 0 {
        assert forall|p: (i64, i64)| #[trigger] g.contains_key(p) implies m.contains_key(p)
            && g[p] == m[p] by {
            if p.1 >= y0 {
                assert(in_zero_page(p));
                assert(p.1 < 10 <= y0);
            }
        }
        assert forall|p: (i64, i64)| #[trigger] m.contains_key(p) implies g.contains_key(p) by {
            assert(p.1 < y0);
        }
        assert(g =~= m);
    } else {
        let w = ws[0];
        let line = lines[0];
        let g1 = apply_line(g, line, y0);
        lemma_char_vals_len(line);
        assert(w >= 0);
        assert(line.len() == w) by {
            assert(char_vals(line).len() == render_row_vals(m, y0, w).len());
        }
        assert forall|p: (i64, i64)| #[trigger]
            g1.contains_key(p) && p.1 < y0 + 1 implies m.contains_key(p) && g1[p] == m[p] by {
            if p.1 == y0 {
                if 0 <= p.0 < line.len() {
                    lemma_char_vals_index(line, p.0 as int);
                    assert(char_vals(line)[p.0 as int] == render_row_vals(m, y0, w)[p.0 as int]);
                    assert(char_val(line[p.0 as int]) == grid_cell(m, p));
                    if !in_zero_page(p) {
                        assert(grid_cell(m, p) != SPACE);
                        assert(m.contains_key(p));
                    } else {
                        assert(m.contains_key(p));
                    }
                    assert(g1[p] == grid_cell(m, p));
                } else {
                    assert(g.contains_key(p));
                    assert(in_zero_page(p));
                    assert(p.0 < 10 <= w);
                }
            }
        }
        assert forall|p: (i64, i64)|
            m.contains_key(p) && p.1 < y0 + 1 implies #[trigger] g1.contains_key(p) by {
            if p.1 == y0 {
                assert(valid_width(m, y0, w));
                assert(p.0 < w);
                assert(0 <= p.0);
                assert(p.0 < line.len());
                lemma_char_vals_index(line, p.0 as int);
                assert(char_vals(line)[p.0 as int] == render_row_vals(m, y0, w)[p.0 as int]);
                assert(char_val(line[p.0 as int]) == grid_cell(m, p));
                if !in_zero_page(p) {
                    assert(m[p] != SPACE);
                    assert(char_val(line[p.0 as int]) != SPACE);
                }
            }
        }
        assert forall|p: (i64, i64)|
            p.1 >= y0 + 1 implies (#[trigger] g1.contains_key(p) <==> in_zero_page(p)) by {
            assert(g1.contains_key(p) == g.contains_key(p));
        }
        assert forall|y: int|
            0 <= y < ws.drop_first().len() implies char_vals(#[trigger] lines.drop_first()[y])
            == render_row_vals(m, ((y0 + 1) + y) as i64, ws.drop_first()[y]) by {
            assert(lines.drop_first()[y] == lines[y + 1]);
            assert(ws.drop_first()[y] == ws[y + 1]);
        }
        assert forall|y: int|
            0 <= y < ws.drop_first().len() implies valid_width(
            m,
            ((y0 + 1) + y) as i64,
            #[trigger] ws.drop_first()[y],
        ) by {
            assert(ws.drop_first()[y] == ws[y + 1]);
        }
        lemma_apply_render(m, ws.drop_first(), (y0 + 1) as i64, lines.drop_first(), g1);
    }
}

/// Round trip: parsing the serialized form of a well-formed grid restores
/// the grid exactly.  The serialized form is characterized by its row widths
/// `ws` and its code points, as the serializer's contract provides them.
pub proof fn lemma_serialize_parse_round_trip(
    m: Map<(i64, i64), i64>,
    ws: Seq<i64>,
    s: Seq<char>,
)
    requires
        grid_inv(m),
        grid_serializable(m),
        valid_widths(m, ws),
        ws.len() <= i64::MAX,
        valid_height(m, ws.len() as i64),
        char_vals(s) == render_vals(m, ws, 0),
    ensures
        parse_grid(s) == m,
{
    assert(ws.len() >= 10) by {
        assert(valid_height(m, ws.len() as i64));
    }
    lemma_split_render(m, ws, 0, s);
    let lines = split_lines(s);
    assert forall|p: (i64, i64)| #[trigger] m.contains_key(p) implies p.1 < 0 + ws.len() by {
        assert(p.1 < ws.len() as i64);
    }
    lemma_apply_render(m, ws, 0, lines, empty_grid());
}

/// The grid model after writing the first `k` characters of one row.
pub open spec fn apply_line_prefix(
    m: Map<(i64, i64), i64>,
    line: Seq<char>,
    y: i64,
    k: int,
) -> Map<(i64, i64), i64> {
    Map::new(
        |p: (i64, i64)|
            if p.1 == y && 0 <= p.0 < k && p.0 < line.len() {
                in_zero_page(p) || char_val(line[p.0 as int]) != SPACE
            } else {
                m.contains_key(p)
            },
        |p: (i64, i64)|
            if p.1 == y && 0 <= p.0 < k && p.0 < line.len() {
                char_val(line[p.0 as int])
            } else {
                m[p]
            },
    )
}

} // verus!
