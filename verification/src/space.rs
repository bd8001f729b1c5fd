//! Sparse, effectively unbounded two-dimensional program memory.
//!
//! Every cell of the plane logically holds a value; unset cells default to the
//! space character.  A small dense near-origin region (both coordinates in
//! `0..10`, the "zero page") is always materialized in a flat array; all other
//! cells live in a sparse association list whose entries are never the space
//! value, so a cell holding space is indistinguishable from an absent cell.

use vstd::prelude::*;

verus! {

/// The cell value that stands for an empty cell.
pub const SPACE: i64 = 32;

/// True when both coordinates fall inside the dense near-origin region.
pub open spec fn in_zero_page(p: (i64, i64)) -> bool {
    0 <= p.0 < 10 && 0 <= p.1 < 10
}

/// The value of cell `p` in a grid model `m`: the stored value when the cell
/// is materialized, the space character otherwise.
pub open spec fn grid_cell(m: Map<(i64, i64), i64>, p: (i64, i64)) -> i64 {
    if m.contains_key(p) {
        m[p]
    } else {
        SPACE
    }
}

/// The value read by a defensively clamped lookup: space for any coordinate
/// with a negative component, the plain cell value otherwise.
pub open spec fn grid_cell_wrapped(m: Map<(i64, i64), i64>, p: (i64, i64)) -> i64 {
    if p.0 < 0 || p.1 < 0 {
        SPACE
    } else {
        grid_cell(m, p)
    }
}

/// The grid model after an unconditional write of `v` at `p`: a write of the
/// space value outside the zero page removes the entry.
pub open spec fn grid_set(m: Map<(i64, i64), i64>, p: (i64, i64), v: i64) -> Map<(i64, i64), i64> {
    if !in_zero_page(p) && v == SPACE {
        m.remove(p)
    } else {
        m.insert(p, v)
    }
}

/// Well-formedness of a grid model: the zero page is always materialized, and
/// no entry outside it holds the space value.
pub open spec fn grid_inv(m: Map<(i64, i64), i64>) -> bool {
    &&& forall|p: (i64, i64)| in_zero_page(p) ==> m.contains_key(p)
    &&& forall|p: (i64, i64)|
        m.contains_key(p) && !in_zero_page(p) ==> m[p] != SPACE
}

/// A read after a write: writing a value and reading it back through the
/// clamped lookup returns that value at any non-negative coordinate; writing
/// space erases the cell, which then reads back as space and is materialized
/// afterwards only inside the zero page.  Cells other than the written one
/// are untouched.
pub proof fn lemma_set_then_get(m: Map<(i64, i64), i64>, p: (i64, i64), v: i64)
    ensures
        grid_cell(grid_set(m, p, v), p) == v,
        p.0 >= 0 && p.1 >= 0 ==> grid_cell_wrapped(grid_set(m, p, v), p) == v,
        v == SPACE ==> grid_cell_wrapped(grid_set(m, p, v), p) == SPACE,
        v == SPACE && !in_zero_page(p) ==> !grid_set(m, p, v).contains_key(p),
        v != SPACE ==> grid_set(m, p, v).contains_key(p),
        forall|q: (i64, i64)|
            q != p ==> grid_cell(grid_set(m, p, v), q) == #[trigger] grid_cell(m, q),
        forall|q: (i64, i64)|
            q != p ==> (grid_set(m, p, v).contains_key(q) <==> #[trigger] m.contains_key(q)),
{
}

/// Sparse key/value map over integer coordinate pairs with a dense cache for
/// the near-origin region.
pub struct FungeSpace {
    pub(crate) cells: Vec<((i64, i64), i64)>,
    pub(crate) zero_page: Vec<i64>,
}

impl Default for FungeSpace {
    /// A fresh grid: every cell defaults to space.
    fn default() -> (r: Self)
        ensures
            r.inv(),
            forall|p: (i64, i64)| grid_cell(r@, p) == SPACE,
            forall|p: (i64, i64)| r@.contains_key(p) <==> in_zero_page(p),
    {
        Self::new()
    }
}

impl FungeSpace {
    /// Structural invariant: the zero page holds exactly 100 values, sparse
    /// keys are unique, and sparse entries are outside the zero page and
    /// never the space value.
    pub open(crate) spec fn inv(&self) -> bool {
        &&& self.zero_page@.len() == 100
        &&& forall|i: int|
            0 <= i < self.cells@.len() ==> !in_zero_page(#[trigger] self.cells@[i].0)
        &&& forall|i: int| 0 <= i < self.cells@.len() ==> (#[trigger] self.cells@[i]).1 != SPACE
        &&& forall|i: int, j: int|
            0 <= i < j < self.cells@.len() ==> (#[trigger] self.cells@[i]).0
                != (#[trigger] self.cells@[j]).0
    }

    /// The mathematical content of the grid: a finite map holding every
    /// materialized cell.
    pub open(crate) spec fn view(&self) -> Map<(i64, i64), i64> {
        Map::new(
            |p: (i64, i64)|
                in_zero_page(p) || exists|i: int|
                    0 <= i < self.cells@.len() && (#[trigger] self.cells@[i]).0 == p,
            |p: (i64, i64)|
                if in_zero_page(p) {
                    self.zero_page@[p.0 + p.1 * 10]
                } else {
                    let i = choose|i: int|
                        0 <= i < self.cells@.len() && (#[trigger] self.cells@[i]).0 == p;
                    self.cells@[i].1
                },
        )
    }

    pub(crate) proof fn lemma_sparse_entry(&self, i: int)
        requires
            self.inv(),
            0 <= i < self.cells@.len(),
        ensures
            self@.contains_key(self.cells@[i].0),
            self@[self.cells@[i].0] == self.cells@[i].1,
    {
        let p = self.cells@[i].0;
        assert(self@.contains_key(p));
        let j = choose|j: int| 0 <= j < self.cells@.len() && (#[trigger] self.cells@[j]).0 == p;
        if i < j {
            assert(self.cells@[i].0 != self.cells@[j].0);
        } else if j < i {
            assert(self.cells@[j].0 != self.cells@[i].0);
        }
    }

    pub proof fn lemma_inv_implies_grid_inv(&self)
        requires
            self.inv(),
        ensures
            grid_inv(self@),
    {
        assert forall|p: (i64, i64)|
            self@.contains_key(p) && !in_zero_page(p) implies self@[p] != SPACE by {
            let i = choose|i: int|
                0 <= i < self.cells@.len() && (#[trigger] self.cells@[i]).0 == p;
            self.lemma_sparse_entry(i);
        }
    }

    /// A fresh grid: every cell defaults to space.
    pub fn new() -> (r: Self)
        ensures
            r.inv(),
            forall|p: (i64, i64)| grid_cell(r@, p) == SPACE,
            forall|p: (i64, i64)| r@.contains_key(p) <==> in_zero_page(p),
    {
        let mut zp: Vec<i64> = Vec::new();
        let mut k: usize = 0;
        while k < 100
            invariant
                zp@.len() == k,
                k <= 100,
                forall|i: int| 0 <= i < k ==> zp@[i] == SPACE,
            decreases 100 - k,
        {
            zp.push(SPACE);
            k = k + 1;
        }
        let r = FungeSpace { cells: Vec::new(), zero_page: zp };
        proof {
            assert forall|p: (i64, i64)| grid_cell(r@, p) == SPACE by {
                if r@.contains_key(p) {
                    assert(in_zero_page(p));
                }
            }
        }
        r
    }

    /// Index of the position `p` in the sparse list, if present.
    fn find_sparse(&self, p: (i64, i64)) -> (r: Option<usize>)
        requires
            self.inv(),
        ensures
            match r {
                Some(i) => i < self.cells@.len() && self.cells@[i as int].0 == p,
                None => forall|i: int|
                    0 <= i < self.cells@.len() ==> (#[trigger] self.cells@[i]).0 != p,
            },
    {
        let n = self.cells.len();
        let mut i: usize = 0;
        while i < n
            invariant
                n == self.cells@.len(),
                i <= n,
                forall|j: int| 0 <= j < i ==> (#[trigger] self.cells@[j]).0 != p,
            decreases n - i,
        {
            let (q, _) = self.cells[i];
            if q.0 == p.0 && q.1 == p.1 {
                return Some(i);
            }
            i = i + 1;
        }
        None
    }

    /// Unconditional write of `v` at `pos`.  Writing space outside the zero
    /// page removes the materialized entry instead of storing it.
    pub fn set(&mut self, pos: (i64, i64), val: i64)
        requires
            old(self).inv(),
        ensures
            final(self).inv(),
            final(self)@ == grid_set(old(self)@, pos, val),
    {
        if 0 <= pos.0 && pos.0 < 10 && 0 <= pos.1 && pos.1 < 10 {
            let idx: usize = (pos.0 + pos.1 * 10) as usize;
            self.zero_page[idx] = val;
            proof {
                assert forall|q: (i64, i64)| #![auto]
                    in_zero_page(q) && q != pos implies q.0 + q.1 * 10 != pos.0 + pos.1 * 10 by {
                    if q.1 == pos.1 {
                        assert(q.0 != pos.0);
                    }
                }
                assert(final(self)@ =~= grid_set(old(self)@, pos, val));
            }
        } else {
            let found = self.find_sparse(pos);
            match found {
                Some(i) => {
                    if val == SPACE {
                        self.cells.swap_remove(i);
                        proof {
                            let s0 = old(self).cells@;
                            let s1 = self.cells@;
                            assert forall|q: (i64, i64)|
                                final(self)@.contains_key(q) implies grid_set(
                                old(self)@,
                                pos,
                                val,
                            ).contains_key(q) by {
                                if !in_zero_page(q) {
                                    let j = choose|j: int|
                                        0 <= j < s1.len() && (#[trigger] s1[j]).0 == q;
                                    if j == i {
                                        assert(s1[j] == s0[s0.len() - 1]);
                                        assert(s0[s0.len() - 1].0 == q);
                                    } else {
                                        assert(s0[j].0 == q);
                                    }
                                }
                            }
                            assert forall|q: (i64, i64)|
                                grid_set(old(self)@, pos, val).contains_key(q)
                                    implies #[trigger] final(self)@.contains_key(q)
                                    && final(self)@[q] == grid_set(old(self)@, pos, val)[q] by {
                                if !in_zero_page(q) {
                                    let j = choose|j: int|
                                        0 <= j < s0.len() && (#[trigger] s0[j]).0 == q;
                                    assert(j != i);
                                    if j < i {
                                        assert(s1[j].0 == q);
                                        self.lemma_sparse_entry(j);
                                        old(self).lemma_sparse_entry(j);
                                    } else if j == s0.len() - 1 {
                                        assert(s1[i as int].0 == q);
                                        self.lemma_sparse_entry(i as int);
                                        old(self).lemma_sparse_entry(j);
                                    } else {
                                        assert(s1[j].0 == q);
                                        self.lemma_sparse_entry(j);
                                        old(self).lemma_sparse_entry(j);
                                    }
                                }
                            }
                            assert(final(self)@ =~= grid_set(old(self)@, pos, val));
                        }
                    } else {
                        self.cells[i] = (pos, val);
                        proof {
                            let s0 = old(self).cells@;
                            let s1 = self.cells@;
                            assert forall|q: (i64, i64)|
                                #![auto]
                                final(self)@.contains_key(q) <==> grid_set(
                                old(self)@,
                                pos,
                                val,
                            ).contains_key(q) by {
                                if !in_zero_page(q) {
                                    if exists|j: int| 0 <= j < s1.len() && (#[trigger] s1[j]).0 == q {
                                        let j = choose|j: int|
                                            0 <= j < s1.len() && (#[trigger] s1[j]).0 == q;
                                        if j == i {
                                            assert(q == pos);
                                        } else {
                                            assert(s0[j].0 == q);
                                        }
                                    }
                                    if exists|j: int| 0 <= j < s0.len() && (#[trigger] s0[j]).0 == q {
                                        let j = choose|j: int|
                                            0 <= j < s0.len() && (#[trigger] s0[j]).0 == q;
                                        if j == i {
                                            assert(q == pos);
                                            assert(s1[i as int].0 == q);
                                        } else {
                                            assert(s1[j].0 == q);
                                        }
                                    }
                                }
                            }
                            assert forall|q: (i64, i64)|
                                final(self)@.contains_key(q) && !in_zero_page(q)
                                    implies #[trigger] final(self)@[q] == grid_set(
                                old(self)@,
                                pos,
                                val,
                            )[q] by {
                                let j = choose|j: int|
                                    0 <= j < s1.len() && (#[trigger] s1[j]).0 == q;
                                self.lemma_sparse_entry(j);
                                if j == i {
                                    assert(q == pos);
                                } else {
                                    assert(s0[j].0 == q);
                                    old(self).lemma_sparse_entry(j);
                                    assert(q != pos);
                                }
                            }
                            assert(final(self)@ =~= grid_set(old(self)@, pos, val));
                        }
                    }
                },
                None => {
                    if val != SPACE {
                        self.cells.push((pos, val));
                        proof {
                            let s0 = old(self).cells@;
                            let s1 = self.cells@;
                            assert forall|q: (i64, i64)|
                                #![auto]
                                final(self)@.contains_key(q) <==> grid_set(
                                old(self)@,
                                pos,
                                val,
                            ).contains_key(q) by {
                                if !in_zero_page(q) {
                                    if exists|j: int| 0 <= j < s1.len() && (#[trigger] s1[j]).0 == q {
                                        let j = choose|j: int|
                                            0 <= j < s1.len() && (#[trigger] s1[j]).0 == q;
                                        if j < s0.len() {
                                            assert(s0[j].0 == q);
                                        } else {
                                            assert(q == pos);
                                        }
                                    }
                                    if exists|j: int| 0 <= j < s0.len() && (#[trigger] s0[j]).0 == q {
                                        let j = choose|j: int|
                                            0 <= j < s0.len() && (#[trigger] s0[j]).0 == q;
                                        assert(s1[j].0 == q);
                                    }
                                    if q == pos {
                                        assert(s1[s1.len() - 1].0 == q);
                                    }
                                }
                            }
                            assert forall|q: (i64, i64)|
                                final(self)@.contains_key(q) && !in_zero_page(q)
                                    implies #[trigger] final(self)@[q] == grid_set(
                                old(self)@,
                                pos,
                                val,
                            )[q] by {
                                let j = choose|j: int|
                                    0 <= j < s1.len() && (#[trigger] s1[j]).0 == q;
                                self.lemma_sparse_entry(j);
                                if j < s0.len() {
                                    assert(s0[j].0 == q);
                                    old(self).lemma_sparse_entry(j);
                                    assert(q != pos);
                                } else {
                                    assert(q == pos);
                                }
                            }
                            assert(final(self)@ =~= grid_set(old(self)@, pos, val));
                        }
                    } else {
                        proof {
                            assert(final(self)@ =~= grid_set(old(self)@, pos, val));
                        }
                    }
                },
            }
        }
    }

    /// The materialized value at `pos`: always present inside the zero page,
    /// the sparse entry if one exists, absent otherwise.
    pub fn get(&self, pos: (i64, i64)) -> (r: Option<i64>)
        requires
            self.inv(),
        ensures
            r == (if self@.contains_key(pos) {
                Some(grid_cell(self@, pos))
            } else {
                Option::<i64>::None
            }),
    {
        if 0 <= pos.0 && pos.0 < 10 && 0 <= pos.1 && pos.1 < 10 {
            let idx: usize = (pos.0 + pos.1 * 10) as usize;
            Some(self.zero_page[idx])
        } else {
            match self.find_sparse(pos) {
                Some(i) => {
                    proof {
                        self.lemma_sparse_entry(i as int);
                    }
                    Some(self.cells[i].1)
                },
                None => None,
            }
        }
    }

    /// The cell value at `pos`, defaulting absent cells to space and clamping
    /// any coordinate with a negative component to space.
    pub fn get_wrapped(&self, pos: (i64, i64)) -> (r: i64)
        requires
            self.inv(),
        ensures
            r == grid_cell_wrapped(self@, pos),
    {
        if pos.0 < 0 || pos.1 < 0 {
            return SPACE;
        }
        match self.get(pos) {
            Some(v) => v,
            None => SPACE,
        }
    }

    /// Every materialized cell, each exactly once, in unspecified order.
    pub fn entries(&self) -> (r: Vec<((i64, i64), i64)>)
        requires
            self.inv(),
        ensures
            forall|i: int|
                0 <= i < r@.len() ==> self@.contains_key((#[trigger] r@[i]).0) && r@[i].1
                    == self@[r@[i].0],
            forall|p: (i64, i64)|
                self@.contains_key(p) ==> exists|i: int|
                    0 <= i < r@.len() && (#[trigger] r@[i]).0 == p,
            forall|i: int, j: int| 0 <= i < j < r@.len() ==> (#[trigger] r@[i]).0 != (#[trigger] r@[j]).0,
    {
        let mut r: Vec<((i64, i64), i64)> = Vec::new();
        let n = self.cells.len();
        let mut i: usize = 0;
        while i < n
            invariant
                self.inv(),
                n == self.cells@.len(),
                i <= n,
                r@.len() == i,
                forall|j: int| 0 <= j < i ==> r@[j] == self.cells@[j],
            decreases n - i,
        {
            let e = self.cells[i];
            r.push(e);
            i = i + 1;
        }
        let mut y: i64 = 0;
        while y < 10
            invariant
                self.inv(),
                0 <= y <= 10,
                r@.len() == self.cells@.len() + y * 10,
                forall|j: int| 0 <= j < self.cells@.len() ==> r@[j] == self.cells@[j],
                forall|j: int|
                    self.cells@.len() <= j < r@.len() ==> (#[trigger] r@[j]).0 == ((((j
                        - self.cells@.len()) % 10) as i64, ((j - self.cells@.len()) / 10) as i64))
                        && in_zero_page(r@[j].0) && r@[j].1 == self@[r@[j].0],
            decreases 10 - y,
        {
            let mut x: i64 = 0;
            while x < 10
                invariant
                    self.inv(),
                    0 <= y < 10,
                    0 <= x <= 10,
                    r@.len() == self.cells@.len() + y * 10 + x,
                    forall|j: int| 0 <= j < self.cells@.len() ==> r@[j] == self.cells@[j],
                    forall|j: int|
                        self.cells@.len() <= j < r@.len() ==> (#[trigger] r@[j]).0 == ((((j
                            - self.cells@.len()) % 10) as i64, ((j - self.cells@.len()) / 10) as i64))
                            && in_zero_page(r@[j].0) && r@[j].1 == self@[r@[j].0],
                decreases 10 - x,
            {
                let idx: usize = (x + y * 10) as usize;
                r.push(((x, y), self.zero_page[idx]));
                proof {
                    let j = r@.len() - 1;
                    assert(j - self.cells@.len() == y * 10 + x);
                    assert((y * 10 + x) % 10 == x && (y * 10 + x) / 10 == y) by (nonlinear_arith)
                        requires
                            0 <= x < 10 && 0 <= y < 10,
                    ;
                }
                x = x + 1;
            }
            y = y + 1;
        }
        proof {
            let nc = self.cells@.len() as int;
            assert forall|i: int|
                0 <= i < r@.len() implies self@.contains_key((#[trigger] r@[i]).0) && r@[i].1
                == self@[r@[i].0] by {
                if i < nc {
                    self.lemma_sparse_entry(i);
                }
            }
            assert forall|p: (i64, i64)|
                self@.contains_key(p) implies exists|i: int|
                0 <= i < r@.len() && (#[trigger] r@[i]).0 == p by {
                if in_zero_page(p) {
                    let j = nc + p.1 * 10 + p.0;
                    assert((p.1 * 10 + p.0) % 10 == p.0 && (p.1 * 10 + p.0) / 10 == p.1)
                        by (nonlinear_arith)
                        requires
                            0 <= p.0 < 10 && 0 <= p.1 < 10,
                    ;
                    assert(r@[j].0 == p);
                } else {
                    let i = choose|i: int|
                        0 <= i < self.cells@.len() && (#[trigger] self.cells@[i]).0 == p;
                    assert(r@[i].0 == p);
                }
            }
            assert forall|i: int, j: int|
                0 <= i < j < r@.len() implies (#[trigger] r@[i]).0 != (#[trigger] r@[j]).0 by {
                if i < nc && j >= nc {
                    assert(!in_zero_page(r@[i].0));
                } else if i >= nc {
                    let a = i - nc;
                    let b = j - nc;
                    assert(a % 10 + 10 * (a / 10) == a && b % 10 + 10 * (b / 10) == b)
                        by (nonlinear_arith)
                        requires
                            a >= 0 && b >= 0,
                    ;
                }
            }
        }
        r
    }

    /// An identical grid holding the same cells.
    pub fn duplicate(&self) -> (r: Self)
        requires
            self.inv(),
        ensures
            r.inv(),
            r@ == self@,
    {
        let mut cs: Vec<((i64, i64), i64)> = Vec::new();
        let n = self.cells.len();
        let mut i: usize = 0;
        while i < n
            invariant
                n == self.cells@.len(),
                i <= n,
                cs@.len() == i,
                forall|j: int| 0 <= j < i ==> cs@[j] == self.cells@[j],
            decreases n - i,
        {
            let e = self.cells[i];
            cs.push(e);
            i = i + 1;
        }
        let mut zp: Vec<i64> = Vec::new();
        let m = self.zero_page.len();
        let mut k: usize = 0;
        while k < m
            invariant
                m == self.zero_page@.len(),
                k <= m,
                zp@.len() == k,
                forall|j: int| 0 <= j < k ==> zp@[j] == self.zero_page@[j],
            decreases m - k,
        {
            let v = self.zero_page[k];
            zp.push(v);
            k = k + 1;
        }
        let r = FungeSpace { cells: cs, zero_page: zp };
        proof {
            assert(r.cells@ =~= self.cells@);
            assert(r.zero_page@ =~= self.zero_page@);
            assert(r@ =~= self@);
        }
        r
    }
}

} // verus!
