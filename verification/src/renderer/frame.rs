//! The mathematical model of a framebuffer: a grid of `height` rows and
//! `width` columns, stored row after row, addressed by 1-based
//! (row, column) coordinates as the renderers address it.

use vstd::prelude::*;

verus! {

/// A framebuffer seen as a grid of cells.
pub struct Frame<T> {
    pub width: nat,
    pub height: nat,
    pub cells: Seq<T>,
}

impl<T> Frame<T> {
    /// The cells fill the grid exactly.
    pub open spec fn wf(self) -> bool {
        self.cells.len() == self.width * self.height
    }

    /// (row, col) addresses a cell of the grid.
    pub open spec fn contains(self, row: int, col: int) -> bool {
        &&& 1 <= row <= self.height
        &&& 1 <= col <= self.width
    }

    /// Where the cell (row, col) is stored.
    pub open spec fn index_of(self, row: int, col: int) -> int {
        (row - 1) * self.width + (col - 1)
    }

    /// The content of the cell (row, col).
    pub open spec fn at(self, row: int, col: int) -> T {
        self.cells[self.index_of(row, col)]
    }

    /// The frame with cell (row, col) set to `v`; unchanged when (row, col)
    /// lies outside the grid.
    pub open spec fn set(self, row: int, col: int, v: T) -> Frame<T> {
        if self.contains(row, col) {
            Frame { width: self.width, height: self.height, cells: self.cells.update(self.index_of(row, col), v) }
        } else {
            self
        }
    }

    /// The frame of the same size with every cell set to `v`.
    pub open spec fn filled(self, v: T) -> Frame<T> {
        Frame { width: self.width, height: self.height, cells: Seq::new(self.cells.len(), |i: int| v) }
    }
}

/// The storage position of a cell of the grid lies inside the grid's storage,
/// and no two cells share one.
pub proof fn lemma_index_in_grid<T>(f: Frame<T>, row: int, col: int)
    requires
        f.wf(),
        f.contains(row, col),
    ensures
        0 <= f.index_of(row, col) < f.cells.len(),
{
    let w = f.width as int;
    let h = f.height as int;
    assert(0 <= (row - 1) * w + (col - 1) < h * w) by (nonlinear_arith)
        requires
            1 <= row <= h,
            1 <= col <= w,
    {
        assert((row - 1) * w <= (h - 1) * w);
        assert(0 <= (row - 1) * w);
    }
}

/// Two different cells of the grid are stored at different positions.
pub proof fn lemma_index_injective<T>(f: Frame<T>, r1: int, c1: int, r2: int, c2: int)
    requires
        f.contains(r1, c1),
        f.contains(r2, c2),
        r1 != r2 || c1 != c2,
    ensures
        f.index_of(r1, c1) != f.index_of(r2, c2),
{
    let w = f.width as int;
    if r1 == r2 {
    } else {
        assert((r1 - 1) * w + (c1 - 1) != (r2 - 1) * w + (c2 - 1)) by (nonlinear_arith)
            requires
                r1 != r2,
                1 <= c1 <= w,
                1 <= c2 <= w,
        {
            if r1 < r2 {
                assert((r2 - 1) * w >= (r1 - 1) * w + w);
            } else {
                assert((r1 - 1) * w >= (r2 - 1) * w + w);
            }
        }
    }
}

/// Reading a cell after setting it gives what was written; every other cell
/// keeps its content, and the grid keeps its size.
pub proof fn lemma_set_reads_back<T>(f: Frame<T>, row: int, col: int, v: T, r: int, c: int)
    requires
        f.wf(),
        f.contains(r, c),
    ensures
        f.set(row, col, v).wf(),
        f.set(row, col, v).width == f.width,
        f.set(row, col, v).height == f.height,
        f.set(row, col, v).at(r, c) == (if r == row && c == col { v } else { f.at(r, c) }),
{
    lemma_index_in_grid(f, r, c);
    if f.contains(row, col) {
        lemma_index_in_grid(f, row, col);
    }
    if f.contains(row, col) && !(r == row && c == col) {
        lemma_index_injective(f, row, col, r, c);
    }
}

/// Writes to two different cells can be made in either order.
pub proof fn lemma_set_commutes<T>(f: Frame<T>, r1: int, c1: int, v1: T, r2: int, c2: int, v2: T)
    requires
        f.wf(),
        r1 != r2 || c1 != c2,
    ensures
        f.set(r1, c1, v1).set(r2, c2, v2) == f.set(r2, c2, v2).set(r1, c1, v1),
{
    if f.contains(r1, c1) && f.contains(r2, c2) {
        lemma_index_in_grid(f, r1, c1);
        lemma_index_in_grid(f, r2, c2);
        lemma_index_injective(f, r1, c1, r2, c2);
        assert(f.set(r1, c1, v1).set(r2, c2, v2).cells =~= f.set(r2, c2, v2).set(r1, c1, v1).cells);
    }
}

/// A second write to the same cell replaces the first.
pub proof fn lemma_set_overwrites<T>(f: Frame<T>, row: int, col: int, v1: T, v2: T)
    requires
        f.wf(),
    ensures
        f.set(row, col, v1).set(row, col, v2) == f.set(row, col, v2),
{
    if f.contains(row, col) {
        lemma_index_in_grid(f, row, col);
        assert(f.set(row, col, v1).set(row, col, v2).cells =~= f.set(row, col, v2).cells);
    }
}

/// Filling the grid forgets every earlier write.
pub proof fn lemma_fill_absorbs_set<T>(f: Frame<T>, row: int, col: int, v: T, fill: T)
    requires
        f.wf(),
    ensures
        f.set(row, col, v).filled(fill) == f.filled(fill),
{
    if f.contains(row, col) {
        lemma_index_in_grid(f, row, col);
    }
    assert(f.set(row, col, v).filled(fill).cells =~= f.filled(fill).cells);
}

/// Every storage position of a well-formed grid holds some cell of the grid.
pub proof fn lemma_index_onto<T>(f: Frame<T>, k: int)
    requires
        f.wf(),
        0 <= k < f.cells.len(),
    ensures
        f.contains(k / (f.width as int) + 1, k % (f.width as int) + 1),
        f.index_of(k / (f.width as int) + 1, k % (f.width as int) + 1) == k,
{
    let w = f.width as int;
    let h = f.height as int;
    assert(w > 0) by (nonlinear_arith)
        requires
            0 <= k < w * h,
            w >= 0,
            h >= 0,
    ;
    vstd::arithmetic::div_mod::lemma_fundamental_div_mod(k, w);
    vstd::arithmetic::div_mod::lemma_mod_pos_bound(k, w);
    let q = k / w;
    let r = k % w;
    assert(0 <= q < h) by (nonlinear_arith)
        requires
            k == w * q + r,
            0 <= r < w,
            0 <= k < w * h,
    ;
    assert((q + 1 - 1) * w + (r + 1 - 1) == k) by (nonlinear_arith)
        requires
            k == w * q + r,
    ;
}

/// Two well-formed frames of the same size that agree on every cell are
/// equal.
pub proof fn lemma_frame_ext<T>(a: Frame<T>, b: Frame<T>)
    requires
        a.wf(),
        b.wf(),
        a.width == b.width,
        a.height == b.height,
        forall|r: int, c: int| a.contains(r, c) ==> #[trigger] a.at(r, c) == b.at(r, c),
    ensures
        a == b,
{
    assert forall|k: int| 0 <= k < a.cells.len() implies a.cells[k] == b.cells[k] by {
        lemma_index_onto(a, k);
        let r = k / (a.width as int) + 1;
        let c = k % (a.width as int) + 1;
        assert(a.at(r, c) == b.at(r, c));
    }
    assert(a.cells =~= b.cells);
}

} // verus!
