//! The game of life on an arbitrarily sized array with a dead border.
//!
//! Cells are bytes, one for live and zero for dead. A parsed board carries a
//! one-cell border of dead cells around the payload; each iteration first
//! counts every interior cell's eight neighbors into a scratch array and
//! then rewrites the interior by the life rule, leaving the border alone.

use vstd::prelude::*;

verus! {

/// A two-dimensional array of cell bytes, row-major.
#[derive(Clone, Debug)]
pub struct BoardArray {
    pub data: Vec<u8>,
    pub rows: usize,
    pub cols: usize,
}

impl BoardArray {
    /// The backing vector holds exactly one byte per cell, and the sides are
    /// small enough that every row-major index fits the machine.
    pub open spec fn wf(self) -> bool {
        self.data@.len() == self.rows * self.cols && self.rows <= 32768 && self.cols <= 32768
    }

    /// The byte of cell `(r, c)`.
    pub open spec fn cell(self, r: int, c: int) -> u8 {
        self.data@[r * self.cols + c]
    }

    /// Every cell is zero or one.
    pub open spec fn binary(self) -> bool {
        forall|i: int| 0 <= i < self.data@.len() ==> #[trigger] self.data@[i] <= 1
    }

    /// A zero-filled array of the given dimensions.
    pub fn zeros(rows: usize, cols: usize) -> (a: BoardArray)
        requires
            rows <= 32768,
            cols <= 32768,
        ensures
            a.wf(),
            a.rows == rows,
            a.cols == cols,
            forall|i: int| 0 <= i < a.data@.len() ==> #[trigger] a.data@[i] == 0,
            a.binary(),
    {
        proof {
            vstd::arithmetic::mul::lemma_mul_nonnegative(rows as int, cols as int);
            assert(rows * cols <= 0x4000_0000int) by (nonlinear_arith)
                requires
                    rows <= 32768 && cols <= 32768,
            ;
        }
        let total = rows * cols;
        let mut data: Vec<u8> = Vec::new();
        let mut i: usize = 0;
        while i < total
            invariant
                i <= total,
                data@.len() == i,
                forall|j: int| 0 <= j < i ==> #[trigger] data@[j] == 0,
            decreases total - i,
        {
            data.push(0);
            i = i + 1;
        }
        BoardArray { data, rows, cols }
    }

    /// The byte of cell `(r, c)`.
    pub fn get(&self, r: usize, c: usize) -> (b: u8)
        requires
            self.wf(),
            r < self.rows,
            c < self.cols,
        ensures
            b == self.cell(r as int, c as int),
    {
        proof {
            assert(self.rows * self.cols <= 0x4000_0000int) by (nonlinear_arith)
                requires
                    self.rows <= 32768 && self.cols <= 32768,
            ;
            lemma_index_in_range(self.rows as int, self.cols as int, r as int, c as int);
        }
        self.data[r * self.cols + c]
    }

    /// The byte of cell `(r, c)` of a binary array, known to be at most one.
    fn get_bin(&self, r: usize, c: usize) -> (b: u8)
        requires
            self.wf(),
            self.binary(),
            r < self.rows,
            c < self.cols,
        ensures
            b == self.cell(r as int, c as int),
            b <= 1,
    {
        proof {
            assert(self.rows * self.cols <= 0x4000_0000int) by (nonlinear_arith)
                requires
                    self.rows <= 32768 && self.cols <= 32768,
            ;
            lemma_index_in_range(self.rows as int, self.cols as int, r as int, c as int);
        }
        self.data[r * self.cols + c]
    }

    /// Writes the byte of cell `(r, c)`.
    pub fn set(&mut self, r: usize, c: usize, v: u8)
        requires
            old(self).wf(),
            r < old(self).rows,
            c < old(self).cols,
        ensures
            final(self).wf(),
            final(self).rows == old(self).rows,
            final(self).cols == old(self).cols,
            final(self).data@ == old(self).data@.update(r * old(self).cols + c, v),
    {
        proof {
            assert(self.rows * self.cols <= 0x4000_0000int) by (nonlinear_arith)
                requires
                    self.rows <= 32768 && self.cols <= 32768,
            ;
            lemma_index_in_range(self.rows as int, self.cols as int, r as int, c as int);
        }
        let idx = r * self.cols + c;
        self.data[idx] = v;
    }
}

/// A row-major cell index lies inside the backing vector, and decomposes
/// uniquely.
proof fn lemma_index_in_range(rows: int, cols: int, r: int, c: int)
    requires
        0 <= r < rows,
        0 <= c < cols,
    ensures
        0 <= r * cols + c < rows * cols,
{
    assert(0 <= r * cols + c < rows * cols) by (nonlinear_arith)
        requires
            0 <= r < rows && 0 <= c < cols,
    ;
}

/// Distinct cells have distinct row-major indices.
proof fn lemma_index_unique(cols: int, r1: int, c1: int, r2: int, c2: int)
    requires
        0 <= c1 < cols,
        0 <= c2 < cols,
        0 <= r1,
        0 <= r2,
        r1 * cols + c1 == r2 * cols + c2,
    ensures
        r1 == r2 && c1 == c2,
{
    assert(r1 == r2 && c1 == c2) by (nonlinear_arith)
        requires
            0 <= c1 < cols && 0 <= c2 < cols && 0 <= r1 && 0 <= r2 && r1 * cols + c1 == r2 * cols
                + c2,
    ;
}

/// A board: the cell array, border included.
#[derive(Clone, Debug)]
pub struct Board {
    pub arr: BoardArray,
}

/// The number of live neighbors of the cell `(r, c)`: the sum of the eight
/// surrounding bytes.
pub open spec fn neighbor_sum(a: BoardArray, r: int, c: int) -> int {
    a.cell(r - 1, c - 1) + a.cell(r - 1, c) + a.cell(r - 1, c + 1) + a.cell(r, c - 1) + a.cell(
        r,
        c + 1,
    ) + a.cell(r + 1, c - 1) + a.cell(r + 1, c) + a.cell(r + 1, c + 1)
}

/// The life rule on a byte cell: alive next exactly with three neighbors, or
/// with two neighbors while already alive.
pub open spec fn rule(n: int, cur: u8) -> u8 {
    if n == 3 || (n == 2 && cur > 0) {
        1
    } else {
        0
    }
}

/// The number of bytes among the first `k` of `x` that spell a cell: `#` or
/// `.`.
pub open spec fn kept_count(x: Seq<u8>, k: int) -> int
    decreases k,
{
    if k <= 0 {
        0
    } else {
        kept_count(x, k - 1) + if x[k - 1] == 35 || x[k - 1] == 46 {
            1int
        } else {
            0int
        }
    }
}

/// The cells spelled by the first `k` bytes of `x`: one for each `#`, zero
/// for each `.`, other bytes skipped.
pub open spec fn kept_cells(x: Seq<u8>, k: int) -> Seq<u8>
    decreases k,
{
    if k <= 0 {
        Seq::empty()
    } else {
        let prev = kept_cells(x, k - 1);
        if x[k - 1] == 35 {
            prev.push(1)
        } else if x[k - 1] == 46 {
            prev.push(0)
        } else {
            prev
        }
    }
}

/// The parsed cells number exactly the kept bytes.
pub proof fn lemma_kept_len(x: Seq<u8>, k: int)
    requires
        k >= 0,
    ensures
        kept_cells(x, k).len() == kept_count(x, k),
        forall|i: int| 0 <= i < kept_cells(x, k).len() ==> #[trigger] kept_cells(x, k)[i] <= 1,
    decreases k,
{
    if k > 0 {
        lemma_kept_len(x, k - 1);
    }
}

impl Board {
    /// An all-dead board of the given dimensions.
    pub fn blank(rows: usize, cols: usize) -> (b: Board)
        requires
            rows <= 32768,
            cols <= 32768,
        ensures
            b.arr.wf(),
            b.arr.rows == rows,
            b.arr.cols == cols,
            b.arr.binary(),
    {
        Board { arr: BoardArray::zeros(rows, cols) }
    }

    /// A zero scratch array for [`Board::iterate`].
    pub fn scratch(rows: usize, cols: usize) -> (a: BoardArray)
        requires
            rows <= 32768,
            cols <= 32768,
        ensures
            a.wf(),
            a.rows == rows,
            a.cols == cols,
    {
        BoardArray::zeros(rows, cols)
    }

    /// Parses a board from text: `#` is a live cell, `.` a dead one, every
    /// other byte is skipped; the kept cells must fill `rows * cols`
    /// exactly, and come surrounded by a border of dead cells.
    pub fn parse(x: &[u8], rows: usize, cols: usize) -> (b: Board)
        requires
            kept_count(x@, x@.len() as int) == rows * cols,
            rows + 2 <= 16384,
            cols + 2 <= 16384,
        ensures
            b.arr.wf(),
            b.arr.rows == rows + 2,
            b.arr.cols == cols + 2,
            b.arr.binary(),
            forall|r: int, c: int|
                1 <= r <= rows && 1 <= c <= cols ==> b.arr.cell(r, c) == kept_cells(
                    x@,
                    x@.len() as int,
                )[(r - 1) * cols + (c - 1)],
            forall|r: int, c: int|
                0 <= r < rows + 2 && 0 <= c < cols + 2 && !(1 <= r <= rows && 1 <= c <= cols)
                    ==> b.arr.cell(r, c) == 0,
    {
        let mut kept: Vec<u8> = Vec::new();
        let mut i: usize = 0;
        proof {
            lemma_kept_len(x@, x@.len() as int);
        }
        while i < x.len()
            invariant
                i <= x@.len(),
                kept@ == kept_cells(x@, i as int),
                kept@.len() == kept_count(x@, i as int),
            decreases x@.len() - i,
        {
            proof {
                lemma_kept_len(x@, i as int + 1);
                lemma_kept_len(x@, i as int);
            }
            let b = x[i];
            if b == 35 {
                kept.push(1);
            } else if b == 46 {
                kept.push(0);
            }
            i = i + 1;
        }
        let mut arr = BoardArray::zeros(rows + 2, cols + 2);
        proof {
            assert forall|i: int, j: int|
                0 <= i < rows + 2 && 0 <= j < cols + 2 implies arr.cell(i, j) == 0 by {
                lemma_index_in_range(rows as int + 2, cols as int + 2, i, j);
            }
        }
        let mut r: usize = 0;
        while r < rows
            invariant
                kept@ == kept_cells(x@, x@.len() as int),
                kept@.len() == rows * cols,
                forall|i: int| 0 <= i < kept@.len() ==> #[trigger] kept@[i] <= 1,
                rows + 2 <= 16384,
                cols + 2 <= 16384,
                r <= rows,
                arr.wf(),
                arr.rows == rows + 2,
                arr.cols == cols + 2,
                arr.binary(),
                forall|i: int, j: int|
                    1 <= i <= r && 1 <= j <= cols ==> arr.cell(i, j) == kept@[(i - 1) * cols + (j
                        - 1)],
                forall|i: int, j: int|
                    0 <= i < rows + 2 && 0 <= j < cols + 2 && !(1 <= i <= r && 1 <= j <= cols)
                        ==> arr.cell(i, j) == 0,
            decreases rows - r,
        {
            let mut c: usize = 0;
            while c < cols
                invariant
                    kept@ == kept_cells(x@, x@.len() as int),
                    kept@.len() == rows * cols,
                    forall|i: int| 0 <= i < kept@.len() ==> #[trigger] kept@[i] <= 1,
                    rows + 2 <= 16384,
                    cols + 2 <= 16384,
                    r < rows,
                    c <= cols,
                    arr.wf(),
                    arr.rows == rows + 2,
                    arr.cols == cols + 2,
                    arr.binary(),
                    forall|i: int, j: int|
                        1 <= i <= r && 1 <= j <= cols ==> arr.cell(i, j) == kept@[(i - 1) * cols
                            + (j - 1)],
                    forall|j: int|
                        1 <= j <= c ==> #[trigger] arr.cell(r + 1, j) == kept@[r * cols + (j
                            - 1)],
                    forall|i: int, j: int|
                        0 <= i < rows + 2 && 0 <= j < cols + 2 && !(1 <= i <= r && 1 <= j <= cols)
                            && !(i == r + 1 && 1 <= j <= c) ==> arr.cell(i, j) == 0,
                decreases cols - c,
            {
                proof {
                    assert(rows * cols <= 0x1000_0000int) by (nonlinear_arith)
                        requires
                            rows <= 16384 && cols <= 16384,
                    ;
                    lemma_index_in_range(rows as int, cols as int, r as int, c as int);
                }
                let v = kept[r * cols + c];
                let ghost before = arr;
                arr.set(r + 1, c + 1, v);
                proof {
                    lemma_cell_update(before, arr, r as int + 1, c as int + 1, v);
                }
                c = c + 1;
            }
            r = r + 1;
        }
        Board { arr }
    }

    /// One step of the life rule on the interior cells: `scratch` receives
    /// every interior cell's neighbor count, and the interior is then
    /// rewritten by the rule; the border stays as it was.
    pub fn iterate(&mut self, scratch: &mut BoardArray)
        requires
            old(self).arr.wf(),
            old(self).arr.binary(),
            old(self).arr.rows >= 2,
            old(self).arr.cols >= 2,
            old(self).arr.rows <= 16384,
            old(self).arr.cols <= 16384,
            old(scratch).wf(),
            old(scratch).rows == old(self).arr.rows - 2,
            old(scratch).cols == old(self).arr.cols - 2,
        ensures
            final(self).arr.wf(),
            final(self).arr.binary(),
            final(self).arr.rows == old(self).arr.rows,
            final(self).arr.cols == old(self).arr.cols,
            final(scratch).wf(),
            final(scratch).rows == old(scratch).rows,
            final(scratch).cols == old(scratch).cols,
            forall|i: int, j: int|
                0 <= i < old(scratch).rows && 0 <= j < old(scratch).cols ==> final(scratch).cell(
                    i,
                    j,
                ) == neighbor_sum(old(self).arr, i + 1, j + 1),
            forall|i: int, j: int|
                1 <= i < old(self).arr.rows - 1 && 1 <= j < old(self).arr.cols - 1
                    ==> final(self).arr.cell(i, j) == rule(
                    neighbor_sum(old(self).arr, i, j),
                    old(self).arr.cell(i, j),
                ),
            forall|i: int, j: int|
                0 <= i < old(self).arr.rows && 0 <= j < old(self).arr.cols
                    && !(1 <= i < old(self).arr.rows - 1 && 1 <= j < old(self).arr.cols - 1)
                    ==> final(self).arr.cell(i, j) == old(self).arr.cell(i, j),
    {
        let rows = self.arr.rows;
        let cols = self.arr.cols;
        let ghost z0 = self.arr;
        let mut i: usize = 0;
        while i < rows - 2
            invariant
                self.arr == z0,
                z0.wf(),
                z0.binary(),
                2 <= rows <= 16384,
                2 <= cols <= 16384,
                rows == z0.rows,
                cols == z0.cols,
                i <= rows - 2,
                scratch.wf(),
                scratch.rows == rows - 2,
                scratch.cols == cols - 2,
                forall|a: int, b: int|
                    0 <= a < i && 0 <= b < cols - 2 ==> scratch.cell(a, b) == neighbor_sum(
                        z0,
                        a + 1,
                        b + 1,
                    ),
            decreases rows - 2 - i,
        {
            let mut j: usize = 0;
            while j < cols - 2
                invariant
                    self.arr == z0,
                    z0.wf(),
                    z0.binary(),
                    2 <= rows <= 16384,
                    2 <= cols <= 16384,
                    rows == z0.rows,
                    cols == z0.cols,
                    i < rows - 2,
                    j <= cols - 2,
                    scratch.wf(),
                    scratch.rows == rows - 2,
                    scratch.cols == cols - 2,
                    forall|a: int, b: int|
                        0 <= a < i && 0 <= b < cols - 2 ==> scratch.cell(a, b) == neighbor_sum(
                            z0,
                            a + 1,
                            b + 1,
                        ),
                    forall|b: int|
                        0 <= b < j ==> scratch.cell(i as int, b) == neighbor_sum(z0, i + 1, b + 1),
                decreases cols - 2 - j,
            {
                let n = self.arr.get_bin(i, j) + self.arr.get_bin(i, j + 1) + self.arr.get_bin(
                    i,
                    j + 2,
                ) + self.arr.get_bin(i + 1, j) + self.arr.get_bin(i + 1, j + 2)
                    + self.arr.get_bin(i + 2, j) + self.arr.get_bin(i + 2, j + 1)
                    + self.arr.get_bin(i + 2, j + 2);
                let ghost before = *scratch;
                scratch.set(i, j, n);
                proof {
                    lemma_cell_update(before, *scratch, i as int, j as int, n);
                }
                j = j + 1;
            }
            i = i + 1;
        }
        let mut i: usize = 1;
        while i < rows - 1
            invariant
                z0.wf(),
                z0.binary(),
                2 <= rows <= 16384,
                2 <= cols <= 16384,
                rows == z0.rows,
                cols == z0.cols,
                1 <= i <= rows - 1,
                scratch.wf(),
                scratch.rows == rows - 2,
                scratch.cols == cols - 2,
                forall|a: int, b: int|
                    0 <= a < rows - 2 && 0 <= b < cols - 2 ==> scratch.cell(a, b) == neighbor_sum(
                        z0,
                        a + 1,
                        b + 1,
                    ),
                self.arr.wf(),
                self.arr.binary(),
                self.arr.rows == rows,
                self.arr.cols == cols,
                forall|a: int, b: int|
                    1 <= a < i && 1 <= b < cols - 1 ==> self.arr.cell(a, b) == rule(
                        neighbor_sum(z0, a, b),
                        z0.cell(a, b),
                    ),
                forall|a: int, b: int|
                    0 <= a < rows && 0 <= b < cols && !(1 <= a < i && 1 <= b < cols - 1)
                        ==> self.arr.cell(a, b) == z0.cell(a, b),
            decreases rows - 1 - i,
        {
            let mut j: usize = 1;
            while j < cols - 1
                invariant
                    z0.wf(),
                    z0.binary(),
                    2 <= rows <= 16384,
                    2 <= cols <= 16384,
                    rows == z0.rows,
                    cols == z0.cols,
                    1 <= i < rows - 1,
                    1 <= j <= cols - 1,
                    scratch.wf(),
                    scratch.rows == rows - 2,
                    scratch.cols == cols - 2,
                    forall|a: int, b: int|
                        0 <= a < rows - 2 && 0 <= b < cols - 2 ==> scratch.cell(a, b)
                            == neighbor_sum(z0, a + 1, b + 1),
                    self.arr.wf(),
                    self.arr.binary(),
                    self.arr.rows == rows,
                    self.arr.cols == cols,
                    forall|a: int, b: int|
                        1 <= a < i && 1 <= b < cols - 1 ==> self.arr.cell(a, b) == rule(
                            neighbor_sum(z0, a, b),
                            z0.cell(a, b),
                        ),
                    forall|b: int|
                        1 <= b < j ==> self.arr.cell(i as int, b) == rule(
                            neighbor_sum(z0, i as int, b),
                            z0.cell(i as int, b),
                        ),
                    forall|a: int, b: int|
                        0 <= a < rows && 0 <= b < cols && !(1 <= a < i && 1 <= b < cols - 1) && !(
                        a == i && 1 <= b < j) ==> self.arr.cell(a, b) == z0.cell(a, b),
                decreases cols - 1 - j,
            {
                let n = scratch.get(i - 1, j - 1);
                let cur = self.arr.get(i, j);
                let v: u8 = if n == 3 || (n == 2 && cur > 0) {
                    1
                } else {
                    0
                };
                let ghost before = self.arr;
                self.arr.set(i, j, v);
                proof {
                    lemma_cell_update(before, self.arr, i as int, j as int, v);
                }
                j = j + 1;
            }
            i = i + 1;
        }
    }

    /// Lights the four interior corner cells.
    pub fn turn_on_corners(&mut self)
        requires
            old(self).arr.wf(),
            old(self).arr.rows >= 3,
            old(self).arr.cols >= 3,
            old(self).arr.binary(),
        ensures
            final(self).arr.wf(),
            final(self).arr.binary(),
            final(self).arr.rows == old(self).arr.rows,
            final(self).arr.cols == old(self).arr.cols,
            final(self).arr.cell(1, 1) == 1,
            final(self).arr.cell(1, old(self).arr.cols - 2) == 1,
            final(self).arr.cell(old(self).arr.rows - 2, 1) == 1,
            final(self).arr.cell(old(self).arr.rows - 2, old(self).arr.cols - 2) == 1,
    {
        let n = self.arr.rows;
        let m = self.arr.cols;
        let ghost a0 = self.arr;
        self.arr.set(1, 1, 1);
        proof {
            lemma_cell_update(a0, self.arr, 1, 1, 1);
        }
        let ghost a1 = self.arr;
        self.arr.set(1, m - 2, 1);
        proof {
            lemma_cell_update(a1, self.arr, 1, m as int - 2, 1);
        }
        let ghost a2 = self.arr;
        self.arr.set(n - 2, 1, 1);
        proof {
            lemma_cell_update(a2, self.arr, n as int - 2, 1, 1);
        }
        let ghost a3 = self.arr;
        self.arr.set(n - 2, m - 2, 1);
        proof {
            lemma_cell_update(a3, self.arr, n as int - 2, m as int - 2, 1);
        }
    }
}

/// What one `set` does to the cells: the written cell holds the new byte and
/// every other cell is untouched; a binary array stays binary when a binary
/// byte is written.
proof fn lemma_cell_update(before: BoardArray, after: BoardArray, r: int, c: int, v: u8)
    requires
        before.wf(),
        0 <= r < before.rows,
        0 <= c < before.cols,
        after.rows == before.rows,
        after.cols == before.cols,
        after.data@ == before.data@.update(r * before.cols + c, v),
    ensures
        after.wf(),
        after.cell(r, c) == v,
        forall|i: int, j: int|
            0 <= i < before.rows && 0 <= j < before.cols && !(i == r && j == c)
                ==> after.cell(i, j) == before.cell(i, j),
        before.binary() && v <= 1 ==> after.binary(),
{
    lemma_index_in_range(before.rows as int, before.cols as int, r, c);
    assert forall|i: int, j: int|
        0 <= i < before.rows && 0 <= j < before.cols && !(i == r && j == c) implies after.cell(
        i,
        j,
    ) == before.cell(i, j) by {
        lemma_index_in_range(before.rows as int, before.cols as int, i, j);
        if i * before.cols + j == r * before.cols + c {
            lemma_index_unique(before.cols as int, i, j, r, c);
        }
    }
}

} // verus!
