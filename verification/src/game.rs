//! Conway's game of life on a fixed 100 by 100 board, with parsing from a
//! textual form and a cell-difference count between boards.
//!
//! The step rule and the border behavior are those of [`crate::life`], on
//! the smaller side length.

use vstd::prelude::*;
use crate::life::{b2i, count8, life_step, live_at, next_cell};

verus! {

/// The board's side length.
pub const BOARD_N: usize = 100;

/// A life board with its generation counter.
#[derive(Clone)]
pub struct Board {
    pub a: Vec<Vec<bool>>,
    pub generation: u64,
}

/// The number of differing cells between two rows, among the first `k`.
pub open spec fn row_diff(r1: Seq<bool>, r2: Seq<bool>, k: int) -> int
    decreases k,
{
    if k <= 0 {
        0
    } else {
        row_diff(r1, r2, k - 1) + b2i(r1[k - 1] != r2[k - 1])
    }
}

/// The number of differing cells between two grids, among the first `rows`
/// full rows.
pub open spec fn grid_diff(g1: Seq<Seq<bool>>, g2: Seq<Seq<bool>>, rows: int) -> int
    decreases rows,
{
    if rows <= 0 {
        0
    } else {
        grid_diff(g1, g2, rows - 1) + row_diff(g1[rows - 1], g2[rows - 1], BOARD_N as int)
    }
}

/// A difference count over `k` cells never passes `k`.
pub proof fn lemma_row_diff_bound(r1: Seq<bool>, r2: Seq<bool>, k: int)
    requires
        k >= 0,
    ensures
        0 <= row_diff(r1, r2, k) <= k,
    decreases k,
{
    if k > 0 {
        lemma_row_diff_bound(r1, r2, k - 1);
    }
}

/// A difference count over `rows` rows never passes the cell count.
pub proof fn lemma_grid_diff_bound(g1: Seq<Seq<bool>>, g2: Seq<Seq<bool>>, rows: int)
    requires
        rows >= 0,
    ensures
        0 <= grid_diff(g1, g2, rows) <= rows * BOARD_N,
    decreases rows,
{
    if rows > 0 {
        lemma_grid_diff_bound(g1, g2, rows - 1);
        lemma_row_diff_bound(g1[rows - 1], g2[rows - 1], BOARD_N as int);
        assert((rows - 1) * BOARD_N + BOARD_N == rows * BOARD_N) by (nonlinear_arith);
    }
}

impl Board {
    /// The board's cells as a sequence of rows.
    pub open spec fn grid(self) -> Seq<Seq<bool>> {
        self.a@.map(|i: int, row: Vec<bool>| row@)
    }

    /// The board is square at the fixed side length.
    pub open spec fn wf(self) -> bool {
        self.a@.len() == BOARD_N && (forall|r: int|
            0 <= r < BOARD_N ==> (#[trigger] self.a@[r])@.len() == BOARD_N)
    }

    /// An all-dead board at generation zero.
    pub fn empty() -> (r: Board)
        ensures
            r.wf(),
            r.generation == 0,
            forall|i: int, j: int|
                0 <= i < BOARD_N && 0 <= j < BOARD_N ==> !(#[trigger] r.grid()[i][j]),
    {
        let mut a: Vec<Vec<bool>> = Vec::new();
        let mut i: usize = 0;
        while i < BOARD_N
            invariant
                i <= BOARD_N,
                a@.len() == i,
                forall|r: int| 0 <= r < i ==> (#[trigger] a@[r])@.len() == BOARD_N,
                forall|r: int, j: int| 0 <= r < i && 0 <= j < BOARD_N ==> !(#[trigger] a@[r]@[j]),
            decreases BOARD_N - i,
        {
            let mut row: Vec<bool> = Vec::new();
            let mut j: usize = 0;
            while j < BOARD_N
                invariant
                    j <= BOARD_N,
                    row@.len() == j,
                    forall|k: int| 0 <= k < j ==> !(#[trigger] row@[k]),
                decreases BOARD_N - j,
            {
                row.push(false);
                j = j + 1;
            }
            a.push(row);
            i = i + 1;
        }
        Board { a, generation: 0 }
    }

    /// A board with 6400 cells drawn at random (a cell may be drawn more
    /// than once), at generation zero.
    pub fn random() -> (r: Board)
        ensures
            r.wf(),
            r.generation == 0,
    {
        let mut b = Board::empty();
        let mut k: usize = 0;
        while k < 6400
            invariant
                b.wf(),
                b.generation == 0,
            decreases 6400 - k,
        {
            let r = rand::random::<usize>() % b.a.len();
            let c = rand::random::<usize>() % b.a[r].len();
            b.set(r, c, true);
            k = k + 1;
        }
        b
    }

    /// Parses a board from bytes laid out row-major: `#` is a live cell and
    /// every other byte a dead one. Generation starts at zero.
    pub fn parse(x: &[u8]) -> (r: Board)
        requires
            x@.len() >= BOARD_N * BOARD_N,
        ensures
            r.wf(),
            r.generation == 0,
            forall|i: int, j: int|
                0 <= i < BOARD_N && 0 <= j < BOARD_N ==> #[trigger] r.grid()[i][j] == (x@[i
                    * BOARD_N + j] == 35u8),
    {
        let mut a: Vec<Vec<bool>> = Vec::new();
        let mut i: usize = 0;
        while i < BOARD_N
            invariant
                x@.len() >= BOARD_N * BOARD_N,
                i <= BOARD_N,
                a@.len() == i,
                forall|r: int| 0 <= r < i ==> (#[trigger] a@[r])@.len() == BOARD_N,
                forall|r: int, j: int|
                    0 <= r < i && 0 <= j < BOARD_N ==> (#[trigger] a@[r]@[j]) == (x@[r * BOARD_N
                        + j] == 35u8),
            decreases BOARD_N - i,
        {
            let mut row: Vec<bool> = Vec::new();
            let mut j: usize = 0;
            while j < BOARD_N
                invariant
                    x@.len() >= BOARD_N * BOARD_N,
                    i < BOARD_N,
                    j <= BOARD_N,
                    row@.len() == j,
                    forall|k: int|
                        0 <= k < j ==> #[trigger] row@[k] == (x@[i * BOARD_N + k] == 35u8),
                decreases BOARD_N - j,
            {
                proof {
                    assert((i as int) * BOARD_N + (j as int) < BOARD_N * BOARD_N)
                        by (nonlinear_arith)
                        requires
                            0 <= (i as int) < BOARD_N && 0 <= (j as int) < BOARD_N,
                    ;
                    assert((i as int) * BOARD_N >= 0) by (nonlinear_arith)
                        requires
                            (i as int) >= 0,
                    ;
                }
                let cell = x[i * BOARD_N + j] == 35;
                row.push(cell);
                j = j + 1;
            }
            a.push(row);
            i = i + 1;
        }
        Board { a, generation: 0 }
    }

    /// The board's dimensions.
    pub fn size(&self) -> (r: (usize, usize))
        ensures
            r.0 == BOARD_N && r.1 == BOARD_N,
    {
        (BOARD_N, BOARD_N)
    }

    /// The board's side length.
    pub fn len(&self) -> (r: usize)
        ensures
            r == BOARD_N,
    {
        BOARD_N
    }

    /// Whether the cell at `(r, c)` is live.
    pub fn get(&self, r: usize, c: usize) -> (b: bool)
        requires
            self.wf(),
            r < BOARD_N,
            c < BOARD_N,
        ensures
            b == self.grid()[r as int][c as int],
    {
        proof {
            assert(self.grid()[r as int] == self.a@[r as int]@);
        }
        self.a[r][c]
    }

    /// Sets the cell at `(r, c)`.
    pub fn set(&mut self, r: usize, c: usize, v: bool)
        requires
            old(self).wf(),
            r < BOARD_N,
            c < BOARD_N,
        ensures
            final(self).wf(),
            final(self).generation == old(self).generation,
            final(self).grid() == old(self).grid().update(
                r as int,
                old(self).grid()[r as int].update(c as int, v),
            ),
    {
        let ghost prev = self.a@;
        let mut row = self.a.remove(r);
        row[c] = v;
        self.a.insert(r, row);
        proof {
            assert forall|i: int| 0 <= i < BOARD_N implies (#[trigger] self.a@[i])@.len()
                == BOARD_N by {
                if i < r {
                    assert(self.a@[i] == prev[i]);
                } else if i > r {
                    assert(self.a@[i] == prev.remove(r as int)[i - 1]);
                    assert(prev.remove(r as int)[i - 1] == prev[i]);
                }
            }
            assert forall|i: int| 0 <= i < BOARD_N implies #[trigger] self.grid()[i]
                == old(self).grid().update(
                r as int,
                old(self).grid()[r as int].update(c as int, v),
            )[i] by {
                if i < r {
                    assert(self.a@[i] == prev[i]);
                } else if i > r {
                    assert(self.a@[i] == prev.remove(r as int)[i - 1]);
                    assert(prev.remove(r as int)[i - 1] == prev[i]);
                } else {
                    assert(self.grid()[i] =~= prev[i]@.update(c as int, v));
                }
            }
            assert(self.grid() =~= old(self).grid().update(
                r as int,
                old(self).grid()[r as int].update(c as int, v),
            ));
        }
    }

    /// Counts the live neighbors of `(r_start, c_start)`, through the same
    /// border rule as the larger board.
    pub fn neighbors(&self, r_start: usize, c_start: usize) -> (count: u8)
        requires
            self.wf(),
            r_start < BOARD_N,
            c_start < BOARD_N,
        ensures
            count as int == count8(self.grid(), BOARD_N as int, r_start as int, c_start as int),
            count <= 8,
    {
        let r = r_start as i64;
        let c = c_start as i64;
        let mut count: u8 = 0;
        if self.live_nb(r - 1, c - 1) {
            count = count + 1;
        }
        if self.live_nb(r - 1, c) {
            count = count + 1;
        }
        if self.live_nb(r - 1, c + 1) {
            count = count + 1;
        }
        if self.live_nb(r, c - 1) {
            count = count + 1;
        }
        if self.live_nb(r, c + 1) {
            count = count + 1;
        }
        if self.live_nb(r + 1, c - 1) {
            count = count + 1;
        }
        if self.live_nb(r + 1, c) {
            count = count + 1;
        }
        if self.live_nb(r + 1, c + 1) {
            count = count + 1;
        }
        count
    }

    /// Probes one neighbor candidate through the border rule.
    fn live_nb(&self, r: i64, c: i64) -> (b: bool)
        requires
            self.wf(),
        ensures
            b == live_at(self.grid(), BOARD_N as int, r as int, c as int),
    {
        if r > 0 && r < (BOARD_N as i64) && c > 0 && c < (BOARD_N as i64) {
            proof {
                assert(self.grid()[r as int] == self.a@[r as int]@);
            }
            self.a[r as usize][c as usize]
        } else {
            false
        }
    }

    /// The board one step of the life rule later, one generation on.
    pub fn next(&self) -> (r: Board)
        requires
            self.wf(),
            self.generation < u64::MAX,
        ensures
            r.wf(),
            r.grid() == life_step(self.grid(), BOARD_N as int),
            r.generation == self.generation + 1,
    {
        let mut next: Vec<Vec<bool>> = Vec::new();
        let mut r: usize = 0;
        while r < BOARD_N
            invariant
                self.wf(),
                r <= BOARD_N,
                next@.len() == r,
                forall|i: int|
                    0 <= i < r ==> (#[trigger] next@[i])@ == life_step(
                        self.grid(),
                        BOARD_N as int,
                    )[i],
            decreases BOARD_N - r,
        {
            let mut row: Vec<bool> = Vec::new();
            let mut c: usize = 0;
            while c < BOARD_N
                invariant
                    self.wf(),
                    r < BOARD_N,
                    c <= BOARD_N,
                    row@.len() == c,
                    forall|j: int|
                        0 <= j < c ==> #[trigger] row@[j] == next_cell(self.grid(),
                            BOARD_N as int, r as int, j),
                decreases BOARD_N - c,
            {
                let n = self.neighbors(r, c);
                proof {
                    assert(self.grid()[r as int] == self.a@[r as int]@);
                }
                let alive = self.a[r][c];
                let cell = (alive && (n == 2 || n == 3)) || (!alive && n == 3);
                row.push(cell);
                c = c + 1;
            }
            proof {
                assert(row@ =~= life_step(self.grid(), BOARD_N as int)[r as int]);
            }
            next.push(row);
            r = r + 1;
        }
        let out = Board { a: next, generation: self.generation + 1 };
        proof {
            assert(out.grid() =~= life_step(self.grid(), BOARD_N as int));
        }
        out
    }

    /// Counts the cells on which the two boards differ.
    pub fn difference(&self, other: &Board) -> (diff: usize)
        requires
            self.wf(),
            other.wf(),
        ensures
            diff as int == grid_diff(self.grid(), other.grid(), BOARD_N as int),
            diff <= BOARD_N * BOARD_N,
    {
        let mut diff: usize = 0;
        let mut r: usize = 0;
        while r < BOARD_N
            invariant
                self.wf(),
                other.wf(),
                r <= BOARD_N,
                diff as int == grid_diff(self.grid(), other.grid(), r as int),
                diff <= r * BOARD_N,
            decreases BOARD_N - r,
        {
            let mut c: usize = 0;
            while c < BOARD_N
                invariant
                    self.wf(),
                    other.wf(),
                    r < BOARD_N,
                    c <= BOARD_N,
                    diff as int == grid_diff(self.grid(), other.grid(), r as int) + row_diff(
                        self.grid()[r as int],
                        other.grid()[r as int],
                        c as int,
                    ),
                    diff <= r * BOARD_N + c,
                decreases BOARD_N - c,
            {
                proof {
                    lemma_grid_diff_bound(self.grid(), other.grid(), r as int);
                    lemma_row_diff_bound(self.grid()[r as int], other.grid()[r as int], c as int);
                    assert((r as int) * BOARD_N + BOARD_N <= BOARD_N * BOARD_N)
                        by (nonlinear_arith)
                        requires
                            0 <= (r as int) < BOARD_N,
                    ;
                }
                if self.get(r, c) != other.get(r, c) {
                    diff = diff + 1;
                }
                c = c + 1;
            }
            proof {
                assert((r as int) * BOARD_N + BOARD_N == (r as int + 1) * BOARD_N)
                    by (nonlinear_arith);
            }
            r = r + 1;
        }
        proof {
            lemma_grid_diff_bound(self.grid(), other.grid(), BOARD_N as int);
        }
        diff
    }
}

} // verus!
