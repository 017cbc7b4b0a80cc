//! Conway's game of life on a fixed 200 by 200 board.
//!
//! Cells on the top row and leftmost column never count as neighbors: the
//! neighbor scan admits only coordinates strictly inside the upper-left
//! border, and the step rule is stated over exactly that scan.

use vstd::prelude::*;

verus! {

/// The board's side length.
pub const LIFE_N: usize = 200;

/// A life board with its generation counter.
pub struct Life {
    pub a: Vec<Vec<bool>>,
    pub generation: u64,
}

/// One where a live cell counts, zero where it does not.
pub open spec fn b2i(b: bool) -> int {
    if b {
        1
    } else {
        0
    }
}

/// Whether the cell `(r, c)` of `g` is live and eligible as a neighbor: its
/// coordinates must lie strictly inside the upper-left border.
pub open spec fn live_at(g: Seq<Seq<bool>>, n: int, r: int, c: int) -> bool {
    0 < r < n && 0 < c < n && g[r][c]
}

/// The number of live neighbors of `(r, c)`: the eight surrounding cells,
/// each counted through the border rule.
pub open spec fn count8(g: Seq<Seq<bool>>, n: int, r: int, c: int) -> int {
    b2i(live_at(g, n, r - 1, c - 1)) + b2i(live_at(g, n, r - 1, c)) + b2i(
        live_at(g, n, r - 1, c + 1),
    ) + b2i(live_at(g, n, r, c - 1)) + b2i(live_at(g, n, r, c + 1)) + b2i(
        live_at(g, n, r + 1, c - 1),
    ) + b2i(live_at(g, n, r + 1, c)) + b2i(live_at(g, n, r + 1, c + 1))
}

/// The life rule: a live cell survives with two or three neighbors, a dead
/// cell is born with exactly three.
pub open spec fn next_cell(g: Seq<Seq<bool>>, n: int, r: int, c: int) -> bool {
    let k = count8(g, n, r, c);
    (g[r][c] && (k == 2 || k == 3)) || (!g[r][c] && k == 3)
}

/// One step of the whole board.
pub open spec fn life_step(g: Seq<Seq<bool>>, n: int) -> Seq<Seq<bool>> {
    Seq::new(n as nat, |r: int| Seq::new(n as nat, |c: int| next_cell(g, n, r, c)))
}

/// A grid is square with the given side length.
pub open spec fn grid_wf(g: Seq<Seq<bool>>, n: int) -> bool {
    g.len() == n && forall|r: int| 0 <= r < n ==> (#[trigger] g[r]).len() == n
}

impl Life {
    /// The board's cells as a sequence of rows.
    pub open spec fn grid(self) -> Seq<Seq<bool>> {
        self.a@.map(|i: int, row: Vec<bool>| row@)
    }

    /// The board is square at the fixed side length.
    pub open spec fn wf(self) -> bool {
        self.a@.len() == LIFE_N && (forall|r: int|
            0 <= r < LIFE_N ==> (#[trigger] self.a@[r])@.len() == LIFE_N)
    }

    /// A fresh board with 6400 cells drawn at random (a cell may be drawn
    /// more than once), at generation zero.
    pub fn new() -> (r: Life)
        ensures
            r.wf(),
            r.generation == 0,
    {
        let mut a: Vec<Vec<bool>> = Vec::new();
        let mut i: usize = 0;
        while i < LIFE_N
            invariant
                i <= LIFE_N,
                a@.len() == i,
                forall|r: int| 0 <= r < i ==> (#[trigger] a@[r])@.len() == LIFE_N,
            decreases LIFE_N - i,
        {
            let mut row: Vec<bool> = Vec::new();
            let mut j: usize = 0;
            while j < LIFE_N
                invariant
                    j <= LIFE_N,
                    row@.len() == j,
                decreases LIFE_N - j,
            {
                row.push(false);
                j = j + 1;
            }
            a.push(row);
            i = i + 1;
        }
        let mut k: usize = 0;
        while k < 6400
            invariant
                a@.len() == LIFE_N,
                forall|r: int| 0 <= r < LIFE_N ==> (#[trigger] a@[r])@.len() == LIFE_N,
            decreases 6400 - k,
        {
            let r = rand::random::<usize>() % a.len();
            let c = rand::random::<usize>() % a[r].len();
            let ghost prev = a@;
            let mut row = a.remove(r);
            row[c] = true;
            a.insert(r, row);
            proof {
                assert forall|i: int| 0 <= i < LIFE_N implies (#[trigger] a@[i])@.len()
                    == LIFE_N by {
                    if i < r {
                        assert(a@[i] == prev[i]);
                    } else if i > r {
                        assert(a@[i] == prev.remove(r as int)[i - 1]);
                        assert(prev.remove(r as int)[i - 1] == prev[i]);
                    }
                }
            }
            k = k + 1;
        }
        Life { a, generation: 0 }
    }

    /// The board's dimensions.
    pub fn size(&self) -> (r: (usize, usize))
        ensures
            r.0 == LIFE_N && r.1 == LIFE_N,
    {
        (LIFE_N, LIFE_N)
    }

    /// The board's side length.
    pub fn len(&self) -> (r: usize)
        ensures
            r == LIFE_N,
    {
        LIFE_N
    }

    /// Whether the cell at `(r, c)` is live.
    pub fn get(&self, r: usize, c: usize) -> (b: bool)
        requires
            self.wf(),
            r < LIFE_N,
            c < LIFE_N,
        ensures
            b == self.grid()[r as int][c as int],
    {
        proof {
            assert(self.grid()[r as int] == self.a@[r as int]@);
        }
        self.a[r][c]
    }

    /// Probes one neighbor candidate through the border rule.
    fn live_nb(&self, r: i64, c: i64) -> (b: bool)
        requires
            self.wf(),
        ensures
            b == live_at(self.grid(), LIFE_N as int, r as int, c as int),
    {
        if r > 0 && r < (LIFE_N as i64) && c > 0 && c < (LIFE_N as i64) {
            proof {
                assert(self.grid()[r as int] == self.a@[r as int]@);
            }
            self.a[r as usize][c as usize]
        } else {
            false
        }
    }

    /// Counts the live neighbors of `(r_start, c_start)`.
    pub fn neighbors(&self, r_start: usize, c_start: usize) -> (count: u8)
        requires
            self.wf(),
            r_start < LIFE_N,
            c_start < LIFE_N,
        ensures
            count as int == count8(self.grid(), LIFE_N as int, r_start as int, c_start as int),
            count <= 8,
    {
        let r = r_start as i64;
        let c = c_start as i64;
        let mut count: u8 = 0;
        if self.live_nb(r - 1, c - 1) {
            count = count + 1;
        }
        if self.live_nb(r - 1, c) {
            count = count + 1;
        }
        if self.live_nb(r - 1, c + 1) {
            count = count + 1;
        }
        if self.live_nb(r, c - 1) {
            count = count + 1;
        }
        if self.live_nb(r, c + 1) {
            count = count + 1;
        }
        if self.live_nb(r + 1, c - 1) {
            count = count + 1;
        }
        if self.live_nb(r + 1, c) {
            count = count + 1;
        }
        if self.live_nb(r + 1, c + 1) {
            count = count + 1;
        }
        count
    }

    /// Advances the whole board by one step of the life rule and counts the
    /// generation.
    pub fn update(&mut self)
        requires
            old(self).wf(),
            old(self).generation < u64::MAX,
        ensures
            final(self).wf(),
            final(self).grid() == life_step(old(self).grid(), LIFE_N as int),
            final(self).generation == old(self).generation + 1,
    {
        let ghost g0 = self.grid();
        let mut next: Vec<Vec<bool>> = Vec::new();
        let mut r: usize = 0;
        while r < LIFE_N
            invariant
                self.wf(),
                self.a@ == old(self).a@,
                self.generation == old(self).generation,
                g0 == self.grid(),
                r <= LIFE_N,
                next@.len() == r,
                forall|i: int|
                    0 <= i < r ==> (#[trigger] next@[i])@ == life_step(g0, LIFE_N as int)[i],
            decreases LIFE_N - r,
        {
            let mut row: Vec<bool> = Vec::new();
            let mut c: usize = 0;
            while c < LIFE_N
                invariant
                    self.wf(),
                    self.a@ == old(self).a@,
                    self.generation == old(self).generation,
                    g0 == self.grid(),
                    r < LIFE_N,
                    c <= LIFE_N,
                    row@.len() == c,
                    forall|j: int|
                        0 <= j < c ==> #[trigger] row@[j] == next_cell(g0, LIFE_N as int, r as int,
                            j),
                decreases LIFE_N - c,
            {
                let n = self.neighbors(r, c);
                proof {
                    assert(g0[r as int] == self.a@[r as int]@);
                }
                let alive = self.a[r][c];
                let cell = (alive && (n == 2 || n == 3)) || (!alive && n == 3);
                row.push(cell);
                c = c + 1;
            }
            proof {
                assert(row@ =~= life_step(g0, LIFE_N as int)[r as int]);
            }
            next.push(row);
            r = r + 1;
        }
        self.a = next;
        self.generation = self.generation + 1;
        proof {
            assert(self.grid() =~= life_step(g0, LIFE_N as int));
        }
    }
}

} // verus!
