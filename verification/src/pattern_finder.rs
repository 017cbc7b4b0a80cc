//! Candidate 10 by 10 life patterns for the annealing search: random
//! generation, placement at the center of a full board, a one-cell
//! perturbation, and the exact cell counts behind the cost measure.

use vstd::prelude::*;
use crate::game::{grid_diff, lemma_grid_diff_bound, Board, BOARD_N};
use crate::life::life_step;
use crate::optimizer::Neighbor;

verus! {

/// The candidate pattern's side length.
pub const CANDIDATE_SIZE: usize = 10;

/// How many random cells a perturbation flips.
pub const NEIGHBOR_FLIPS: usize = 1;

/// The probability that a random pattern's cell starts live, as a fraction
/// of the 32-bit range: about three tenths.
pub const INIT_CELL_THRESHOLD: u32 = 1288490188;

/// A candidate pattern of cells.
#[derive(Clone)]
pub struct Pattern {
    pub grid: Vec<Vec<bool>>,
}

impl Pattern {
    /// The pattern's cells as a sequence of rows.
    pub open spec fn view_grid(self) -> Seq<Seq<bool>> {
        self.grid@.map(|i: int, row: Vec<bool>| row@)
    }

    /// The pattern is square at the candidate size.
    pub open spec fn wf(self) -> bool {
        self.grid@.len() == CANDIDATE_SIZE && (forall|r: int|
            0 <= r < CANDIDATE_SIZE ==> (#[trigger] self.grid@[r])@.len() == CANDIDATE_SIZE)
    }

    /// A random pattern: each cell is drawn live with probability about
    /// three tenths.
    pub fn random() -> (p: Pattern)
        ensures
            p.wf(),
    {
        let mut grid: Vec<Vec<bool>> = Vec::new();
        let mut r: usize = 0;
        while r < CANDIDATE_SIZE
            invariant
                r <= CANDIDATE_SIZE,
                grid@.len() == r,
                forall|i: int| 0 <= i < r ==> (#[trigger] grid@[i])@.len() == CANDIDATE_SIZE,
            decreases CANDIDATE_SIZE - r,
        {
            let mut row: Vec<bool> = Vec::new();
            let mut c: usize = 0;
            while c < CANDIDATE_SIZE
                invariant
                    c <= CANDIDATE_SIZE,
                    row@.len() == c,
                decreases CANDIDATE_SIZE - c,
            {
                row.push(rand::random::<u32>() < INIT_CELL_THRESHOLD);
                c = c + 1;
            }
            grid.push(row);
            r = r + 1;
        }
        Pattern { grid }
    }

    /// The cell at `(r, c)`, with dead cells past any malformed edge.
    fn cell_or_dead(&self, r: usize, c: usize) -> (b: bool)
        ensures
            self.wf() && r < CANDIDATE_SIZE && c < CANDIDATE_SIZE ==> b == self.view_grid()[
                r as int][c as int],
    {
        if r < self.grid.len() {
            let row = &self.grid[r];
            if c < row.len() {
                proof {
                    assert(self.view_grid()[r as int] == self.grid@[r as int]@);
                }
                return row[c];
            }
        }
        false
    }

    /// A full board that holds this candidate at its center and is dead
    /// everywhere else, at generation zero.
    pub fn starting_board(&self) -> (b: Board)
        requires
            self.wf(),
        ensures
            b.wf(),
            b.generation == 0,
            b.grid() == starting_grid(*self),
    {
        let r_start: usize = BOARD_N / 2 - CANDIDATE_SIZE / 2;
        let c_start: usize = BOARD_N / 2 - CANDIDATE_SIZE / 2;
        let mut board = Board::empty();
        let mut r: usize = 0;
        while r < CANDIDATE_SIZE
            invariant
                self.wf(),
                r_start == 45,
                c_start == 45,
                r <= CANDIDATE_SIZE,
                board.wf(),
                board.generation == 0,
                forall|i: int, j: int|
                    0 <= i < BOARD_N && 0 <= j < BOARD_N ==> #[trigger] board.grid()[i][j] == (45
                        <= i < 45 + r && 45 <= j < 55 && self.view_grid()[i - 45][j - 45]),
            decreases CANDIDATE_SIZE - r,
        {
            let mut c: usize = 0;
            while c < CANDIDATE_SIZE
                invariant
                    self.wf(),
                    r_start == 45,
                    c_start == 45,
                    r < CANDIDATE_SIZE,
                    c <= CANDIDATE_SIZE,
                    board.wf(),
                    board.generation == 0,
                    forall|i: int, j: int|
                        0 <= i < BOARD_N && 0 <= j < BOARD_N ==> #[trigger] board.grid()[i][j] == (
                        (45 <= i < 45 + r && 45 <= j < 55 && self.view_grid()[i - 45][j - 45]) || (
                        i == 45 + r && 45 <= j < 45 + c && self.view_grid()[i - 45][j - 45])),
                decreases CANDIDATE_SIZE - c,
            {
                let ghost before = board.grid();
                board.set(r_start + r, c_start + c, self.cell_or_dead(r, c));
                proof {
                    assert forall|i: int, j: int|
                        0 <= i < BOARD_N && 0 <= j < BOARD_N implies #[trigger] board.grid()[i][j]
                        == ((45 <= i < 45 + r && 45 <= j < 55 && self.view_grid()[i - 45][j - 45])
                        || (i == 45 + r && 45 <= j < 45 + c + 1 && self.view_grid()[i - 45][j
                        - 45])) by {
                        if i == 45 + r {
                            if j == 45 + c {
                            } else {
                                assert(board.grid()[i][j] == before[i][j]);
                            }
                        } else {
                            assert(board.grid()[i] == before[i]);
                        }
                    }
                }
                c = c + 1;
            }
            r = r + 1;
        }
        proof {
            assert forall|i: int|
                0 <= i < BOARD_N implies #[trigger] board.grid()[i] =~= starting_grid(*self)[i] by {
            }
            assert(board.grid() =~= starting_grid(*self));
        }
        board
    }

    /// The exact counts behind the cost measure: among the board's cells,
    /// how many are unchanged between the sixteenth and the twentieth
    /// iteration of the candidate's starting board, and the total cell
    /// count. The cost itself is the ratio of the two.
    pub fn cost_counts(&self) -> (r: (usize, usize))
        requires
            self.wf(),
        ensures
            r.1 == BOARD_N * BOARD_N,
            r.0 == BOARD_N * BOARD_N - grid_diff(
                iterate_n(starting_grid(*self), 20),
                iterate_n(starting_grid(*self), 16),
                BOARD_N as int,
            ),
    {
        let mut board = self.starting_board();
        let mut k: usize = 0;
        while k < 16
            invariant
                board.wf(),
                k <= 16,
                board.generation == k,
                board.grid() == iterate_n(starting_grid(*self), k as nat),
            decreases 16 - k,
        {
            board = board.next();
            k = k + 1;
        }
        let cost_start = board;
        let mut board = cost_start.next();
        let mut k: usize = 17;
        while k < 20
            invariant
                board.wf(),
                17 <= k <= 20,
                board.generation == k,
                board.grid() == iterate_n(starting_grid(*self), k as nat),
            decreases 20 - k,
        {
            board = board.next();
            k = k + 1;
        }
        let cost_end = board;
        let total_cells = cost_start.len() * cost_start.len();
        let diff = cost_end.difference(&cost_start);
        (total_cells - diff, total_cells)
    }
}

/// The grid of a candidate's starting board: the candidate at the center of
/// an otherwise dead board.
pub open spec fn starting_grid(p: Pattern) -> Seq<Seq<bool>> {
    Seq::new(
        BOARD_N as nat,
        |i: int|
            Seq::new(
                BOARD_N as nat,
                |j: int| 45 <= i < 55 && 45 <= j < 55 && p.view_grid()[i - 45][j - 45],
            ),
    )
}

/// The grid after `n` steps of the life rule.
pub open spec fn iterate_n(g: Seq<Seq<bool>>, n: nat) -> Seq<Seq<bool>>
    decreases n,
{
    if n == 0 {
        g
    } else {
        life_step(iterate_n(g, (n - 1) as nat), BOARD_N as int)
    }
}

impl Neighbor for Pattern {
    /// The candidate with one randomly chosen cell inverted.
    fn neighbor(&self) -> Self {
        let mut grid: Vec<Vec<bool>> = Vec::new();
        let fr = rand::random::<usize>() % CANDIDATE_SIZE;
        let fc = rand::random::<usize>() % CANDIDATE_SIZE;
        let mut r: usize = 0;
        while r < CANDIDATE_SIZE
            invariant
                r <= CANDIDATE_SIZE,
                grid@.len() == r,
                forall|i: int| 0 <= i < r ==> (#[trigger] grid@[i])@.len() == CANDIDATE_SIZE,
            decreases CANDIDATE_SIZE - r,
        {
            let mut row: Vec<bool> = Vec::new();
            let mut c: usize = 0;
            while c < CANDIDATE_SIZE
                invariant
                    c <= CANDIDATE_SIZE,
                    row@.len() == c,
                decreases CANDIDATE_SIZE - c,
            {
                let cell = self.cell_or_dead(r, c);
                if r == fr && c == fc {
                    row.push(!cell);
                } else {
                    row.push(cell);
                }
                c = c + 1;
            }
            grid.push(row);
            r = r + 1;
        }
        Pattern { grid }
    }
}

} // verus!
