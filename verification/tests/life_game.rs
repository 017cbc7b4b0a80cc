use crab_ray::game::{Board, BOARD_N};
use crab_ray::life::{Life, LIFE_N};
use crab_ray::optimizer::{default_cb, Neighbor};
use crab_ray::pattern_finder::{Pattern, CANDIDATE_SIZE};

/// Builds the parse input for a board with the given live cells.
fn board_bytes(live: &[(usize, usize)]) -> Vec<u8> {
    let mut bytes = vec![b'.'; BOARD_N * BOARD_N];
    for &(r, c) in live {
        bytes[r * BOARD_N + c] = b'#';
    }
    bytes
}

#[test]
fn board_parse_reads_cells() {
    let bytes = board_bytes(&[(0, 0), (10, 20), (99, 99)]);
    let board = Board::parse(&bytes);
    assert_eq!(board.generation, 0);
    assert_eq!(board.size(), (BOARD_N, BOARD_N));
    assert_eq!(board.len(), BOARD_N);
    assert!(board.get(0, 0));
    assert!(board.get(10, 20));
    assert!(board.get(99, 99));
    assert!(!board.get(50, 50));
}

#[test]
fn board_empty_is_dead() {
    let board = Board::empty();
    for r in 0..BOARD_N {
        for c in 0..BOARD_N {
            assert!(!board.get(r, c));
        }
    }
    assert_eq!(board.generation, 0);
}

#[test]
fn board_neighbors_counts() {
    // A block with corner at (10, 10).
    let board = Board::parse(&board_bytes(&[(10, 10), (10, 11), (11, 10), (11, 11)]));
    assert_eq!(board.neighbors(10, 10), 3);
    assert_eq!(board.neighbors(10, 11), 3);
    assert_eq!(board.neighbors(9, 9), 1);
    assert_eq!(board.neighbors(12, 12), 1);
    assert_eq!(board.neighbors(50, 50), 0);
    // Cells on the top row and leftmost column never count as neighbors.
    let edge = Board::parse(&board_bytes(&[(0, 5), (5, 0)]));
    assert_eq!(edge.neighbors(1, 5), 0);
    assert_eq!(edge.neighbors(5, 1), 0);
}

#[test]
fn board_block_is_still_life() {
    let board = Board::parse(&board_bytes(&[(10, 10), (10, 11), (11, 10), (11, 11)]));
    let next = board.next();
    assert_eq!(next.generation, 1);
    assert_eq!(board.difference(&next), 0);
}

#[test]
fn board_blinker_oscillates() {
    let horizontal = Board::parse(&board_bytes(&[(20, 19), (20, 20), (20, 21)]));
    let vertical = Board::parse(&board_bytes(&[(19, 20), (20, 20), (21, 20)]));
    let next = horizontal.next();
    assert_eq!(next.difference(&vertical), 0);
    let back = next.next();
    assert_eq!(back.difference(&horizontal), 0);
    // The two phases differ in exactly four cells.
    assert_eq!(horizontal.difference(&vertical), 4);
}

#[test]
fn board_lonely_cell_dies() {
    let board = Board::parse(&board_bytes(&[(30, 30)]));
    let next = board.next();
    assert!(!next.get(30, 30));
    assert_eq!(next.difference(&Board::empty()), 0);
}

#[test]
fn board_set_and_random() {
    let mut board = Board::empty();
    board.set(3, 4, true);
    assert!(board.get(3, 4));
    board.set(3, 4, false);
    assert!(!board.get(3, 4));
    let random = Board::random();
    assert_eq!(random.generation, 0);
    let live = (0..BOARD_N)
        .flat_map(|r| (0..BOARD_N).map(move |c| (r, c)))
        .filter(|&(r, c)| random.get(r, c))
        .count();
    assert!(live > 0 && live <= 6400);
}

#[test]
fn life_update_follows_rule() {
    let mut life = Life::new();
    assert_eq!(life.size(), (LIFE_N, LIFE_N));
    assert_eq!(life.len(), LIFE_N);
    assert_eq!(life.generation, 0);
    // Snapshot, step, and check the rule on a sample of cells.
    let mut before = Vec::new();
    for r in 0..LIFE_N {
        let mut row = Vec::new();
        for c in 0..LIFE_N {
            row.push(life.get(r, c));
        }
        before.push(row);
    }
    let mut counts = Vec::new();
    for r in 0..LIFE_N {
        let mut row = Vec::new();
        for c in 0..LIFE_N {
            row.push(life.neighbors(r, c));
        }
        counts.push(row);
    }
    life.update();
    assert_eq!(life.generation, 1);
    for r in 0..LIFE_N {
        for c in 0..LIFE_N {
            let n = counts[r][c];
            let expected = (before[r][c] && (n == 2 || n == 3)) || (!before[r][c] && n == 3);
            assert_eq!(life.get(r, c), expected, "cell ({r}, {c})");
        }
    }
}

#[test]
fn pattern_starting_board_is_centered() {
    let mut grid = Vec::new();
    for r in 0..CANDIDATE_SIZE {
        let mut row = Vec::new();
        for c in 0..CANDIDATE_SIZE {
            row.push((r + c) % 3 == 0);
        }
        grid.push(row);
    }
    let pattern = Pattern { grid: grid.clone() };
    let board = pattern.starting_board();
    assert_eq!(board.generation, 0);
    for r in 0..BOARD_N {
        for c in 0..BOARD_N {
            let inside = (45..55).contains(&r) && (45..55).contains(&c);
            let expected = inside && grid[r - 45][c - 45];
            assert_eq!(board.get(r, c), expected, "cell ({r}, {c})");
        }
    }
}

#[test]
fn pattern_cost_counts_of_still_life() {
    // A block is a still life: nothing changes between iterations sixteen
    // and twenty, so every cell counts as unchanged.
    let mut grid = vec![vec![false; CANDIDATE_SIZE]; CANDIDATE_SIZE];
    grid[4][4] = true;
    grid[4][5] = true;
    grid[5][4] = true;
    grid[5][5] = true;
    let pattern = Pattern { grid };
    let (unchanged, total) = pattern.cost_counts();
    assert_eq!(total, BOARD_N * BOARD_N);
    assert_eq!(unchanged, BOARD_N * BOARD_N);
}

#[test]
fn pattern_neighbor_flips_one_cell() {
    let pattern = Pattern::random();
    let nearby = pattern.neighbor();
    let mut diff = 0;
    for r in 0..CANDIDATE_SIZE {
        for c in 0..CANDIDATE_SIZE {
            if pattern.grid[r][c] != nearby.grid[r][c] {
                diff += 1;
            }
        }
    }
    assert_eq!(diff, 1);
    default_cb(&pattern);
}
