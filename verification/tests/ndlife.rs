use crab_ray::ndgame::Board;

#[test]
fn parse_adds_border_and_skips_junk() {
    let text = b"#.#\n.#.\n#.#\n";
    let board = Board::parse(text, 3, 3);
    assert_eq!(board.arr.rows, 5);
    assert_eq!(board.arr.cols, 5);
    for i in 0..5 {
        assert_eq!(board.arr.get(0, i), 0);
        assert_eq!(board.arr.get(4, i), 0);
        assert_eq!(board.arr.get(i, 0), 0);
        assert_eq!(board.arr.get(i, 4), 0);
    }
    assert_eq!(board.arr.get(1, 1), 1);
    assert_eq!(board.arr.get(1, 2), 0);
    assert_eq!(board.arr.get(1, 3), 1);
    assert_eq!(board.arr.get(2, 2), 1);
    assert_eq!(board.arr.get(3, 1), 1);
    assert_eq!(board.arr.get(3, 3), 1);
}

#[test]
fn iterate_blinker_oscillates() {
    let text = b".#.\n.#.\n.#.\n";
    let mut board = Board::parse(text, 3, 3);
    let mut scratch = Board::scratch(3, 3);

    board.iterate(&mut scratch);
    // The center cell saw its two vertical neighbors.
    assert_eq!(scratch.get(1, 1), 2);
    // The vertical blinker turned horizontal.
    assert_eq!(board.arr.get(2, 1), 1);
    assert_eq!(board.arr.get(2, 2), 1);
    assert_eq!(board.arr.get(2, 3), 1);
    assert_eq!(board.arr.get(1, 2), 0);
    assert_eq!(board.arr.get(3, 2), 0);

    board.iterate(&mut scratch);
    // And back to vertical.
    assert_eq!(board.arr.get(1, 2), 1);
    assert_eq!(board.arr.get(2, 2), 1);
    assert_eq!(board.arr.get(3, 2), 1);
    assert_eq!(board.arr.get(2, 1), 0);
    assert_eq!(board.arr.get(2, 3), 0);
}

#[test]
fn corners_light_up() {
    let mut board = Board::blank(6, 7);
    board.turn_on_corners();
    assert_eq!(board.arr.get(1, 1), 1);
    assert_eq!(board.arr.get(1, 5), 1);
    assert_eq!(board.arr.get(4, 1), 1);
    assert_eq!(board.arr.get(4, 5), 1);
    assert_eq!(board.arr.get(2, 2), 0);
    assert_eq!(board.arr.get(0, 0), 0);
}
