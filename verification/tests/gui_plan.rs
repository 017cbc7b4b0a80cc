use crab_ray::game::{Board, BOARD_N};
use crab_ray::gui::{BoardRect, BoardRenderer, DrawRect};

fn board_with(live: &[(usize, usize)]) -> Board {
    let mut bytes = vec![b'.'; BOARD_N * BOARD_N];
    for &(r, c) in live {
        bytes[r * BOARD_N + c] = b'#';
    }
    Board::parse(&bytes)
}

#[test]
fn board_rect_ranges() {
    let rect = BoardRect::new(45, 40, 10, 20);
    assert_eq!(rect.r, 45);
    assert_eq!(rect.c, 40);
    assert_eq!(rect.rows, 10);
    assert_eq!(rect.cols, 20);
    assert_eq!(rect.row_range(), 45..55);
    assert_eq!(rect.col_range(), 40..60);
}

#[test]
fn draw_plan_full_board() {
    let board = board_with(&[(5, 7)]);
    let renderer = BoardRenderer::new(DrawRect { x: 0, y: 0, w: 199, h: 199 });
    let plan = renderer.draw(&board);
    // 99 vertical then 99 horizontal one-pixel grid lines.
    assert_eq!(plan.lines.len(), 198);
    assert_eq!(plan.lines[0], DrawRect { x: 1, y: 0, w: 1, h: 199 });
    assert_eq!(plan.lines[98], DrawRect { x: 197, y: 0, w: 1, h: 199 });
    assert_eq!(plan.lines[99], DrawRect { x: 0, y: 1, w: 199, h: 1 });
    assert_eq!(plan.lines[197], DrawRect { x: 0, y: 197, w: 199, h: 1 });
    // One cell rectangle, at twice the cell coordinate.
    assert_eq!(plan.cells.len(), 1);
    assert_eq!(plan.cells[0], DrawRect { x: 14, y: 10, w: 1, h: 1 });
}

#[test]
fn draw_plan_offset_window() {
    let board = board_with(&[(0, 0), (1, 2)]);
    let renderer = BoardRenderer::new(DrawRect { x: 30, y: 40, w: 199, h: 199 });
    let plan = renderer.draw(&board);
    assert_eq!(plan.lines[0], DrawRect { x: 31, y: 40, w: 1, h: 199 });
    assert_eq!(plan.cells.len(), 2);
    assert_eq!(plan.cells[0], DrawRect { x: 30, y: 40, w: 1, h: 1 });
    assert_eq!(plan.cells[1], DrawRect { x: 34, y: 42, w: 1, h: 1 });
}

#[test]
fn draw_plan_restricted_region() {
    let board = board_with(&[(45, 45), (46, 47), (0, 0), (99, 99)]);
    let renderer = BoardRenderer::new(DrawRect { x: 0, y: 0, w: 19, h: 19 })
        .with_board_rect(BoardRect::new(45, 45, 10, 10));
    let plan = renderer.draw(&board);
    assert_eq!(plan.lines.len(), 18);
    // Cells outside the region are not drawn.
    assert_eq!(plan.cells.len(), 2);
    assert_eq!(plan.cells[0], DrawRect { x: 0, y: 0, w: 1, h: 1 });
    assert_eq!(plan.cells[1], DrawRect { x: 4, y: 2, w: 1, h: 1 });
}
