//! Board drawing geometry: which rectangles a display should fill to show a
//! board, grid lines and live cells, inside a given window region.
//!
//! The windowing library that fills the rectangles stays outside this crate;
//! `draw` computes the complete plan, every rectangle stated exactly.

use vstd::prelude::*;
use crate::game::{Board, BOARD_N};

verus! {

/// A rectangular region of the board: upper-left cell and extent.
#[derive(Clone, Copy, PartialEq, Eq, Structural, Debug)]
pub struct BoardRect {
    pub r: usize,
    pub c: usize,
    pub rows: usize,
    pub cols: usize,
}

impl BoardRect {
    /// Packs a board region from its upper-left cell and extent.
    pub fn new(r: usize, c: usize, rows: usize, cols: usize) -> (b: BoardRect)
        ensures
            b == (BoardRect { r, c, rows, cols }),
    {
        BoardRect { r, c, rows, cols }
    }

    /// The rows the region covers.
    pub fn row_range(&self) -> (out: core::ops::Range<usize>)
        requires
            self.r + self.rows <= usize::MAX,
        ensures
            out.start == self.r,
            out.end == self.r + self.rows,
    {
        self.r..(self.r + self.rows)
    }

    /// The columns the region covers.
    pub fn col_range(&self) -> (out: core::ops::Range<usize>)
        requires
            self.c + self.cols <= usize::MAX,
        ensures
            out.start == self.c,
            out.end == self.c + self.cols,
    {
        self.c..(self.c + self.cols)
    }
}

/// A pixel-space rectangle to fill: position and size.
#[derive(Clone, Copy, PartialEq, Eq, Structural, Debug)]
pub struct DrawRect {
    pub x: i32,
    pub y: i32,
    pub w: u32,
    pub h: u32,
}

/// The complete drawing plan for one board: the grid lines (vertical first,
/// then horizontal, each one pixel wide) and one rectangle per live cell.
pub struct DrawPlan {
    pub lines: Vec<DrawRect>,
    pub cells: Vec<DrawRect>,
}

/// Draws a board region into a fixed window rectangle.
pub struct BoardRenderer {
    pub draw_rect: DrawRect,
    pub board_rect: Option<BoardRect>,
}

impl BoardRenderer {
    /// A renderer that shows the whole board in the given window rectangle.
    pub fn new(draw_rect: DrawRect) -> (b: BoardRenderer)
        ensures
            b.draw_rect == draw_rect,
            b.board_rect is None,
    {
        BoardRenderer { draw_rect, board_rect: None }
    }

    /// The same renderer restricted to one region of the board.
    pub fn with_board_rect(self, board_rect: BoardRect) -> (b: BoardRenderer)
        ensures
            b.draw_rect == self.draw_rect,
            b.board_rect == Some(board_rect),
    {
        BoardRenderer { draw_rect: self.draw_rect, board_rect: Some(board_rect) }
    }

    /// The region actually drawn: the configured one, or the whole board.
    pub open spec fn region(self) -> BoardRect {
        match self.board_rect {
            Some(b) => b,
            None => BoardRect { r: 0, c: 0, rows: BOARD_N, cols: BOARD_N },
        }
    }

    /// The drawing geometry is usable: a nonempty region inside the board,
    /// a window wide enough for the one-pixel grid lines, and coordinates
    /// small enough that every pixel position fits its machine integer.
    pub open spec fn draw_wf(self) -> bool {
        let br = self.region();
        &&& 1 <= br.rows && 1 <= br.cols
        &&& br.r + br.rows <= BOARD_N && br.c + br.cols <= BOARD_N
        &&& br.cols - 1 <= self.draw_rect.w && br.rows - 1 <= self.draw_rect.h
        &&& self.draw_rect.w <= 0x10_0000 && self.draw_rect.h <= 0x10_0000
        &&& -0x10_0000 <= self.draw_rect.x <= 0x10_0000
        &&& -0x10_0000 <= self.draw_rect.y <= 0x10_0000
    }
}

/// Width of one cell: the window width minus the grid lines, split evenly.
pub open spec fn cell_w(dr: DrawRect, br: BoardRect) -> int {
    (dr.w - (br.cols - 1)) / (br.cols as int)
}

/// Height of one cell.
pub open spec fn cell_h(dr: DrawRect, br: BoardRect) -> int {
    (dr.h - (br.rows - 1)) / (br.rows as int)
}

/// The rectangle of the `i`-th vertical grid line.
pub open spec fn vline_rect(dr: DrawRect, br: BoardRect, i: int) -> DrawRect {
    DrawRect {
        x: (dr.x + (i * (cell_w(dr, br) + 1) - 1)) as i32,
        y: dr.y,
        w: 1,
        h: dr.h,
    }
}

/// The rectangle of the `i`-th horizontal grid line.
pub open spec fn hline_rect(dr: DrawRect, br: BoardRect, i: int) -> DrawRect {
    DrawRect {
        x: dr.x,
        y: (dr.y + (i * (cell_h(dr, br) + 1) - 1)) as i32,
        w: dr.w,
        h: 1,
    }
}

/// The rectangle of the cell `(r, c)` of the board, placed relative to the
/// drawn region's corner.
pub open spec fn cell_rect(dr: DrawRect, br: BoardRect, r: int, c: int) -> DrawRect {
    DrawRect {
        x: (dr.x + (cell_w(dr, br) + 1) * (c - br.c)) as i32,
        y: (dr.y + (cell_h(dr, br) + 1) * (r - br.r)) as i32,
        w: cell_w(dr, br) as u32,
        h: cell_h(dr, br) as u32,
    }
}

/// The rectangles of the live cells of row `r`, among the region's first
/// `k` columns, in column order.
pub open spec fn cells_in_row(
    g: Seq<Seq<bool>>,
    dr: DrawRect,
    br: BoardRect,
    r: int,
    k: int,
) -> Seq<DrawRect>
    decreases k,
{
    if k <= 0 {
        Seq::empty()
    } else {
        let prev = cells_in_row(g, dr, br, r, k - 1);
        let c = br.c + k - 1;
        if g[r][c] {
            prev.push(cell_rect(dr, br, r, c))
        } else {
            prev
        }
    }
}

/// The rectangles of the live cells of the region's first `k` rows, in
/// row-major order.
pub open spec fn cells_plan(g: Seq<Seq<bool>>, dr: DrawRect, br: BoardRect, k: int) -> Seq<
    DrawRect,
>
    decreases k,
{
    if k <= 0 {
        Seq::empty()
    } else {
        cells_plan(g, dr, br, k - 1) + cells_in_row(g, dr, br, br.r + k - 1, br.cols as int)
    }
}

impl BoardRenderer {
    /// Computes the complete plan for drawing the board: the one-pixel grid
    /// lines between the cells (vertical lines first), then one rectangle
    /// for each live cell of the drawn region, in row-major order.
    pub fn draw(&self, board: &Board) -> (plan: DrawPlan)
        requires
            board.wf(),
            self.draw_wf(),
        ensures
            ({
                let dr = self.draw_rect;
                let br = self.region();
                &&& plan.lines@.len() == (br.cols - 1) + (br.rows - 1)
                &&& forall|i: int|
                    1 <= i < br.cols ==> #[trigger] plan.lines@[i - 1] == vline_rect(dr, br, i)
                &&& forall|i: int|
                    1 <= i < br.rows ==> #[trigger] plan.lines@[br.cols - 1 + i - 1] == hline_rect(
                        dr,
                        br,
                        i,
                    )
                &&& plan.cells@ == cells_plan(board.grid(), dr, br, br.rows as int)
            }),
    {
        let dr = self.draw_rect;
        let br = match &self.board_rect {
            Some(b) => *b,
            None => BoardRect { r: 0, c: 0, rows: BOARD_N, cols: BOARD_N },
        };
        let line_width: u32 = 1;
        let cw = (dr.w - (br.cols as u32 - 1)) / (br.cols as u32);
        let ch = (dr.h - (br.rows as u32 - 1)) / (br.rows as u32);
        proof {
            vstd::arithmetic::div_mod::lemma_div_nonincreasing((dr.w - (br.cols - 1)) as int,
                br.cols as int);
            vstd::arithmetic::div_mod::lemma_div_nonincreasing((dr.h - (br.rows - 1)) as int,
                br.rows as int);
        }
        let tcw = cw + line_width;
        let tch = ch + line_width;

        let mut lines: Vec<DrawRect> = Vec::new();
        let mut i: usize = 1;
        while i < br.cols
            invariant
                self.draw_wf(),
                br == self.region(),
                dr == self.draw_rect,
                cw == cell_w(dr, br),
                ch == cell_h(dr, br),
                line_width == 1,
                tcw == cw + 1,
                tch == ch + 1,
                cw <= 0x10_0000,
                ch <= 0x10_0000,
                1 <= i <= br.cols,
                lines@.len() == i - 1,
                forall|k: int| 1 <= k < i ==> #[trigger] lines@[k - 1] == vline_rect(dr, br, k),
            decreases br.cols - i,
        {
            proof {
                assert(1 <= (i as u32) * tcw <= 104857700u32) by (nonlinear_arith)
                    requires
                        1 <= (i as u32) <= 100 && 1 <= tcw <= 0x10_0001u32,
                ;
                assert((i as u32) * tcw == (i as int) * (cw + 1)) by (nonlinear_arith)
                    requires
                        (i as u32) == i && tcw == cw + 1,
                ;
            }
            let offset = (i as u32) * tcw - line_width;
            lines.push(DrawRect { x: dr.x + (offset as i32), y: dr.y, w: line_width, h: dr.h });
            i = i + 1;
        }
        let mut i: usize = 1;
        while i < br.rows
            invariant
                self.draw_wf(),
                br == self.region(),
                dr == self.draw_rect,
                cw == cell_w(dr, br),
                ch == cell_h(dr, br),
                line_width == 1,
                tcw == cw + 1,
                tch == ch + 1,
                cw <= 0x10_0000,
                ch <= 0x10_0000,
                1 <= i <= br.rows,
                lines@.len() == (br.cols - 1) + (i - 1),
                forall|k: int| 1 <= k < br.cols ==> #[trigger] lines@[k - 1] == vline_rect(dr, br,
                    k),
                forall|k: int|
                    1 <= k < i ==> #[trigger] lines@[br.cols - 1 + k - 1] == hline_rect(dr, br, k),
            decreases br.rows - i,
        {
            proof {
                assert(1 <= (i as u32) * tch <= 104857700u32) by (nonlinear_arith)
                    requires
                        1 <= (i as u32) <= 100 && 1 <= tch <= 0x10_0001u32,
                ;
                assert((i as u32) * tch == (i as int) * (ch + 1)) by (nonlinear_arith)
                    requires
                        (i as u32) == i && tch == ch + 1,
                ;
            }
            let offset = (i as u32) * tch - line_width;
            lines.push(DrawRect { x: dr.x, y: dr.y + (offset as i32), w: dr.w, h: line_width });
            i = i + 1;
        }

        let mut cells: Vec<DrawRect> = Vec::new();
        let mut rr: usize = 0;
        proof {
            assert(cells@ =~= cells_plan(board.grid(), dr, br, 0));
        }
        while rr < br.rows
            invariant
                board.wf(),
                self.draw_wf(),
                br == self.region(),
                dr == self.draw_rect,
                cw == cell_w(dr, br),
                ch == cell_h(dr, br),
                line_width == 1,
                tcw == cw + 1,
                tch == ch + 1,
                cw <= 0x10_0000,
                ch <= 0x10_0000,
                rr <= br.rows,
                cells@ == cells_plan(board.grid(), dr, br, rr as int),
            decreases br.rows - rr,
        {
            let mut cc: usize = 0;
            proof {
                assert(cells@ =~= cells_plan(board.grid(), dr, br, rr as int) + cells_in_row(
                    board.grid(), dr, br, br.r + rr, 0));
            }
            while cc < br.cols
                invariant
                    board.wf(),
                    self.draw_wf(),
                    br == self.region(),
                    dr == self.draw_rect,
                    cw == cell_w(dr, br),
                    ch == cell_h(dr, br),
                    line_width == 1,
                    tcw == cw + 1,
                    tch == ch + 1,
                    cw <= 0x10_0000,
                    ch <= 0x10_0000,
                    rr < br.rows,
                    cc <= br.cols,
                    cells@ == cells_plan(board.grid(), dr, br, rr as int) + cells_in_row(
                        board.grid(),
                        dr,
                        br,
                        br.r + rr,
                        cc as int,
                    ),
                decreases br.cols - cc,
            {
                if board.get(br.r + rr, br.c + cc) {
                    proof {
                        assert(0 <= (tcw as i32) * (cc as i32) <= 104857700i32) by (nonlinear_arith)
                            requires
                                0 <= (cc as i32) <= 100 && 1 <= (tcw as i32) <= 0x10_0001i32,
                        ;
                        assert(0 <= (tch as i32) * (rr as i32) <= 104857700i32) by (nonlinear_arith)
                            requires
                                0 <= (rr as i32) <= 100 && 1 <= (tch as i32) <= 0x10_0001i32,
                        ;
                        assert((tcw as i32) * (cc as i32) == (cw + 1) * (cc as int))
                            by (nonlinear_arith)
                            requires
                                (tcw as i32) == cw + 1 && (cc as i32) == cc,
                        ;
                        assert((tch as i32) * (rr as i32) == (ch + 1) * (rr as int))
                            by (nonlinear_arith)
                            requires
                                (tch as i32) == ch + 1 && (rr as i32) == rr,
                        ;
                    }
                    let x = (tcw as i32) * (cc as i32);
                    let y = (tch as i32) * (rr as i32);
                    cells.push(DrawRect { x: dr.x + x, y: dr.y + y, w: cw, h: ch });
                }
                proof {
                    assert(cells@ =~= cells_plan(board.grid(), dr, br, rr as int) + cells_in_row(
                        board.grid(), dr, br, br.r + rr, cc as int + 1));
                }
                cc = cc + 1;
            }
            rr = rr + 1;
        }
        DrawPlan { lines, cells }
    }
}

} // verus!
