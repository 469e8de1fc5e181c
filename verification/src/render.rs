//! What a presenter has to paint: one square per live cell, in row-major
//! order. Painting itself is left to the caller.

use crate::grid::Framebuffer;
use vstd::prelude::*;

verus! {

/// An axis-aligned rectangle in pixels.
#[derive(Clone, Copy, Debug, PartialEq, Eq)]
pub struct Rect {
    pub x: i32,
    pub y: i32,
    pub width: i32,
    pub height: i32,
}

/// The live cells of row `y` in columns below `n`, from left to right.
pub open spec fn row_cells(cells: Set<(int, int)>, y: int, n: nat) -> Seq<(int, int)>
    decreases n,
{
    if n == 0 {
        Seq::empty()
    } else if cells.contains((n - 1, y)) {
        row_cells(cells, y, (n - 1) as nat).push((n - 1, y))
    } else {
        row_cells(cells, y, (n - 1) as nat)
    }
}

/// The live cells of the rows below `m` of a grid `width` cells wide, row
/// after row from the top, each row from left to right.
pub open spec fn grid_cells(cells: Set<(int, int)>, width: nat, m: nat) -> Seq<(int, int)>
    decreases m,
{
    if m == 0 {
        Seq::empty()
    } else {
        grid_cells(cells, width, (m - 1) as nat) + row_cells(cells, m - 1, width)
    }
}

/// The square of side `scale` that stands for cell `(x, y)`.
pub open spec fn cell_rect(cell: (int, int), scale: int) -> Rect {
    Rect {
        x: (cell.0 * scale) as i32,
        y: (cell.1 * scale) as i32,
        width: scale as i32,
        height: scale as i32,
    }
}

/// Whether the corner of every cell's square can be written as an `i32`
/// when there are `n` cells along an axis.
pub open spec fn scale_fits(n: int, scale: int) -> bool {
    n <= 0 || i32::MIN <= (n - 1) * scale <= i32::MAX
}

/// The corner of a cell's square lies between the corner of the first
/// and that of the last cell along the axis.
proof fn lemma_corner_fits(n: int, scale: int, k: int)
    requires
        scale_fits(n, scale),
        0 <= k < n,
    ensures
        i32::MIN <= k * scale <= i32::MAX,
{
    let last = n - 1;
    assert(i32::MIN <= k * scale <= i32::MAX) by (nonlinear_arith)
        requires
            0 <= k <= last,
            i32::MIN <= last * scale <= i32::MAX,
            i32::MIN < 0 < i32::MAX,
    ;
}

/// The squares to paint for the current generation: one for each live
/// cell, with its corner at the cell's coordinates times `scale`.
pub fn draw_framebuffer(fb: &Framebuffer, scale: i32) -> (rects: Vec<Rect>)
    requires
        fb.wf(),
        scale_fits(fb.spec_width(), scale as int),
        scale_fits(fb.spec_height(), scale as int),
    ensures
        rects@ == grid_cells(fb@, fb.spec_width() as nat, fb.spec_height() as nat).map_values(
            |c: (int, int)| cell_rect(c, scale as int),
        ),
{
    proof {
        fb.lemma_dimensions_fit();
    }
    let ghost paint = |c: (int, int)| cell_rect(c, scale as int);
    let ghost w = fb.spec_width() as nat;
    let ghost h = fb.spec_height() as nat;
    let width: i32 = fb.width() as i32;
    let height: i32 = fb.height() as i32;
    let mut rects: Vec<Rect> = Vec::new();
    let mut y: i32 = 0;
    assert(rects@ =~= grid_cells(fb@, w, 0).map_values(paint));
    while y < height
        invariant
            fb.wf(),
            width == w,
            height == h,
            w == fb.spec_width(),
            h == fb.spec_height(),
            scale_fits(w as int, scale as int),
            scale_fits(h as int, scale as int),
            0 <= y <= height,
            paint == |c: (int, int)| cell_rect(c, scale as int),
            rects@ == grid_cells(fb@, w, y as nat).map_values(paint),
        decreases height - y,
    {
        let ghost above = grid_cells(fb@, w, y as nat);
        let mut x: i32 = 0;
        assert(rects@ =~= (above + row_cells(fb@, y as int, 0)).map_values(paint));
        while x < width
            invariant
                fb.wf(),
                width == w,
                height == h,
                w == fb.spec_width(),
                h == fb.spec_height(),
                scale_fits(w as int, scale as int),
                scale_fits(h as int, scale as int),
                0 <= y < height,
                0 <= x <= width,
                paint == |c: (int, int)| cell_rect(c, scale as int),
                above == grid_cells(fb@, w, y as nat),
                rects@ == (above + row_cells(fb@, y as int, x as nat)).map_values(paint),
            decreases width - x,
        {
            if fb.get(x, y) {
                proof {
                    lemma_corner_fits(w as int, scale as int, x as int);
                    lemma_corner_fits(h as int, scale as int, y as int);
                }
                let ghost before = rects@;
                rects.push(Rect { x: x * scale, y: y * scale, width: scale, height: scale });
                proof {
                    let so_far = above + row_cells(fb@, y as int, x as nat);
                    let cell = (x as int, y as int);
                    assert(above + row_cells(fb@, y as int, (x + 1) as nat) =~= so_far.push(cell));
                    assert(so_far.push(cell).map_values(paint) =~= so_far.map_values(paint).push(
                        paint(cell),
                    ));
                }
            }
            x += 1;
        }
        y += 1;
    }
    rects
}

} // verus!
