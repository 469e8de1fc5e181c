//! The grid engine: cell storage, bounds-checked access and the
//! generation step.
//!
//! A grid is modelled as the set of coordinates of its live cells. The
//! transition rule is stated over that set alone, so that the contract of
//! [`Framebuffer::step`] does not depend on how the cells are stored.

use vstd::prelude::*;

verus! {

/// Whether `(x, y)` lies inside a grid of the given dimensions.
pub open spec fn in_bounds(width: int, height: int, x: int, y: int) -> bool {
    0 <= x < width && 0 <= y < height
}

/// One if `(x, y)` is a live cell, zero otherwise.
pub open spec fn live(cells: Set<(int, int)>, x: int, y: int) -> int {
    if cells.contains((x, y)) {
        1
    } else {
        0
    }
}

/// The number of live cells among the eight cells that surround `(x, y)`.
pub open spec fn neighbor_count(cells: Set<(int, int)>, x: int, y: int) -> int {
    live(cells, x - 1, y - 1) + live(cells, x, y - 1) + live(cells, x + 1, y - 1)
        + live(cells, x - 1, y) + live(cells, x + 1, y)
        + live(cells, x - 1, y + 1) + live(cells, x, y + 1) + live(cells, x + 1, y + 1)
}

/// The transition rule: a live cell survives with two or three live
/// neighbors, a dead cell comes alive with exactly three.
pub open spec fn next_state(alive: bool, neighbors: int) -> bool {
    (alive && (neighbors == 2 || neighbors == 3)) || (!alive && neighbors == 3)
}

/// The live cells of the generation that follows `cells` on a grid of the
/// given dimensions. Cells outside the grid stay dead.
pub open spec fn next_generation(cells: Set<(int, int)>, width: int, height: int) -> Set<
    (int, int),
> {
    Set::new(
        |p: (int, int)|
            in_bounds(width, height, p.0, p.1) && next_state(
                cells.contains(p),
                neighbor_count(cells, p.0, p.1),
            ),
    )
}

/// The live cells after `n` generations.
pub open spec fn generations(cells: Set<(int, int)>, width: int, height: int, n: nat) -> Set<
    (int, int),
>
    decreases n,
{
    if n == 0 {
        cells
    } else {
        next_generation(generations(cells, width, height, (n - 1) as nat), width, height)
    }
}

/// Position of cell `(x, y)` in a row-major buffer of the given width.
pub open spec fn cell_index(width: int, x: int, y: int) -> int {
    y * width + x
}

/// The live cells that a row-major buffer holds.
pub open spec fn cells_of(width: int, height: int, buffer: Seq<bool>) -> Set<(int, int)> {
    Set::new(
        |p: (int, int)|
            in_bounds(width, height, p.0, p.1) && buffer[cell_index(width, p.0, p.1)],
    )
}

/// A cell inside the grid has a position inside the buffer.
pub proof fn lemma_cell_index_bounds(width: int, height: int, x: int, y: int)
    requires
        in_bounds(width, height, x, y),
    ensures
        0 <= cell_index(width, x, y) < width * height,
{
    assert(y * width + x < width * height) by (nonlinear_arith)
        requires
            0 <= x < width,
            0 <= y < height,
    ;
    assert(0 <= y * width + x) by (nonlinear_arith)
        requires
            0 <= x < width,
            0 <= y < height,
    ;
}

/// Two different cells of one grid have different positions in the buffer.
pub proof fn lemma_cell_index_distinct(width: int, x1: int, y1: int, x2: int, y2: int)
    requires
        0 <= x1 < width,
        0 <= x2 < width,
        x1 != x2 || y1 != y2,
    ensures
        cell_index(width, x1, y1) != cell_index(width, x2, y2),
{
    if y1 < y2 {
        assert(y1 * width + x1 < y2 * width + x2) by (nonlinear_arith)
            requires
                0 <= x1 < width,
                0 <= x2 < width,
                y1 < y2,
        ;
    } else if y2 < y1 {
        assert(y2 * width + x2 < y1 * width + x1) by (nonlinear_arith)
            requires
                0 <= x1 < width,
                0 <= x2 < width,
                y2 < y1,
        ;
    }
}

/// A bounded Game of Life grid with two buffers: the current generation
/// and scratch space for the next one.
pub struct Framebuffer {
    width: usize,
    height: usize,
    buffer: Vec<bool>,
    buffer_next: Vec<bool>,
}

impl View for Framebuffer {
    type V = Set<(int, int)>;

    /// The coordinates of the live cells of the current generation.
    closed spec fn view(&self) -> Set<(int, int)> {
        cells_of(self.width as int, self.height as int, self.buffer@)
    }
}

impl Framebuffer {
    /// The number of columns.
    pub closed spec fn spec_width(&self) -> int {
        self.width as int
    }

    /// The number of rows.
    pub closed spec fn spec_height(&self) -> int {
        self.height as int
    }

    /// Both buffers hold one cell per coordinate, and every coordinate
    /// fits in an `i32`.
    pub closed spec fn wf(&self) -> bool {
        &&& self.width <= i32::MAX
        &&& self.height <= i32::MAX
        &&& self.width * self.height <= usize::MAX
        &&& self.buffer@.len() == self.width * self.height
        &&& self.buffer_next@.len() == self.width * self.height
    }

    /// Every live cell lies inside the grid.
    pub proof fn lemma_live_cells_in_bounds(&self)
        ensures
            forall|x: int, y: int|
                self@.contains((x, y)) ==> in_bounds(self.spec_width(), self.spec_height(), x, y),
            0 <= self.spec_width(),
            0 <= self.spec_height(),
    {
    }

    /// In a well-formed grid every coordinate fits in an `i32`.
    pub proof fn lemma_dimensions_fit(&self)
        requires
            self.wf(),
        ensures
            0 <= self.spec_width() <= i32::MAX,
            0 <= self.spec_height() <= i32::MAX,
    {
    }

    /// A grid of the given dimensions with every cell dead. A dimension of
    /// zero gives a grid without cells.
    pub fn new(width: usize, height: usize) -> (fb: Self)
        requires
            width <= i32::MAX,
            height <= i32::MAX,
            width * height <= usize::MAX,
        ensures
            fb.wf(),
            fb.spec_width() == width,
            fb.spec_height() == height,
            fb@ == Set::<(int, int)>::empty(),
    {
        let fb = Self {
            width,
            height,
            buffer: vec![false; width * height],
            buffer_next: vec![false; width * height],
        };
        proof {
            assert forall|p: (int, int)| !fb@.contains(p) by {
                if in_bounds(width as int, height as int, p.0, p.1) {
                    lemma_cell_index_bounds(width as int, height as int, p.0, p.1);
                }
            }
            assert(fb@ =~= Set::<(int, int)>::empty());
        }
        fb
    }

    /// The number of columns.
    pub fn width(&self) -> (w: usize)
        ensures
            w == self.spec_width(),
    {
        self.width
    }

    /// The number of rows.
    pub fn height(&self) -> (h: usize)
        ensures
            h == self.spec_height(),
    {
        self.height
    }

    /// The position of cell `(x, y)` in the row-major buffers, or `None`
    /// when the cell lies outside the grid.
    pub fn index(&self, x: i32, y: i32) -> (i: Option<usize>)
        requires
            self.wf(),
        ensures
            i == if in_bounds(self.spec_width(), self.spec_height(), x as int, y as int) {
                Some(cell_index(self.spec_width(), x as int, y as int) as usize)
            } else {
                None
            },
            in_bounds(self.spec_width(), self.spec_height(), x as int, y as int) ==> 0
                <= cell_index(self.spec_width(), x as int, y as int) < self.spec_width()
                * self.spec_height(),
    {
        if x >= 0 && x < self.width as i32 && y >= 0 && y < self.height as i32 {
            proof {
                let w = self.width as int;
                lemma_cell_index_bounds(w, self.height as int, x as int, y as int);
                assert(0 <= y * w) by (nonlinear_arith)
                    requires
                        0 <= y,
                        0 <= w,
                ;
            }
            Some((y as usize) * self.width + (x as usize))
        } else {
            None
        }
    }

    /// Whether cell `(x, y)` is alive. A cell outside the grid is dead.
    pub fn get(&self, x: i32, y: i32) -> (alive: bool)
        requires
            self.wf(),
        ensures
            alive == self@.contains((x as int, y as int)),
            !in_bounds(self.spec_width(), self.spec_height(), x as int, y as int) ==> !alive,
    {
        if let Some(i) = self.index(x, y) {
            self.buffer[i]
        } else {
            false
        }
    }

    /// Makes cell `(x, y)` alive or dead. A cell outside the grid is left
    /// alone, and so is every other cell.
    pub fn set(&mut self, x: i32, y: i32, val: bool)
        requires
            old(self).wf(),
        ensures
            final(self).wf(),
            final(self).spec_width() == old(self).spec_width(),
            final(self).spec_height() == old(self).spec_height(),
            final(self)@ == if !in_bounds(
                old(self).spec_width(),
                old(self).spec_height(),
                x as int,
                y as int,
            ) {
                old(self)@
            } else if val {
                old(self)@.insert((x as int, y as int))
            } else {
                old(self)@.remove((x as int, y as int))
            },
    {
        if let Some(i) = self.index(x, y) {
            let ghost before = self.buffer@;
            self.buffer[i] = val;
            proof {
                let w = self.width as int;
                let h = self.height as int;
                let target = (x as int, y as int);
                assert forall|p: (int, int)| p != target && in_bounds(w, h, p.0, p.1) implies
                    self.buffer@[cell_index(w, p.0, p.1)] == before[cell_index(w, p.0, p.1)] by {
                    lemma_cell_index_distinct(w, p.0, p.1, x as int, y as int);
                    lemma_cell_index_bounds(w, h, p.0, p.1);
                }
                if val {
                    assert(self@ =~= old(self)@.insert(target));
                } else {
                    assert(self@ =~= old(self)@.remove(target));
                }
            }
        }
    }

    /// The number of live cells among the eight neighbors of `(x, y)`,
    /// for a cell inside the grid.
    pub fn count_neighbors(&self, x: i32, y: i32) -> (n: u8)
        requires
            self.wf(),
            in_bounds(self.spec_width(), self.spec_height(), x as int, y as int),
        ensures
            n == neighbor_count(self@, x as int, y as int),
    {
        let mut n: u8 = 0;
        if self.get(x - 1, y - 1) {
            n += 1;
        }
        if self.get(x, y - 1) {
            n += 1;
        }
        if self.get(x + 1, y - 1) {
            n += 1;
        }
        if self.get(x - 1, y) {
            n += 1;
        }
        if self.get(x + 1, y) {
            n += 1;
        }
        if self.get(x - 1, y + 1) {
            n += 1;
        }
        if self.get(x, y + 1) {
            n += 1;
        }
        if self.get(x + 1, y + 1) {
            n += 1;
        }
        n
    }

    /// Advances the grid by one generation. Every cell of the new
    /// generation is computed from the old generation alone.
    pub fn step(&mut self)
        requires
            old(self).wf(),
        ensures
            final(self).wf(),
            final(self).spec_width() == old(self).spec_width(),
            final(self).spec_height() == old(self).spec_height(),
            final(self)@ == next_generation(
                old(self)@,
                old(self).spec_width(),
                old(self).spec_height(),
            ),
    {
        let ghost cells = self@;
        let ghost w = self.width as int;
        let ghost h = self.height as int;
        let width: i32 = self.width as i32;
        let height: i32 = self.height as i32;
        let mut y: i32 = 0;
        while y < height
            invariant
                self.wf(),
                self.width == w,
                self.height == h,
                width == w,
                height == h,
                self@ == cells,
                0 <= y <= height,
                forall|cx: int, cy: int|
                    0 <= cx < w && 0 <= cy < y ==> #[trigger] self.buffer_next@[cell_index(
                        w,
                        cx,
                        cy,
                    )] == next_state(cells.contains((cx, cy)), neighbor_count(cells, cx, cy)),
            decreases height - y,
        {
            let mut x: i32 = 0;
            while x < width
                invariant
                    self.wf(),
                    self.width == w,
                    self.height == h,
                    width == w,
                    height == h,
                    self@ == cells,
                    0 <= y < height,
                    0 <= x <= width,
                    forall|cx: int, cy: int|
                        0 <= cx < w && 0 <= cy < y ==> #[trigger] self.buffer_next@[cell_index(
                            w,
                            cx,
                            cy,
                        )] == next_state(cells.contains((cx, cy)), neighbor_count(cells, cx, cy)),
                    forall|cx: int|
                        0 <= cx < x ==> #[trigger] self.buffer_next@[cell_index(w, cx, y as int)]
                            == next_state(
                            cells.contains((cx, y as int)),
                            neighbor_count(cells, cx, y as int),
                        ),
                decreases width - x,
            {
                let alive = self.get(x, y);
                let neighbors = self.count_neighbors(x, y);
                let idx = self.index(x, y).unwrap();
                let ghost before = self.buffer_next@;
                self.buffer_next[idx] = match (alive, neighbors) {
                    (true, 2) | (true, 3) => true,
                    (false, 3) => true,
                    _ => false,
                };
                proof {
                    assert forall|cx: int, cy: int| 0 <= cx < w && 0 <= cy < y implies
                        self.buffer_next@[cell_index(w, cx, cy)] == before[cell_index(
                        w,
                        cx,
                        cy,
                    )] by {
                        lemma_cell_index_distinct(w, cx, cy, x as int, y as int);
                        lemma_cell_index_bounds(w, h, cx, cy);
                    }
                    assert forall|cx: int| 0 <= cx < x implies self.buffer_next@[cell_index(
                        w,
                        cx,
                        y as int,
                    )] == before[cell_index(w, cx, y as int)] by {
                        lemma_cell_index_distinct(w, cx, y as int, x as int, y as int);
                        lemma_cell_index_bounds(w, h, cx, y as int);
                    }
                }
                x += 1;
            }
            y += 1;
        }
        std::mem::swap(&mut self.buffer, &mut self.buffer_next);
        proof {
            assert forall|p: (int, int)|
                self@.contains(p) == next_generation(cells, w, h).contains(p) by {
                if in_bounds(w, h, p.0, p.1) {
                    lemma_cell_index_bounds(w, h, p.0, p.1);
                }
            }
            assert(self@ =~= next_generation(cells, w, h));
        }
    }
}

} // verus!
