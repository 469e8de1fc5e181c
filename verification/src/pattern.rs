//! The pattern loader: a catalog of named shapes and the operation that
//! stamps a shape onto a grid.
//!
//! A shape is an ordered list of offsets `(dx, dy)` from an origin. Stamping
//! only ever brings cells to life; offsets that land outside the grid are
//! dropped.

use crate::grid::{in_bounds, Framebuffer};
use vstd::prelude::*;

verus! {

/// The cells of a grid of the given dimensions that a shape covers when it
/// is placed at `(ox, oy)`.
pub open spec fn footprint(
    pattern: Seq<(i32, i32)>,
    ox: int,
    oy: int,
    width: int,
    height: int,
) -> Set<(int, int)> {
    Set::new(
        |p: (int, int)|
            in_bounds(width, height, p.0, p.1) && exists|k: int|
                0 <= k < pattern.len() && p == (
                    ox + (#[trigger] pattern[k]).0,
                    oy + pattern[k].1,
                ),
    )
}

/// Brings to life every cell of `pattern` placed at `origin`. Cells that
/// are already alive stay alive, and offsets outside the grid are dropped.
pub fn draw_pattern(fb: &mut Framebuffer, pattern: &[(i32, i32)], origin: (i32, i32))
    requires
        old(fb).wf(),
    ensures
        final(fb).wf(),
        final(fb).spec_width() == old(fb).spec_width(),
        final(fb).spec_height() == old(fb).spec_height(),
        final(fb)@ == old(fb)@.union(
            footprint(
                pattern@,
                origin.0 as int,
                origin.1 as int,
                old(fb).spec_width(),
                old(fb).spec_height(),
            ),
        ),
{
    let ghost start = fb@;
    let ghost w = fb.spec_width();
    let ghost h = fb.spec_height();
    let ghost ox = origin.0 as int;
    let ghost oy = origin.1 as int;
    proof {
        assert(footprint(pattern@.take(0), ox, oy, w, h) =~= Set::<(int, int)>::empty());
        assert(fb@ =~= start.union(footprint(pattern@.take(0), ox, oy, w, h)));
    }
    let mut k: usize = 0;
    while k < pattern.len()
        invariant
            fb.wf(),
            fb.spec_width() == w,
            fb.spec_height() == h,
            ox == origin.0,
            oy == origin.1,
            0 <= k <= pattern.len(),
            fb@ == start.union(footprint(pattern@.take(k as int), ox, oy, w, h)),
        decreases pattern.len() - k,
    {
        let (dx, dy) = pattern[k];
        let x: i64 = origin.0 as i64 + dx as i64;
        let y: i64 = origin.1 as i64 + dy as i64;
        let ghost before = fb@;
        if i32::MIN as i64 <= x && x <= i32::MAX as i64 && i32::MIN as i64 <= y && y <= i32::MAX as i64 {
            fb.set(x as i32, y as i32, true);
        }
        proof {
            fb.lemma_dimensions_fit();
            let grown = pattern@.take(k + 1);
            let shorter = pattern@.take(k as int);
            let cell = (x as int, y as int);
            assert(grown[k as int] == pattern@[k as int]);
            assert forall|p: (int, int)|
                footprint(grown, ox, oy, w, h).contains(p) == (footprint(
                    shorter,
                    ox,
                    oy,
                    w,
                    h,
                ).contains(p) || (p == cell && in_bounds(w, h, p.0, p.1))) by {
                if footprint(grown, ox, oy, w, h).contains(p) {
                    let i = choose|i: int|
                        0 <= i < grown.len() && p == (
                            ox + (#[trigger] grown[i]).0,
                            oy + grown[i].1,
                        );
                    if i < k {
                        assert(shorter[i] == grown[i]);
                    }
                }
                if footprint(shorter, ox, oy, w, h).contains(p) {
                    let i = choose|i: int|
                        0 <= i < shorter.len() && p == (
                            ox + (#[trigger] shorter[i]).0,
                            oy + shorter[i].1,
                        );
                    assert(grown[i] == shorter[i]);
                }
            }
            assert(fb@ =~= start.union(footprint(grown, ox, oy, w, h)));
        }
        k += 1;
    }
    proof {
        assert(pattern@.take(pattern@.len() as int) =~= pattern@);
    }
}

/// The pulsar: forty-eight cells that oscillate with period three.
pub open spec fn pulsar_cells() -> Seq<(i32, i32)> {
    seq![
        (2i32, 0i32), (3i32, 0i32), (4i32, 0i32), (8i32, 0i32), (9i32, 0i32), (10i32, 0i32),
        (0i32, 2i32), (5i32, 2i32), (7i32, 2i32), (12i32, 2i32),
        (0i32, 3i32), (5i32, 3i32), (7i32, 3i32), (12i32, 3i32),
        (0i32, 4i32), (5i32, 4i32), (7i32, 4i32), (12i32, 4i32),
        (2i32, 5i32), (3i32, 5i32), (4i32, 5i32), (8i32, 5i32), (9i32, 5i32), (10i32, 5i32),
        (2i32, 7i32), (3i32, 7i32), (4i32, 7i32), (8i32, 7i32), (9i32, 7i32), (10i32, 7i32),
        (0i32, 8i32), (5i32, 8i32), (7i32, 8i32), (12i32, 8i32),
        (0i32, 9i32), (5i32, 9i32), (7i32, 9i32), (12i32, 9i32),
        (0i32, 10i32), (5i32, 10i32), (7i32, 10i32), (12i32, 10i32),
        (2i32, 12i32), (3i32, 12i32), (4i32, 12i32), (8i32, 12i32), (9i32, 12i32), (10i32, 12i32),
    ]
}

/// The offsets of the pulsar, in catalog order.
pub fn pulsar_pattern() -> (cells: Vec<(i32, i32)>)
    ensures
        cells@ == pulsar_cells(),
{
    let cells: Vec<(i32, i32)> = vec![
        (2, 0), (3, 0), (4, 0), (8, 0), (9, 0), (10, 0),
        (0, 2), (5, 2), (7, 2), (12, 2),
        (0, 3), (5, 3), (7, 3), (12, 3),
        (0, 4), (5, 4), (7, 4), (12, 4),
        (2, 5), (3, 5), (4, 5), (8, 5), (9, 5), (10, 5),
        (2, 7), (3, 7), (4, 7), (8, 7), (9, 7), (10, 7),
        (0, 8), (5, 8), (7, 8), (12, 8),
        (0, 9), (5, 9), (7, 9), (12, 9),
        (0, 10), (5, 10), (7, 10), (12, 10),
        (2, 12), (3, 12), (4, 12), (8, 12), (9, 12), (10, 12),
    ];
    assert(cells@ =~= pulsar_cells());
    cells
}

/// A row of three cells that oscillates with period two.
pub open spec fn blinker_cells() -> Seq<(i32, i32)> {
    seq![
        (0i32, 0i32), (1i32, 0i32), (2i32, 0i32),
    ]
}

/// The offsets of the blinker, in catalog order.
pub fn blinker_pattern() -> (cells: Vec<(i32, i32)>)
    ensures
        cells@ == blinker_cells(),
{
    let cells: Vec<(i32, i32)> = vec![
        (0, 0), (1, 0), (2, 0),
    ];
    assert(cells@ =~= blinker_cells());
    cells
}

/// Five cells that travel one cell diagonally every four generations.
pub open spec fn glider_cells() -> Seq<(i32, i32)> {
    seq![
        (1i32, 0i32),
        (2i32, 1i32),
        (0i32, 2i32), (1i32, 2i32), (2i32, 2i32),
    ]
}

/// The offsets of the glider, in catalog order.
pub fn glider_pattern() -> (cells: Vec<(i32, i32)>)
    ensures
        cells@ == glider_cells(),
{
    let cells: Vec<(i32, i32)> = vec![
        (1, 0),
        (2, 1),
        (0, 2), (1, 2), (2, 2),
    ];
    assert(cells@ =~= glider_cells());
    cells
}

/// The lightweight spaceship: nine cells that travel along a row with
/// period four.
pub open spec fn lwss_cells() -> Seq<(i32, i32)> {
    seq![
        (0i32, 0i32), (3i32, 0i32),
        (4i32, 1i32),
        (0i32, 2i32), (4i32, 2i32),
        (1i32, 3i32), (2i32, 3i32), (3i32, 3i32), (4i32, 3i32),
    ]
}

/// The offsets of the lightweight spaceship, in catalog order.
pub fn lwss_pattern() -> (cells: Vec<(i32, i32)>)
    ensures
        cells@ == lwss_cells(),
{
    let cells: Vec<(i32, i32)> = vec![
        (0, 0), (3, 0),
        (4, 1),
        (0, 2), (4, 2),
        (1, 3), (2, 3), (3, 3), (4, 3),
    ];
    assert(cells@ =~= lwss_cells());
    cells
}

/// The names of the catalog's shapes.
#[derive(Clone, Copy, Debug, PartialEq, Eq)]
pub enum PatternName {
    Pulsar,
    Blinker,
    Glider,
    Lwss,
}

impl PatternName {
    /// The offsets of the shape with this name.
    pub open spec fn spec_cells(self) -> Seq<(i32, i32)> {
        match self {
            PatternName::Pulsar => pulsar_cells(),
            PatternName::Blinker => blinker_cells(),
            PatternName::Glider => glider_cells(),
            PatternName::Lwss => lwss_cells(),
        }
    }

    /// The offsets of the shape with this name.
    pub fn cells(self) -> (cells: Vec<(i32, i32)>)
        ensures
            cells@ == self.spec_cells(),
    {
        match self {
            PatternName::Pulsar => pulsar_pattern(),
            PatternName::Blinker => blinker_pattern(),
            PatternName::Glider => glider_pattern(),
            PatternName::Lwss => lwss_pattern(),
        }
    }
}

/// One entry of an initial layout: a catalog shape and where to put it.
#[derive(Clone, Copy, Debug, PartialEq, Eq)]
pub struct Placement {
    pub name: PatternName,
    pub origin: (i32, i32),
}

/// The cells of a grid of the given dimensions that the placements of a
/// layout cover together.
pub open spec fn layout_footprint(layout: Seq<Placement>, width: int, height: int) -> Set<
    (int, int),
> {
    Set::new(
        |p: (int, int)|
            exists|i: int|
                0 <= i < layout.len() && footprint(
                    (#[trigger] layout[i]).name.spec_cells(),
                    layout[i].origin.0 as int,
                    layout[i].origin.1 as int,
                    width,
                    height,
                ).contains(p),
    )
}

/// Stamps every placement of `layout` onto the grid. The result is the
/// union of what was alive before and of all the footprints.
pub fn draw_layout(fb: &mut Framebuffer, layout: &[Placement])
    requires
        old(fb).wf(),
    ensures
        final(fb).wf(),
        final(fb).spec_width() == old(fb).spec_width(),
        final(fb).spec_height() == old(fb).spec_height(),
        final(fb)@ == old(fb)@.union(
            layout_footprint(layout@, old(fb).spec_width(), old(fb).spec_height()),
        ),
{
    let ghost start = fb@;
    let ghost w = fb.spec_width();
    let ghost h = fb.spec_height();
    proof {
        assert(fb@ =~= start.union(layout_footprint(layout@.take(0), w, h)));
    }
    let mut i: usize = 0;
    while i < layout.len()
        invariant
            fb.wf(),
            fb.spec_width() == w,
            fb.spec_height() == h,
            0 <= i <= layout.len(),
            fb@ == start.union(layout_footprint(layout@.take(i as int), w, h)),
        decreases layout.len() - i,
    {
        let placement = layout[i];
        let cells = placement.name.cells();
        draw_pattern(fb, cells.as_slice(), placement.origin);
        proof {
            let grown = layout@.take(i + 1);
            let shorter = layout@.take(i as int);
            let added = footprint(
                placement.name.spec_cells(),
                placement.origin.0 as int,
                placement.origin.1 as int,
                w,
                h,
            );
            assert(grown[i as int] == placement);
            assert forall|p: (int, int)|
                layout_footprint(grown, w, h).contains(p) == (layout_footprint(
                    shorter,
                    w,
                    h,
                ).contains(p) || added.contains(p)) by {
                if layout_footprint(grown, w, h).contains(p) {
                    let j = choose|j: int|
                        0 <= j < grown.len() && footprint(
                            (#[trigger] grown[j]).name.spec_cells(),
                            grown[j].origin.0 as int,
                            grown[j].origin.1 as int,
                            w,
                            h,
                        ).contains(p);
                    if j < i {
                        assert(shorter[j] == grown[j]);
                    }
                }
                if layout_footprint(shorter, w, h).contains(p) {
                    let j = choose|j: int|
                        0 <= j < shorter.len() && footprint(
                            (#[trigger] shorter[j]).name.spec_cells(),
                            shorter[j].origin.0 as int,
                            shorter[j].origin.1 as int,
                            w,
                            h,
                        ).contains(p);
                    assert(grown[j] == shorter[j]);
                }
            }
            assert(fb@ =~= start.union(layout_footprint(grown, w, h)));
        }
        i += 1;
    }
    proof {
        assert(layout@.take(layout@.len() as int) =~= layout@);
    }
}

} // verus!
