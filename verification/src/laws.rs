//! Laws of the transition rule and of the catalog shapes, stated over the
//! set-of-live-cells model that the grid engine's contracts use.

use crate::grid::{generations, in_bounds, neighbor_count, next_generation, next_state};
use crate::pattern::{blinker_cells, footprint, glider_cells};
use vstd::prelude::*;

verus! {

/// The truth table of the rule: a live cell with fewer than two or more
/// than three live neighbors dies, a live cell with two or three stays
/// alive, and a dead cell comes alive with exactly three and with no other
/// count.
pub proof fn lemma_rule_table(alive: bool, neighbors: int)
    ensures
        alive && neighbors < 2 ==> !next_state(alive, neighbors),
        alive && neighbors > 3 ==> !next_state(alive, neighbors),
        alive && (neighbors == 2 || neighbors == 3) ==> next_state(alive, neighbors),
        !alive && neighbors == 3 ==> next_state(alive, neighbors),
        !alive && neighbors != 3 ==> !next_state(alive, neighbors),
{
}

/// A cell has between zero and eight live neighbors.
pub proof fn lemma_neighbor_count_range(cells: Set<(int, int)>, x: int, y: int)
    ensures
        0 <= neighbor_count(cells, x, y) <= 8,
{
}

/// Whatever the current generation holds, every live cell of the next
/// one lies inside the grid, and a cell inside the grid is alive exactly
/// when the rule says so of its old state and its old neighbors.
pub proof fn lemma_next_generation_cellwise(
    cells: Set<(int, int)>,
    width: int,
    height: int,
    x: int,
    y: int,
)
    ensures
        !in_bounds(width, height, x, y) ==> !next_generation(cells, width, height).contains(
            (x, y),
        ),
        in_bounds(width, height, x, y) ==> next_generation(cells, width, height).contains((x, y))
            == next_state(cells.contains((x, y)), neighbor_count(cells, x, y)),
{
}

/// A grid without live cells has none after any number of generations.
pub proof fn lemma_empty_stays_empty(width: int, height: int, n: nat)
    ensures
        generations(Set::<(int, int)>::empty(), width, height, n) == Set::<(int, int)>::empty(),
    decreases n,
{
    if n > 0 {
        lemma_empty_stays_empty(width, height, (n - 1) as nat);
        assert(next_generation(Set::<(int, int)>::empty(), width, height) =~= Set::<
            (int, int),
        >::empty());
    }
}

/// Running `m` generations and then `n` more is running `m + n`.
pub proof fn lemma_generations_add(cells: Set<(int, int)>, width: int, height: int, m: nat, n: nat)
    ensures
        generations(generations(cells, width, height, m), width, height, n) == generations(
            cells,
            width,
            height,
            m + n,
        ),
    decreases n,
{
    if n > 0 {
        lemma_generations_add(cells, width, height, m, (n - 1) as nat);
    }
}

/// The set of the five given cells.
spec fn five(a: (int, int), b: (int, int), c: (int, int), d: (int, int), e: (int, int)) -> Set<
    (int, int),
> {
    Set::new(|p: (int, int)| p == a || p == b || p == c || p == d || p == e)
}

/// The blinker covers three cells in a row, as far as they lie in the grid.
proof fn lemma_blinker_footprint(ox: int, oy: int, width: int, height: int)
    ensures
        footprint(blinker_cells(), ox, oy, width, height) == Set::new(
            |p: (int, int)| in_bounds(width, height, p.0, p.1) && p.1 == oy && ox <= p.0 <= ox + 2,
        ),
{
    let covered = footprint(blinker_cells(), ox, oy, width, height);
    let row = Set::new(
        |p: (int, int)| in_bounds(width, height, p.0, p.1) && p.1 == oy && ox <= p.0 <= ox + 2,
    );
    assert forall|p: (int, int)| covered.contains(p) == row.contains(p) by {
        if row.contains(p) {
            let k = p.0 - ox;
            assert(p == (ox + blinker_cells()[k].0, oy + blinker_cells()[k].1));
        }
    }
    assert(covered =~= row);
}

/// A blinker that lies in the grid with a free row above and below is
/// back in its first shape after two generations.
pub proof fn lemma_blinker_period(ox: int, oy: int, width: int, height: int)
    requires
        0 <= ox,
        ox + 2 < width,
        1 <= oy,
        oy + 1 < height,
    ensures
        generations(footprint(blinker_cells(), ox, oy, width, height), width, height, 2)
            == footprint(blinker_cells(), ox, oy, width, height),
{
    let flat = footprint(blinker_cells(), ox, oy, width, height);
    lemma_blinker_footprint(ox, oy, width, height);
    let upright = Set::new(|p: (int, int)| p.0 == ox + 1 && oy - 1 <= p.1 <= oy + 1);
    assert(next_generation(flat, width, height) =~= upright);
    assert(next_generation(upright, width, height) =~= flat);
    reveal_with_fuel(generations, 3);
}

/// The glider covers its five cells when all of them lie in the grid.
proof fn lemma_glider_footprint(ox: int, oy: int, width: int, height: int)
    requires
        0 <= ox,
        ox + 2 < width,
        0 <= oy,
        oy + 2 < height,
    ensures
        footprint(glider_cells(), ox, oy, width, height) == five(
            (ox + 1, oy),
            (ox + 2, oy + 1),
            (ox, oy + 2),
            (ox + 1, oy + 2),
            (ox + 2, oy + 2),
        ),
{
    let covered = footprint(glider_cells(), ox, oy, width, height);
    let g = glider_cells();
    assert(covered.contains((ox + g[0].0, oy + g[0].1)));
    assert(covered.contains((ox + g[1].0, oy + g[1].1)));
    assert(covered.contains((ox + g[2].0, oy + g[2].1)));
    assert(covered.contains((ox + g[3].0, oy + g[3].1)));
    assert(covered.contains((ox + g[4].0, oy + g[4].1)));
    assert(covered =~= five(
        (ox + 1, oy),
        (ox + 2, oy + 1),
        (ox, oy + 2),
        (ox + 1, oy + 2),
        (ox + 2, oy + 2),
    ));
}

/// The four shapes that a glider takes in turn, the first at `(ox, oy)`,
/// and the first again, one cell further right and down.
spec fn glider_phase(k: int, ox: int, oy: int) -> Set<(int, int)> {
    if k == 0 {
        five(
            (ox + 1, oy),
            (ox + 2, oy + 1),
            (ox, oy + 2),
            (ox + 1, oy + 2),
            (ox + 2, oy + 2),
        )
    } else if k == 1 {
        five(
            (ox, oy + 1),
            (ox + 2, oy + 1),
            (ox + 1, oy + 2),
            (ox + 2, oy + 2),
            (ox + 1, oy + 3),
        )
    } else if k == 2 {
        five(
            (ox + 2, oy + 1),
            (ox, oy + 2),
            (ox + 2, oy + 2),
            (ox + 1, oy + 3),
            (ox + 2, oy + 3),
        )
    } else if k == 3 {
        five(
            (ox + 1, oy + 1),
            (ox + 2, oy + 2),
            (ox + 3, oy + 2),
            (ox + 1, oy + 3),
            (ox + 2, oy + 3),
        )
    } else {
        five(
            (ox + 2, oy + 1),
            (ox + 3, oy + 2),
            (ox + 1, oy + 3),
            (ox + 2, oy + 3),
            (ox + 3, oy + 3),
        )
    }
}

/// Each shape of a glider is followed by the next one.
proof fn lemma_glider_phase(k: int, ox: int, oy: int, width: int, height: int)
    requires
        0 <= k < 4,
        0 <= ox,
        ox + 3 < width,
        0 <= oy,
        oy + 3 < height,
    ensures
        next_generation(glider_phase(k, ox, oy), width, height) == glider_phase(k + 1, ox, oy),
{
    if k == 0 {
        assert(next_generation(glider_phase(0, ox, oy), width, height) =~= glider_phase(
            1,
            ox,
            oy,
        ));
    } else if k == 1 {
        assert(next_generation(glider_phase(1, ox, oy), width, height) =~= glider_phase(
            2,
            ox,
            oy,
        ));
    } else if k == 2 {
        assert(next_generation(glider_phase(2, ox, oy), width, height) =~= glider_phase(
            3,
            ox,
            oy,
        ));
    } else {
        assert(next_generation(glider_phase(3, ox, oy), width, height) =~= glider_phase(
            4,
            ox,
            oy,
        ));
    }
}

/// A glider that lies in the grid with one free column to its right and
/// one free row below has, after four generations, its first shape moved
/// by one cell to the right and one cell down.
pub proof fn lemma_glider_travels(ox: int, oy: int, width: int, height: int)
    requires
        0 <= ox,
        ox + 3 < width,
        0 <= oy,
        oy + 3 < height,
    ensures
        generations(footprint(glider_cells(), ox, oy, width, height), width, height, 4)
            == footprint(glider_cells(), ox + 1, oy + 1, width, height),
{
    let first = footprint(glider_cells(), ox, oy, width, height);
    let moved = footprint(glider_cells(), ox + 1, oy + 1, width, height);
    lemma_glider_footprint(ox, oy, width, height);
    lemma_glider_footprint(ox + 1, oy + 1, width, height);
    assert(first =~= glider_phase(0, ox, oy));
    assert(moved =~= glider_phase(4, ox, oy));
    lemma_glider_phase(0, ox, oy, width, height);
    lemma_glider_phase(1, ox, oy, width, height);
    lemma_glider_phase(2, ox, oy, width, height);
    lemma_glider_phase(3, ox, oy, width, height);
    reveal_with_fuel(generations, 5);
}

/// Stamping never removes a cell, covers the whole footprint, and a
/// second stamp of the same shape at the same origin changes nothing.
pub proof fn lemma_stamp_unions(
    cells: Set<(int, int)>,
    pattern: Seq<(i32, i32)>,
    ox: int,
    oy: int,
    width: int,
    height: int,
)
    ensures
        cells.subset_of(cells.union(footprint(pattern, ox, oy, width, height))),
        footprint(pattern, ox, oy, width, height).subset_of(
            cells.union(footprint(pattern, ox, oy, width, height)),
        ),
        cells.union(footprint(pattern, ox, oy, width, height)).union(
            footprint(pattern, ox, oy, width, height),
        ) == cells.union(footprint(pattern, ox, oy, width, height)),
{
    let covered = footprint(pattern, ox, oy, width, height);
    assert(cells.union(covered).union(covered) =~= cells.union(covered));
}

} // verus!
