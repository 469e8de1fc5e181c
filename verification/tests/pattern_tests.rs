use game_of_life::grid::Framebuffer;
use game_of_life::pattern::{
    blinker_pattern, draw_layout, draw_pattern, glider_pattern, lwss_pattern, pulsar_pattern,
    PatternName, Placement,
};

fn live_cells(fb: &Framebuffer) -> Vec<(i32, i32)> {
    let mut cells = Vec::new();
    for y in 0..fb.height() as i32 {
        for x in 0..fb.width() as i32 {
            if fb.get(x, y) {
                cells.push((x, y));
            }
        }
    }
    cells
}

fn shifted(pattern: &[(i32, i32)], by: (i32, i32)) -> Vec<(i32, i32)> {
    let mut cells: Vec<(i32, i32)> = pattern.iter().map(|&(x, y)| (x + by.0, y + by.1)).collect();
    cells.sort_by_key(|&(x, y)| (y, x));
    cells
}

/// One generation, computed cell by cell from a copy of the grid.
fn generation_by_hand(width: i32, height: i32, cells: &[(i32, i32)]) -> Vec<(i32, i32)> {
    let mut next = Vec::new();
    for y in 0..height {
        for x in 0..width {
            let mut neighbors = 0;
            for &(cx, cy) in cells {
                if (cx, cy) != (x, y) && (cx - x).abs() <= 1 && (cy - y).abs() <= 1 {
                    neighbors += 1;
                }
            }
            let alive = cells.contains(&(x, y));
            if neighbors == 3 || (alive && neighbors == 2) {
                next.push((x, y));
            }
        }
    }
    next
}

#[test]
fn blinker_offsets() {
    assert_eq!(blinker_pattern(), vec![(0, 0), (1, 0), (2, 0)]);
}

#[test]
fn glider_offsets() {
    assert_eq!(glider_pattern(), vec![(1, 0), (2, 1), (0, 2), (1, 2), (2, 2)]);
}

#[test]
fn lwss_offsets() {
    assert_eq!(
        lwss_pattern(),
        vec![(0, 0), (3, 0), (4, 1), (0, 2), (4, 2), (1, 3), (2, 3), (3, 3), (4, 3)]
    );
}

#[test]
fn pulsar_offsets() {
    let expected = vec![
        (2, 0), (3, 0), (4, 0), (8, 0), (9, 0), (10, 0),
        (0, 2), (5, 2), (7, 2), (12, 2),
        (0, 3), (5, 3), (7, 3), (12, 3),
        (0, 4), (5, 4), (7, 4), (12, 4),
        (2, 5), (3, 5), (4, 5), (8, 5), (9, 5), (10, 5),
        (2, 7), (3, 7), (4, 7), (8, 7), (9, 7), (10, 7),
        (0, 8), (5, 8), (7, 8), (12, 8),
        (0, 9), (5, 9), (7, 9), (12, 9),
        (0, 10), (5, 10), (7, 10), (12, 10),
        (2, 12), (3, 12), (4, 12), (8, 12), (9, 12), (10, 12),
    ];
    assert_eq!(expected.len(), 48);
    assert_eq!(pulsar_pattern(), expected);
}

#[test]
fn names_give_their_shapes() {
    assert_eq!(PatternName::Pulsar.cells(), pulsar_pattern());
    assert_eq!(PatternName::Blinker.cells(), blinker_pattern());
    assert_eq!(PatternName::Glider.cells(), glider_pattern());
    assert_eq!(PatternName::Lwss.cells(), lwss_pattern());
}

#[test]
fn stamp_places_cells_at_origin() {
    let mut fb = Framebuffer::new(10, 10);
    draw_pattern(&mut fb, &glider_pattern(), (3, 4));
    assert_eq!(live_cells(&fb), vec![(4, 4), (5, 5), (3, 6), (4, 6), (5, 6)]);
}

#[test]
fn stamp_with_no_offsets_changes_nothing() {
    let mut fb = Framebuffer::new(4, 4);
    fb.set(1, 1, true);
    draw_pattern(&mut fb, &[], (2, 2));
    assert_eq!(live_cells(&fb), vec![(1, 1)]);
}

#[test]
fn stamp_keeps_live_cells() {
    let mut fb = Framebuffer::new(10, 10);
    fb.set(0, 0, true);
    fb.set(6, 5, true);
    draw_pattern(&mut fb, &blinker_pattern(), (5, 5));
    assert_eq!(live_cells(&fb), vec![(0, 0), (5, 5), (6, 5), (7, 5)]);
}

#[test]
fn stamp_twice_is_stamp_once() {
    let mut once = Framebuffer::new(20, 20);
    draw_pattern(&mut once, &pulsar_pattern(), (3, 3));
    let mut twice = Framebuffer::new(20, 20);
    draw_pattern(&mut twice, &pulsar_pattern(), (3, 3));
    draw_pattern(&mut twice, &pulsar_pattern(), (3, 3));
    assert_eq!(live_cells(&once).len(), 48);
    assert_eq!(live_cells(&twice), live_cells(&once));
}

#[test]
fn overlapping_stamps_unite() {
    let mut fb = Framebuffer::new(10, 10);
    draw_pattern(&mut fb, &blinker_pattern(), (2, 2));
    draw_pattern(&mut fb, &blinker_pattern(), (3, 2));
    assert_eq!(live_cells(&fb), vec![(2, 2), (3, 2), (4, 2), (5, 2)]);
}

#[test]
fn stamp_drops_cells_outside() {
    let mut fb = Framebuffer::new(4, 4);
    draw_pattern(&mut fb, &glider_pattern(), (2, 2));
    // Of (3,2) (4,3) (2,4) (3,4) (4,4) only the first is inside.
    assert_eq!(live_cells(&fb), vec![(3, 2)]);

    let mut fb = Framebuffer::new(4, 4);
    draw_pattern(&mut fb, &glider_pattern(), (-1, -2));
    // Of (0,-2) (1,-1) (-1,0) (0,0) (1,0) the last two are inside.
    assert_eq!(live_cells(&fb), vec![(0, 0), (1, 0)]);
}

#[test]
fn stamp_far_outside_does_not_fail() {
    let mut fb = Framebuffer::new(4, 4);
    fb.set(1, 1, true);
    draw_pattern(&mut fb, &pulsar_pattern(), (i32::MAX, i32::MAX));
    draw_pattern(&mut fb, &pulsar_pattern(), (i32::MAX - 5, 0));
    draw_pattern(&mut fb, &[(-1, -1), (i32::MIN, i32::MIN)], (i32::MIN, i32::MIN));
    draw_pattern(&mut fb, &[(i32::MAX, i32::MAX)], (i32::MAX, i32::MAX));
    assert_eq!(live_cells(&fb), vec![(1, 1)]);
}

#[test]
fn stamp_adds_large_operands_exactly() {
    // The operands are far outside, their sum is cell (1, 1).
    let mut fb = Framebuffer::new(4, 4);
    draw_pattern(&mut fb, &[(i32::MAX, i32::MAX)], (i32::MIN + 2, i32::MIN + 2));
    assert_eq!(live_cells(&fb), vec![(1, 1)]);
}

#[test]
fn stamp_sum_past_i32_does_not_wrap_into_grid() {
    // In 32-bit wrapping arithmetic i32::MIN + i32::MIN is 0, so a sum
    // that wrapped would land on cell (0, 0).
    let mut fb = Framebuffer::new(4, 4);
    draw_pattern(&mut fb, &[(i32::MIN, i32::MIN)], (i32::MIN, i32::MIN));
    draw_pattern(&mut fb, &[(i32::MIN, 0)], (i32::MIN, 0));
    draw_pattern(&mut fb, &[(0, i32::MIN)], (0, i32::MIN));
    draw_pattern(&mut fb, &[(i32::MAX, 0)], (3, 1));
    draw_pattern(&mut fb, &[(i32::MIN, 0)], (-1, 1));
    assert_eq!(live_cells(&fb), Vec::<(i32, i32)>::new());
}

#[test]
fn layout_is_the_union_of_its_placements() {
    let layout = [
        Placement { name: PatternName::Blinker, origin: (1, 1) },
        Placement { name: PatternName::Glider, origin: (5, 5) },
        Placement { name: PatternName::Blinker, origin: (2, 1) },
        Placement { name: PatternName::Lwss, origin: (18, 18) },
    ];
    let mut fb = Framebuffer::new(20, 20);
    fb.set(0, 19, true);
    draw_layout(&mut fb, &layout);

    let mut by_hand = Framebuffer::new(20, 20);
    by_hand.set(0, 19, true);
    draw_pattern(&mut by_hand, &blinker_pattern(), (1, 1));
    draw_pattern(&mut by_hand, &glider_pattern(), (5, 5));
    draw_pattern(&mut by_hand, &blinker_pattern(), (2, 1));
    draw_pattern(&mut by_hand, &lwss_pattern(), (18, 18));
    assert_eq!(live_cells(&fb), live_cells(&by_hand));
    assert_eq!(
        live_cells(&fb),
        vec![
            (1, 1), (2, 1), (3, 1), (4, 1),
            (6, 5), (7, 6), (5, 7), (6, 7), (7, 7),
            (18, 18), (0, 19),
        ]
    );
}

#[test]
fn empty_layout_changes_nothing() {
    let mut fb = Framebuffer::new(5, 5);
    fb.set(2, 3, true);
    draw_layout(&mut fb, &[]);
    assert_eq!(live_cells(&fb), vec![(2, 3)]);
}

#[test]
fn blinker_returns_after_two_steps() {
    let mut fb = Framebuffer::new(12, 12);
    draw_pattern(&mut fb, &blinker_pattern(), (5, 5));
    let first = live_cells(&fb);
    assert_eq!(first, vec![(5, 5), (6, 5), (7, 5)]);
    fb.step();
    assert_eq!(live_cells(&fb), vec![(6, 4), (6, 5), (6, 6)]);
    fb.step();
    assert_eq!(live_cells(&fb), first);
}

#[test]
fn blinker_clipped_at_the_top_edge_dies_out() {
    let mut fb = Framebuffer::new(5, 5);
    draw_pattern(&mut fb, &blinker_pattern(), (0, 0));
    fb.step();
    assert_eq!(live_cells(&fb), vec![(1, 0), (1, 1)]);
    fb.step();
    assert_eq!(live_cells(&fb), Vec::<(i32, i32)>::new());
}

#[test]
fn glider_moves_diagonally_in_four_steps() {
    let mut fb = Framebuffer::new(20, 20);
    draw_pattern(&mut fb, &glider_pattern(), (4, 3));
    assert_eq!(live_cells(&fb), shifted(&glider_pattern(), (4, 3)));
    for _ in 0..4 {
        fb.step();
    }
    assert_eq!(live_cells(&fb), shifted(&glider_pattern(), (5, 4)));
    assert_eq!(live_cells(&fb), vec![(6, 4), (7, 5), (5, 6), (6, 6), (7, 6)]);
    for _ in 0..4 {
        fb.step();
    }
    assert_eq!(live_cells(&fb), shifted(&glider_pattern(), (6, 5)));
}

#[test]
fn glider_phases() {
    let mut fb = Framebuffer::new(8, 8);
    draw_pattern(&mut fb, &glider_pattern(), (0, 0));
    fb.step();
    assert_eq!(live_cells(&fb), vec![(0, 1), (2, 1), (1, 2), (2, 2), (1, 3)]);
    fb.step();
    assert_eq!(live_cells(&fb), vec![(2, 1), (0, 2), (2, 2), (1, 3), (2, 3)]);
    fb.step();
    assert_eq!(live_cells(&fb), vec![(1, 1), (2, 2), (3, 2), (1, 3), (2, 3)]);
    fb.step();
    assert_eq!(live_cells(&fb), vec![(2, 1), (3, 2), (1, 3), (2, 3), (3, 3)]);
}

#[test]
fn glider_in_a_corner_settles_into_a_block() {
    let mut fb = Framebuffer::new(20, 20);
    draw_pattern(&mut fb, &glider_pattern(), (17, 17));
    fb.step();
    assert_eq!(live_cells(&fb), vec![(17, 18), (19, 18), (18, 19), (19, 19)]);
    fb.step();
    assert_eq!(live_cells(&fb), vec![(19, 18), (18, 19), (19, 19)]);
    fb.step();
    assert_eq!(live_cells(&fb), vec![(18, 18), (19, 18), (18, 19), (19, 19)]);
    fb.step();
    assert_eq!(live_cells(&fb), vec![(18, 18), (19, 18), (18, 19), (19, 19)]);
}

#[test]
fn lwss_moves_two_columns_in_four_steps() {
    let mut fb = Framebuffer::new(40, 40);
    draw_pattern(&mut fb, &lwss_pattern(), (10, 10));
    for _ in 0..4 {
        fb.step();
    }
    assert_eq!(live_cells(&fb), shifted(&lwss_pattern(), (12, 10)));
}

#[test]
fn pulsar_returns_after_three_steps() {
    let mut fb = Framebuffer::new(30, 30);
    draw_pattern(&mut fb, &pulsar_pattern(), (8, 8));
    let first = live_cells(&fb);
    assert_eq!(first.len(), 48);
    fb.step();
    assert_ne!(live_cells(&fb), first);
    fb.step();
    assert_ne!(live_cells(&fb), first);
    fb.step();
    assert_eq!(live_cells(&fb), first);
}

#[test]
fn every_generation_matches_a_cell_by_cell_count() {
    let layout = [
        Placement { name: PatternName::Pulsar, origin: (3, 3) },
        Placement { name: PatternName::Blinker, origin: (10, 30) },
        Placement { name: PatternName::Glider, origin: (15, 20) },
        Placement { name: PatternName::Lwss, origin: (12, 24) },
        Placement { name: PatternName::Glider, origin: (38, 30) },
        Placement { name: PatternName::Pulsar, origin: (30, -4) },
    ];
    let mut fb = Framebuffer::new(40, 33);
    draw_layout(&mut fb, &layout);
    let mut expected = live_cells(&fb);
    for _ in 0..30 {
        expected = generation_by_hand(40, 33, &expected);
        fb.step();
        assert_eq!(live_cells(&fb), expected);
    }
}
