use pixel_automata::critters;
use pixel_automata::error::AutomataError;
use pixel_automata::single_rotation;

fn critters_count(g: &critters::MarGrid) -> u32 {
    let mut live: u32 = 0;
    for y in 0..g.height() {
        for x in 0..g.width() {
            if g.get(x, y) == Some(true) {
                live += 1;
            }
        }
    }
    live
}

fn rotor_cells(g: &single_rotation::MarGrid) -> Vec<bool> {
    let mut cells = Vec::new();
    for y in 0..g.height() {
        for x in 0..g.width() {
            cells.push(g.get(x, y).unwrap());
        }
    }
    cells
}

#[test]
fn critters_conserves_count_over_full_step() {
    // One live cell in an otherwise-dead block (count 1): a full phase-A
    // then phase-B step leaves the total live count at its pre-step value.
    let mut g = critters::MarGrid::new_empty(4, 4).unwrap();
    assert_eq!(g.toggle(0, 0), true);
    assert_eq!(critters_count(&g), 1);
    g.update();
    assert_eq!(critters_count(&g), 1);
}

#[test]
fn critters_conserves_count_on_random_fill() {
    let mut g = critters::MarGrid::new_empty(12, 8).unwrap();
    g.randomize_with_seed(77, 88);
    let before = critters_count(&g);
    for _ in 0..6 {
        g.update();
        assert_eq!(critters_count(&g), before);
    }
}

#[test]
fn critters_half_step_inverts_empty_blocks() {
    // An empty block has count 0 and is inverted whole.
    let mut g = critters::MarGrid::new_empty(4, 4).unwrap();
    g.update_grid_1();
    assert_eq!(critters_count(&g), 16);
    // The second half-step sees full blocks (count 4) and inverts back.
    g.update_grid_2();
    assert_eq!(critters_count(&g), 0);
}

#[test]
fn critters_count_big_cell_reports_block() {
    let mut g = critters::MarGrid::new_empty(4, 4).unwrap();
    g.toggle(0, 0);
    g.toggle(1, 1);
    let (count, cells) = g.count_big_cell(0, 0);
    assert_eq!(count, 2);
    assert_eq!(cells, [0, 1, 5, 4]);
}

#[test]
fn critters_count_big_cell_wraps() {
    let mut g = critters::MarGrid::new_empty(4, 4).unwrap();
    g.toggle(0, 0);
    // A block anchored at the far corner wraps around both edges and
    // includes the origin as its bottom-right member.
    let (count, cells) = g.count_big_cell(3, 3);
    assert_eq!(count, 1);
    assert_eq!(cells, [15, 12, 0, 3]);
}

#[test]
fn critters_update_big_cell_inverts_on_one() {
    let mut g = critters::MarGrid::new_empty(4, 4).unwrap();
    g.toggle(0, 0);
    let (count, cells) = g.count_big_cell(0, 0);
    assert_eq!(count, 1);
    g.update_big_cell(count, cells);
    assert_eq!(g.get(0, 0), Some(false));
    assert_eq!(g.get(1, 0), Some(true));
    assert_eq!(g.get(1, 1), Some(true));
    assert_eq!(g.get(0, 1), Some(true));
}

#[test]
fn critters_update_big_cell_rotates_on_three() {
    let mut g = critters::MarGrid::new_empty(4, 4).unwrap();
    // Three live cells: all but the top-left.
    g.toggle(1, 0);
    g.toggle(1, 1);
    g.toggle(0, 1);
    let (count, cells) = g.count_big_cell(0, 0);
    assert_eq!(count, 3);
    // Rotate 180 degrees then invert: only the bottom-right stays live.
    g.update_big_cell(count, cells);
    assert_eq!(g.get(0, 0), Some(false));
    assert_eq!(g.get(1, 0), Some(false));
    assert_eq!(g.get(1, 1), Some(true));
    assert_eq!(g.get(0, 1), Some(false));
}

#[test]
fn critters_rejects_bad_dims() {
    assert!(matches!(critters::MarGrid::new_empty(4, 0), Err(AutomataError::InvalidDimensions)));
}

#[test]
fn rotor_reverse_twice_restores_direction() {
    // Applying reverse() twice in a row returns the rotation direction to
    // its original sense, and the phase to its original alignment.
    let mut g = single_rotation::MarGrid::new_empty(4, 4).unwrap();
    assert!(!g.is_reversed());
    let phase = g.phase_flag();
    g.reverse();
    assert!(g.is_reversed());
    g.reverse();
    assert!(!g.is_reversed());
    assert_eq!(g.phase_flag(), phase);
}

#[test]
fn rotor_single_cell_rotates_clockwise() {
    let mut g = single_rotation::MarGrid::new_empty(4, 4).unwrap();
    g.toggle(0, 0);
    g.update();
    // The lone cell of the block anchored at (0, 0) moves one clockwise
    // position: top-left to bottom-left.
    assert_eq!(g.get(0, 0), Some(false));
    assert_eq!(g.get(0, 1), Some(true));
    assert_eq!(g.get(1, 0), Some(false));
    assert_eq!(g.get(1, 1), Some(false));
}

#[test]
fn rotor_blocks_with_two_cells_hold_still() {
    let mut g = single_rotation::MarGrid::new_empty(4, 4).unwrap();
    g.toggle(0, 0);
    g.toggle(1, 1);
    let before = rotor_cells(&g);
    g.update();
    assert_eq!(rotor_cells(&g), before);
}

#[test]
fn rotor_retraces_to_exact_start() {
    // Running N forward steps, reversing, then N reverse steps returns the
    // lattice to its exact pre-run state, cell for cell.
    let mut g = single_rotation::MarGrid::new_empty(10, 6).unwrap();
    g.randomize_with_seed(123, 456);
    let before = rotor_cells(&g);
    for _ in 0..9 {
        g.update();
    }
    assert_ne!(rotor_cells(&g), before);
    g.reverse();
    for _ in 0..9 {
        g.update();
    }
    assert_eq!(rotor_cells(&g), before);
}

#[test]
fn rotor_update_big_cell_inverse_pair() {
    let mut g = single_rotation::MarGrid::new_empty(4, 4).unwrap();
    g.toggle(2, 0);
    let (count, cells) = g.count_big_cell(2, 0);
    assert_eq!(count, 1);
    g.update_big_cell(count, cells);
    // Clockwise: the top-left value came from the top-right.
    assert_eq!(g.get(2, 0), Some(false));
    assert_eq!(g.get(2, 1), Some(true));
    g.update_big_cell_reverse(count, cells);
    assert_eq!(g.get(2, 0), Some(true));
    assert_eq!(g.get(2, 1), Some(false));
}

#[test]
fn rotor_idx_grid_decomposes_addresses() {
    let g = single_rotation::MarGrid::new_empty(6, 4).unwrap();
    assert_eq!(g.idx_grid(0), Some((0, 0)));
    assert_eq!(g.idx_grid(7), Some((1, 1)));
    assert_eq!(g.idx_grid(23), Some((5, 3)));
}

#[test]
fn rotor_set_line_draws_cells() {
    let mut g = single_rotation::MarGrid::new_empty(8, 8).unwrap();
    g.set_line(1, 1, 1, 4, true);
    for y in 1..=4 {
        assert_eq!(g.get(1, y), Some(true));
    }
    assert_eq!(g.get(1, 5), Some(false));
    g.set_line(1, 2, 1, 3, false);
    assert_eq!(g.get(1, 2), Some(false));
    assert_eq!(g.get(1, 3), Some(false));
    assert_eq!(g.get(1, 1), Some(true));
}

#[test]
fn rotor_clear_kills_all() {
    let mut g = single_rotation::MarGrid::new_empty(6, 6).unwrap();
    g.randomize_with_seed(1, 2);
    g.clear();
    for y in 0..6 {
        for x in 0..6 {
            assert_eq!(g.get(x, y), Some(false));
        }
    }
}
