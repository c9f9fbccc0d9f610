use pixel_automata::error::AutomataError;
use pixel_automata::sandpiles::{pixel_color, Pile, SandPiles, CENTER_HEIGHT, CLICK_HEIGHT, LINE_HEIGHT};

#[test]
fn pile_next_state_topples() {
    assert_eq!(Pile::new(3).next_state().grains, 3);
    assert_eq!(Pile::new(4).next_state().grains, 0);
    assert_eq!(Pile::new(9).next_state().grains, 5);
}

#[test]
fn pile_give_grain_at_threshold() {
    assert_eq!(Pile::new(0).give_grain(), 0);
    assert_eq!(Pile::new(3).give_grain(), 0);
    assert_eq!(Pile::new(4).give_grain(), 1);
    assert_eq!(Pile::new(u32::MAX).give_grain(), 1);
}

#[test]
fn pile_add_grains_saturates() {
    // Saturation holds: grain counts never exceed the representable
    // maximum, and never wrap.
    assert_eq!(Pile::new(10).add_grains(5).grains, 15);
    assert_eq!(Pile::new(u32::MAX).add_grains(1).grains, u32::MAX);
    assert_eq!(Pile::new(u32::MAX - 2).add_grains(10).grains, u32::MAX);
}

#[test]
fn sandpiles_rejects_bad_dims() {
    assert!(matches!(SandPiles::new_empty(0, 3), Err(AutomataError::InvalidDimensions)));
    assert!(matches!(SandPiles::new_center(3, 0), Err(AutomataError::InvalidDimensions)));
}

#[test]
fn sandpile_topple_wraps_left_edge() {
    // A toppling cell at (0, y) contributes one grain to (width - 1, y).
    let mut s = SandPiles::new_empty(3, 3).unwrap();
    assert!(s.set_grains(0, 1, 4));
    s.update();
    assert_eq!(s.get(2, 1).unwrap().grains, 1);
    assert_eq!(s.get(1, 1).unwrap().grains, 1);
    assert_eq!(s.get(0, 0).unwrap().grains, 1);
    assert_eq!(s.get(0, 2).unwrap().grains, 1);
    assert_eq!(s.get(0, 1).unwrap().grains, 0);
}

#[test]
fn sandpile_total_grains_conserved_on_torus() {
    // Without saturation a step conserves the total: every released grain
    // lands on a neighbour, wrapping included.
    let mut s = SandPiles::new_empty(4, 4).unwrap();
    assert!(s.set_grains(0, 0, 7));
    assert!(s.set_grains(3, 3, 5));
    assert!(s.set_grains(2, 1, 3));
    let total_before: u64 = grand_total(&s);
    for _ in 0..8 {
        s.update();
        assert_eq!(grand_total(&s), total_before);
    }
}

fn grand_total(s: &SandPiles) -> u64 {
    let mut total: u64 = 0;
    for y in 0..s.height() {
        for x in 0..s.width() {
            total += s.get(x, y).unwrap().grains as u64;
        }
    }
    total
}

#[test]
fn sandpile_center_pile_seeds_middle() {
    let s = SandPiles::new_center(9, 7).unwrap();
    for y in 0..7 {
        for x in 0..9 {
            let expect = if x == 4 && y == 3 { CENTER_HEIGHT } else { 0 };
            assert_eq!(s.get(x, y).unwrap().grains, expect);
        }
    }
}

#[test]
fn sandpile_center_line_leaves_margins() {
    let mut s = SandPiles::new_empty(100, 10).unwrap();
    s.center_line();
    for x in 0..100 {
        let expect = if x > 40 && x < 60 { LINE_HEIGHT } else { 0 };
        assert_eq!(s.get(x, 5).unwrap().grains, expect, "column {}", x);
        assert_eq!(s.get(x, 4).unwrap().grains, 0);
    }
}

#[test]
fn sandpile_center_line_on_narrow_lattice_is_empty() {
    let mut s = SandPiles::new_empty(40, 6).unwrap();
    s.center_line();
    assert_eq!(grand_total(&s), 0);
}

#[test]
fn sandpile_set_pile_and_clear() {
    let mut s = SandPiles::new_empty(5, 5).unwrap();
    assert!(s.set_pile(2, 3));
    assert_eq!(s.get(2, 3).unwrap().grains, CLICK_HEIGHT);
    // Out-of-range clicks are ignored but still report an active edit.
    assert!(s.set_pile(-1, 2));
    assert!(s.set_pile(5, 2));
    s.clear();
    assert_eq!(grand_total(&s), 0);
}

#[test]
fn sandpile_grid_idx_matches_layout() {
    let s = SandPiles::new_empty(6, 4).unwrap();
    assert_eq!(s.grid_idx(0, 0), Some(0));
    assert_eq!(s.grid_idx(5, 3), Some(23));
    assert_eq!(s.grid_idx(2, 1), Some(8));
    assert_eq!(s.grid_idx(6, 0), None);
    assert_eq!(s.grid_idx(0, 4), None);
    assert_eq!(s.grid_idx(-1, 0), None);
}

#[test]
fn sandpile_pixel_colors_exact() {
    assert_eq!(pixel_color(0), [0, 0, 0, 0xff]);
    assert_eq!(pixel_color(1), [50, 0, 80, 0xff]);
    assert_eq!(pixel_color(3), [150, 0, 240, 0xff]);
    assert_eq!(pixel_color(4), [0, 0xdd, 0xdd, 0xff]);
    assert_eq!(pixel_color(5), [0xff, 0xff, 0, 0xff]);
    assert_eq!(pixel_color(u32::MAX), [0xff, 0xff, 0, 0xff]);
}

#[test]
fn sandpile_draw_writes_every_pixel() {
    let mut s = SandPiles::new_empty(2, 2).unwrap();
    assert!(s.set_grains(1, 0, 2));
    let mut screen = vec![7u8; 16];
    s.draw(&mut screen);
    assert_eq!(&screen[0..4], &[0, 0, 0, 0xff]);
    assert_eq!(&screen[4..8], &[100, 0, 160, 0xff]);
    assert_eq!(&screen[8..12], &[0, 0, 0, 0xff]);
    assert_eq!(&screen[12..16], &[0, 0, 0, 0xff]);
}

#[test]
fn sandpile_set_line_stamps_click_height() {
    let mut s = SandPiles::new_empty(8, 8).unwrap();
    s.set_line(1, 1, 4, 1);
    for x in 1..=4 {
        assert_eq!(s.get(x, 1).unwrap().grains, CLICK_HEIGHT);
    }
    assert_eq!(s.get(0, 1).unwrap().grains, 0);
    assert_eq!(s.get(5, 1).unwrap().grains, 0);
}

#[test]
fn sandpile_randomize_with_seed_is_sparse_and_small() {
    let mut s = SandPiles::new_empty(32, 32).unwrap();
    s.randomize_with_seed(3, 9);
    let mut seeded: u32 = 0;
    for y in 0..32 {
        for x in 0..32 {
            let g = s.get(x, y).unwrap().grains;
            assert!(g < 64);
            if g > 0 {
                seeded += 1;
            }
        }
    }
    // Roughly 7% of 1024 cells; a fixed seed keeps this stable, and the
    // fill must be neither empty nor dense.
    assert!(seeded > 0 && seeded < 300);
    let mut t = SandPiles::new_empty(32, 32).unwrap();
    t.randomize_with_seed(3, 9);
    for y in 0..32 {
        for x in 0..32 {
            assert_eq!(s.get(x, y), t.get(x, y));
        }
    }
}
