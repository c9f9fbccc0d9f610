use pixel_automata::elementary::{bw_color, Cell, Rule110};
use pixel_automata::error::AutomataError;

#[test]
fn rule110_table_matches_literal_values() {
    // The literal Rule-110 table, checked triple by triple:
    // (T,T,T)->F, (T,T,F)->T, (T,F,T)->T, (T,F,F)->F,
    // (F,T,T)->T, (F,T,F)->T, (F,F,T)->T, (F,F,F)->F.
    let table = [
        ((true, true, true), false),
        ((true, true, false), true),
        ((true, false, true), true),
        ((true, false, false), false),
        ((false, true, true), true),
        ((false, true, false), true),
        ((false, false, true), true),
        ((false, false, false), false),
    ];
    for (triple, expect) in table {
        assert_eq!(Cell::new(false).next_state(triple).alive, expect, "{:?}", triple);
        assert_eq!(Cell::new(true).next_state(triple).alive, expect, "{:?}", triple);
    }
}

#[test]
fn rule110_rows_follow_table_from_fixed_first_row() {
    // Width 3, each column of the active row reads a wrapped triple from
    // the row above.  First row (T, F, F): column 0 reads (F, T, F) -> T,
    // column 1 reads (T, F, F) -> F, column 2 reads (F, F, T) -> T.
    let mut a = Rule110::new_empty(3, 3).unwrap();
    assert!(a.toggle(0, 0));
    a.update();
    assert_eq!(a.get(0, 1), Some(Cell { alive: true }));
    assert_eq!(a.get(1, 1), Some(Cell { alive: false }));
    assert_eq!(a.get(2, 1), Some(Cell { alive: true }));
    // The first row is untouched.
    assert_eq!(a.get(0, 0), Some(Cell { alive: true }));
    assert_eq!(a.get(1, 0), Some(Cell { alive: false }));
}

#[test]
fn rule110_each_triple_via_engine() {
    // Every one of the 8 triples, driven through a full engine step: the
    // centre column of row 1 reads exactly the first-row pattern.
    let expected = [false, true, true, false, true, true, true, false];
    for code in 0..8usize {
        let a_bit = code & 4 != 0;
        let b_bit = code & 2 != 0;
        let c_bit = code & 1 != 0;
        let mut eng = Rule110::new_empty(3, 2).unwrap();
        if a_bit {
            eng.toggle(0, 0);
        }
        if b_bit {
            eng.toggle(1, 0);
        }
        if c_bit {
            eng.toggle(2, 0);
        }
        eng.update();
        assert_eq!(
            eng.get(1, 1),
            Some(Cell { alive: expected[7 - code] }),
            "triple ({}, {}, {})",
            a_bit,
            b_bit,
            c_bit
        );
    }
}

#[test]
fn rule110_frontier_advances_and_freezes() {
    let mut a = Rule110::new_empty(4, 3).unwrap();
    assert_eq!(a.active_row_index(), 1);
    a.update();
    assert_eq!(a.active_row_index(), 2);
    a.update();
    // Advancing past the last row freezes the sweep at row 0.
    assert_eq!(a.active_row_index(), 0);
    // Frozen steps are no-ops.
    a.toggle(0, 0);
    a.update();
    assert_eq!(a.active_row_index(), 0);
    assert_eq!(a.get(0, 0), Some(Cell { alive: true }));
}

#[test]
fn rule110_clear_resets_frontier() {
    let mut a = Rule110::new_empty(4, 4).unwrap();
    a.toggle(0, 0);
    a.update();
    a.clear();
    assert_eq!(a.active_row_index(), 1);
    for y in 0..4 {
        for x in 0..4 {
            assert_eq!(a.get(x, y), Some(Cell { alive: false }));
        }
    }
}

#[test]
fn rule110_new_random_randomizes_first_row_only() {
    let a = Rule110::new_random(64, 8).unwrap();
    assert_eq!(a.active_row_index(), 1);
    for y in 1..8 {
        for x in 0..64 {
            assert_eq!(a.get(x, y), Some(Cell { alive: false }));
        }
    }
}

#[test]
fn rule110_randomize_with_seed_is_deterministic() {
    let mut a = Rule110::new_empty(64, 4).unwrap();
    let mut b = Rule110::new_empty(64, 4).unwrap();
    a.randomize_with_seed(5, 6);
    b.randomize_with_seed(5, 6);
    let mut live: u32 = 0;
    for x in 0..64 {
        assert_eq!(a.get(x, 0), b.get(x, 0));
        if a.get(x, 0).unwrap().alive {
            live += 1;
        }
    }
    assert!(live > 0 && live < 64);
}

#[test]
fn rule110_rejects_bad_dims() {
    assert!(matches!(Rule110::new_empty(0, 1), Err(AutomataError::InvalidDimensions)));
}

#[test]
fn rule110_set_line_sets_alive_regardless_of_flag() {
    let mut a = Rule110::new_empty(8, 8).unwrap();
    a.set_line(2, 2, 5, 2, false);
    for x in 2..=5 {
        assert_eq!(a.get(x, 2), Some(Cell { alive: true }));
    }
}

#[test]
fn binary_colors_exact() {
    assert_eq!(bw_color(true), [0xff, 0xff, 0xff, 0xff]);
    assert_eq!(bw_color(false), [0, 0, 0, 0xff]);
}

#[test]
fn rule110_draw_paints_live_white() {
    let mut a = Rule110::new_empty(2, 2).unwrap();
    a.toggle(1, 0);
    let mut screen = vec![0u8; 16];
    a.draw(&mut screen);
    assert_eq!(&screen[0..4], &[0, 0, 0, 0xff]);
    assert_eq!(&screen[4..8], &[0xff, 0xff, 0xff, 0xff]);
}
