use pixel_automata::error::AutomataError;
use pixel_automata::totalistic::{OuterTotalistic, OuterTotalisticRule, Totalistic, TotalisticRule};

#[test]
fn totalistic_rule_code_bounds() {
    assert!(TotalisticRule::new(0).is_ok());
    assert!(TotalisticRule::new(511).is_ok());
    assert!(matches!(TotalisticRule::new(512), Err(AutomataError::InvalidRuleCode)));
    assert!(matches!(TotalisticRule::new(u32::MAX), Err(AutomataError::InvalidRuleCode)));
}

#[test]
fn outer_totalistic_rule_code_bounds() {
    assert!(OuterTotalisticRule::new(0).is_ok());
    assert!(OuterTotalisticRule::new(262143).is_ok());
    assert!(matches!(OuterTotalisticRule::new(262144), Err(AutomataError::InvalidRuleCode)));
}

#[test]
fn totalistic_rule_table_is_code_bits() {
    // Code 0b100000010: live on neighbour counts 1 and 8.
    let rule = TotalisticRule::new(0b100000010).unwrap();
    for count in 0..=8u32 {
        assert_eq!(rule.next(count), count == 1 || count == 8);
    }
}

#[test]
fn totalistic_rule_zero_kills_every_count() {
    // The all-dead rule: for rule code 0 the next state is false whatever
    // the neighbour sum, for any single step.
    let rule = TotalisticRule::new(0).unwrap();
    for count in 0..=8u32 {
        assert!(!rule.next(count));
    }
}

#[test]
fn totalistic_engine_rejects_bad_dims() {
    assert!(matches!(Totalistic::new_empty(0, 4, 1), Err(AutomataError::InvalidDimensions)));
    assert!(matches!(Totalistic::new_empty(4, 4, 512), Err(AutomataError::InvalidRuleCode)));
}

#[test]
fn totalistic_rule_zero_scenario() {
    // A 3x3 toroidal lattice, rule code 0 (all-false table), single live
    // cell at (1, 1): after one step every cell is dead.
    let mut t = Totalistic::new_empty(3, 3, 0).unwrap();
    assert!(t.set(1, 1, true));
    t.update();
    for y in 0..3 {
        for x in 0..3 {
            assert_eq!(t.get(x, y), Some(false));
        }
    }
}

#[test]
fn totalistic_neighbor_count_rule_step() {
    // Rule code 2: a cell is live next exactly when it has one live
    // neighbour.  On a 3x3 torus every cell neighbours every other, so the
    // single live cell dies (0 neighbours) and all others come alive.
    let mut t = Totalistic::new_empty(3, 3, 2).unwrap();
    assert!(t.set(0, 0, true));
    t.update();
    for y in 0..3 {
        for x in 0..3 {
            let expect = !(x == 0 && y == 0);
            assert_eq!(t.get(x, y), Some(expect), "cell ({}, {})", x, y);
        }
    }
}

#[test]
fn totalistic_count_neibs_wraps() {
    let mut t = Totalistic::new_empty(4, 4, 0).unwrap();
    assert!(t.set(3, 3, true));
    // (0, 0) sees (3, 3) across both wrapped edges.
    assert_eq!(t.count_neibs(0, 0), 1);
    assert_eq!(t.count_neibs(2, 2), 1);
    assert_eq!(t.count_neibs(1, 1), 0);
}

#[test]
fn totalistic_toggle_and_clear() {
    let mut t = Totalistic::new_empty(4, 4, 0).unwrap();
    assert_eq!(t.toggle(2, 1), true);
    assert_eq!(t.get(2, 1), Some(true));
    assert_eq!(t.toggle(2, 1), false);
    assert_eq!(t.get(2, 1), Some(false));
    // Out-of-range edits are ignored and reported dead.
    assert_eq!(t.toggle(-1, 0), false);
    assert_eq!(t.toggle(4, 0), false);
    t.toggle(0, 0);
    t.clear();
    for y in 0..4 {
        for x in 0..4 {
            assert_eq!(t.get(x, y), Some(false));
        }
    }
}

#[test]
fn outer_totalistic_blinker_oscillates() {
    // Conway's Life as an outer-totalistic code: birth on 3 (bit 3),
    // survival on 2 or 3 (bits 9+2 and 9+3).
    let life: u32 = (1 << 3) | (1 << 11) | (1 << 12);
    let mut t = OuterTotalistic::new_empty(5, 5, life).unwrap();
    assert!(t.set(2, 1, true));
    assert!(t.set(2, 2, true));
    assert!(t.set(2, 3, true));
    t.update();
    // The vertical blinker flips horizontal.
    for y in 0..5 {
        for x in 0..5 {
            let expect = y == 2 && (1..=3).contains(&x);
            assert_eq!(t.get(x, y), Some(expect), "cell ({}, {})", x, y);
        }
    }
    t.update();
    // And back again.
    for y in 0..5 {
        for x in 0..5 {
            let expect = x == 2 && (1..=3).contains(&y);
            assert_eq!(t.get(x, y), Some(expect), "cell ({}, {})", x, y);
        }
    }
}

#[test]
fn totalistic_set_line_draws_diagonal() {
    let mut t = Totalistic::new_empty(8, 8, 0).unwrap();
    t.set_line(0, 0, 3, 3, true);
    for i in 0..4usize {
        assert_eq!(t.get(i, i), Some(true));
    }
    assert_eq!(t.get(4, 4), Some(false));
    assert_eq!(t.get(1, 0), Some(false));
}

#[test]
fn totalistic_randomize_with_seed_is_deterministic() {
    let mut a = Totalistic::new_empty(16, 16, 0).unwrap();
    let mut b = Totalistic::new_empty(16, 16, 0).unwrap();
    a.randomize_with_seed(11, 22);
    b.randomize_with_seed(11, 22);
    let mut live: u32 = 0;
    for y in 0..16 {
        for x in 0..16 {
            assert_eq!(a.get(x, y), b.get(x, y));
            if a.get(x, y) == Some(true) {
                live += 1;
            }
        }
    }
    // A fair-coin fill of 256 cells is all-live or all-dead only with
    // vanishing probability; a fixed seed makes this deterministic.
    assert!(live > 0 && live < 256);
}

#[test]
fn totalistic_randomize_from_entropy() {
    let mut t = Totalistic::new_empty(8, 8, 0).unwrap();
    assert!(t.randomize().is_ok());
}
