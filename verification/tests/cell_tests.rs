use pixel_automata::cell::Cell;

#[test]
fn cell_new_and_accessors() {
    let c = Cell::new(true, 7);
    assert!(c.alive);
    assert_eq!(c.value, 7);
}

#[test]
fn cell_default_is_dead_zero() {
    let c = Cell::default();
    assert!(!c.alive);
    assert_eq!(c.value, 0);
}

#[test]
fn cell_set_value_keeps_liveness() {
    let mut c = Cell::new(true, 1);
    c.set_value(9);
    assert!(c.alive);
    assert_eq!(c.value, 9);
}

#[test]
fn cell_set_alive_keeps_value() {
    let mut c = Cell::new(false, 3);
    c.set_alive(true);
    assert!(c.alive);
    assert_eq!(c.value, 3);
}

#[test]
fn cell_toggle_flips_liveness() {
    let mut c = Cell::new(false, 2);
    c.toggle();
    assert!(c.alive);
    c.toggle();
    assert!(!c.alive);
    assert_eq!(c.value, 2);
}

#[test]
fn cell_update_neibs_looks_up_table() {
    let mut rule = [false; 9];
    rule[3] = true;
    let c = Cell::new(false, 5);
    assert!(c.update_neibs(3, rule).alive);
    assert!(!c.update_neibs(2, rule).alive);
    assert_eq!(c.update_neibs(3, rule).value, 5);
}
