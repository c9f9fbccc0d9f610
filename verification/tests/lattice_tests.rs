use pixel_automata::error::AutomataError;
use pixel_automata::lattice::Lattice;

#[test]
fn lattice_rejects_zero_width() {
    let r = Lattice::<bool>::new(0, 5, false);
    assert!(matches!(r, Err(AutomataError::InvalidDimensions)));
}

#[test]
fn lattice_rejects_zero_height() {
    let r = Lattice::<bool>::new(5, 0, false);
    assert!(matches!(r, Err(AutomataError::InvalidDimensions)));
}

#[test]
fn lattice_rejects_overflowing_product() {
    let r = Lattice::<bool>::new(usize::MAX, 2, false);
    assert!(matches!(r, Err(AutomataError::InvalidDimensions)));
}

#[test]
fn lattice_new_fills_cells() {
    let l = Lattice::<u32>::new(4, 3, 7).unwrap();
    assert_eq!(l.width(), 4);
    assert_eq!(l.height(), 3);
    assert_eq!(l.len(), 12);
    for y in 0..3 {
        for x in 0..4 {
            assert_eq!(l.get(x, y), Some(7));
        }
    }
}

#[test]
fn lattice_get_set_bounds_checked() {
    let mut l = Lattice::<u32>::new(3, 3, 0).unwrap();
    assert!(l.set(1, 2, 9));
    assert_eq!(l.get(1, 2), Some(9));
    assert!(!l.set(3, 0, 9));
    assert!(!l.set(0, 3, 9));
    assert_eq!(l.get(3, 0), None);
    assert_eq!(l.get(0, 3), None);
}

#[test]
fn lattice_index_is_row_major_bijection() {
    // Every coordinate pair of a 4x3 lattice maps to a distinct address in
    // [0, 12), hitting each address exactly once.
    let l = Lattice::<bool>::new(4, 3, false).unwrap();
    let mut seen = [false; 12];
    for y in 0..3 {
        for x in 0..4 {
            let i = l.index_of(x, y);
            assert!(i < 12);
            assert!(!seen[i]);
            seen[i] = true;
            assert_eq!(i, x + y * 4);
        }
    }
    assert!(seen.iter().all(|&b| b));
}

#[test]
fn lattice_neighbor_index_wraps_toroidally() {
    let l = Lattice::<bool>::new(3, 3, false).unwrap();
    // Up-left of the origin wraps to the far corner.
    assert_eq!(l.neighbor_index(0, 0, -1, -1), 2 + 2 * 3);
    // Right of the last column wraps to column 0.
    assert_eq!(l.neighbor_index(2, 1, 1, 0), 0 + 1 * 3);
    // Below the last row wraps to row 0.
    assert_eq!(l.neighbor_index(1, 2, 0, 1), 1 + 0 * 3);
    // A zero offset is the cell itself.
    assert_eq!(l.neighbor_index(1, 1, 0, 0), 1 + 1 * 3);
}

#[test]
fn lattice_neighbor_index_always_in_range() {
    // Toroidal closure: every offset in {-1, 0, 1}^2 of every cell lands on
    // a valid address.
    let l = Lattice::<bool>::new(5, 4, false).unwrap();
    for y in 0..4 {
        for x in 0..5 {
            for dy in -1..=1 {
                for dx in -1..=1 {
                    let i = l.neighbor_index(x, y, dx, dy);
                    assert!(i < 20);
                }
            }
        }
    }
}

#[test]
fn lattice_neighbor_wraps_on_single_column() {
    // On a 1-wide lattice a horizontal offset wraps straight back to the
    // same column.
    let l = Lattice::<bool>::new(1, 3, false).unwrap();
    assert_eq!(l.neighbor_index(0, 1, 1, 0), 0 + 1 * 1);
    assert_eq!(l.neighbor_index(0, 1, -1, 0), 0 + 1 * 1);
}

#[test]
fn lattice_swap_buffers_exchanges_contents() {
    let mut l = Lattice::<u32>::new(2, 2, 1).unwrap();
    l.set(0, 0, 5);
    l.swap_buffers();
    // The scratch buffer still holds the construction fill.
    assert_eq!(l.get(0, 0), Some(1));
    l.swap_buffers();
    assert_eq!(l.get(0, 0), Some(5));
}

#[test]
fn lattice_fill_overwrites_all() {
    let mut l = Lattice::<u32>::new(3, 2, 0).unwrap();
    l.set(2, 1, 8);
    l.fill(4);
    for y in 0..2 {
        for x in 0..3 {
            assert_eq!(l.get(x, y), Some(4));
        }
    }
}
