use pixel_automata::raster::{rasterize_clipped, rasterize_line};
use pixel_automata::totalistic::Totalistic;

#[test]
fn degenerate_segment_yields_its_point() {
    // A zero-length segment rasterizes to exactly one coordinate: itself.
    let pts = rasterize_line(3, 4, 3, 4);
    assert_eq!(pts, vec![(3, 4)]);
    let pts = rasterize_line(-2, 0, -2, 0);
    assert_eq!(pts, vec![(-2, 0)]);
}

#[test]
fn line_endpoints_always_included() {
    for &(x0, y0, x1, y1) in
        &[(0, 0, 5, 6), (4, 1, -3, -2), (7, 7, 0, 7), (0, 9, 0, -9), (2, 3, 9, 5)] {
        let pts = rasterize_line(x0, y0, x1, y1);
        assert_eq!(pts[0], (x0, y0));
        assert_eq!(*pts.last().unwrap(), (x1, y1));
    }
}

#[test]
fn line_matches_reference_bresenham() {
    // Differential check against the line-drawing crate, over every small
    // segment in a window.
    for x0 in -4isize..=4 {
        for y0 in -4isize..=4 {
            for x1 in -4isize..=4 {
                for y1 in -4isize..=4 {
                    let mine = rasterize_line(x0, y0, x1, y1);
                    let theirs: Vec<(isize, isize)> =
                        line_drawing::Bresenham::new((x0, y0), (x1, y1)).collect();
                    assert_eq!(mine, theirs, "segment ({x0},{y0})-({x1},{y1})");
                }
            }
        }
    }
}

#[test]
fn line_matches_reference_bresenham_long() {
    let cases = [(0, 0, 360, 240), (-100, 50, 77, -3), (13, -250, -4, 111)];
    for &(x0, y0, x1, y1) in &cases {
        let mine = rasterize_line(x0, y0, x1, y1);
        let theirs: Vec<(isize, isize)> =
            line_drawing::Bresenham::new((x0, y0), (x1, y1)).collect();
        assert_eq!(mine, theirs);
    }
}

#[test]
fn clipped_line_stops_at_first_outside_point() {
    // A 5x5 lattice: the segment runs off the right edge; only the
    // in-bounds prefix is kept.
    let cells = rasterize_clipped(2, 2, 8, 2, 5, 5);
    assert_eq!(cells, vec![2 + 2 * 5, 3 + 2 * 5, 4 + 2 * 5]);
}

#[test]
fn clipped_line_fully_past_far_edge_is_empty() {
    // A line lying entirely at or beyond the far edge touches no cell: the
    // clamped start already sits on the edge, out of bounds.
    assert_eq!(rasterize_clipped(12, 3, 15, 3, 10, 10), Vec::<usize>::new());
    assert_eq!(rasterize_clipped(3, 12, 3, 15, 10, 10), Vec::<usize>::new());
    assert_eq!(rasterize_clipped(10, 0, 11, 0, 10, 10), Vec::<usize>::new());
}

#[test]
fn clipped_line_past_near_edge_touches_border() {
    // The other side behaves differently: clamping a start left of the
    // lattice lands on column 0, a valid cell, which is then drawn.
    let cells = rasterize_clipped(-5, 3, -2, 3, 10, 10);
    assert_eq!(cells, vec![0 + 3 * 10]);
}

#[test]
fn clipped_start_clamps_to_edge_not_last_cell() {
    // The start is clamped to width itself, one past the last valid
    // column, so a rightward drag from far off starts outside and draws
    // nothing, while a leftward drag enters at the edge.
    assert_eq!(rasterize_clipped(25, 4, 30, 4, 10, 10), Vec::<usize>::new());
    let entering = rasterize_clipped(25, 4, 5, 4, 10, 10);
    // Clamped start (10, 4) is out of bounds, so even the entering drag
    // stops immediately.
    assert_eq!(entering, Vec::<usize>::new());
}

#[test]
fn set_line_consumes_only_until_exit() {
    // Drawing mirrors the clipped rasterization: cells are set up to the
    // lattice edge and the line is abandoned there, even if it would
    // re-enter on the torus.
    let mut t = Totalistic::new_empty(6, 6, 0).unwrap();
    t.set_line(4, 2, 9, 2, true);
    assert_eq!(t.get(4, 2), Some(true));
    assert_eq!(t.get(5, 2), Some(true));
    assert_eq!(t.get(0, 2), Some(false));
    let mut live: u32 = 0;
    for y in 0..6 {
        for x in 0..6 {
            if t.get(x, y) == Some(true) {
                live += 1;
            }
        }
    }
    assert_eq!(live, 2);
}
