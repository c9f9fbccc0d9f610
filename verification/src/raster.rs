use vstd::prelude::*;

verus! {

/// The largest coordinate magnitude the rasterizer accepts: intermediate
/// Bresenham arithmetic on coordinates up to this bound fits a pointer-size
/// signed integer even on 32-bit targets.  Pointer input that strays this
/// far off a lattice carries no drawing intent anyway.
pub const COORD_LIMIT: isize = 268435456;

/// The octant transform of a line: a value from 0 to 7 selecting the
/// sign-flip-and-swap that maps the segment into the octant where it runs
/// rightward, upward, and no steeper than the diagonal.
pub open spec fn spec_octant(x0: int, y0: int, x1: int, y1: int) -> int {
    let dx0 = x1 - x0;
    let dy0 = y1 - y0;
    let dx1 = if dy0 < 0 {
        -dx0
    } else {
        dx0
    };
    let dy1 = if dy0 < 0 {
        -dy0
    } else {
        dy0
    };
    let v1 = if dy0 < 0 {
        4int
    } else {
        0int
    };
    let dx2 = if dx1 < 0 {
        dy1
    } else {
        dx1
    };
    let dy2 = if dx1 < 0 {
        -dx1
    } else {
        dy1
    };
    let v2 = if dx1 < 0 {
        v1 + 2
    } else {
        v1
    };
    if dx2 < dy2 {
        v2 + 1
    } else {
        v2
    }
}

/// Maps a point into its octant's coordinate frame.
pub open spec fn spec_oct_to(v: int, p: (int, int)) -> (int, int) {
    if v == 0 {
        (p.0, p.1)
    } else if v == 1 {
        (p.1, p.0)
    } else if v == 2 {
        (p.1, -p.0)
    } else if v == 3 {
        (-p.0, p.1)
    } else if v == 4 {
        (-p.0, -p.1)
    } else if v == 5 {
        (-p.1, -p.0)
    } else if v == 6 {
        (-p.1, p.0)
    } else {
        (p.0, -p.1)
    }
}

/// Maps a point back out of its octant's coordinate frame.
pub open spec fn spec_oct_from(v: int, p: (int, int)) -> (int, int) {
    if v == 0 {
        (p.0, p.1)
    } else if v == 1 {
        (p.1, p.0)
    } else if v == 2 {
        (-p.1, p.0)
    } else if v == 3 {
        (-p.0, p.1)
    } else if v == 4 {
        (-p.0, -p.1)
    } else if v == 5 {
        (-p.1, -p.0)
    } else if v == 6 {
        (p.1, -p.0)
    } else {
        (p.0, -p.1)
    }
}

/// The two octant maps are inverse to each other.
pub proof fn lemma_oct_roundtrip(v: int, p: (int, int))
    requires
        0 <= v < 8,
    ensures
        spec_oct_from(v, spec_oct_to(v, p)) == p,
        spec_oct_to(v, spec_oct_from(v, p)) == p,
{
}

/// The point sequence of the Bresenham walk in octant coordinates, mapped
/// back out: starting at `(x, y)` with error term `err`, one point per
/// column up to and including `end_x`, stepping up whenever the error is
/// non-negative.
pub open spec fn spec_bres_steps(
    v: int,
    x: int,
    y: int,
    err: int,
    end_x: int,
    dx: int,
    dy: int,
) -> Seq<(int, int)>
    decreases (if x <= end_x {
        end_x + 1 - x
    } else {
        0int
    }),
{
    if x > end_x {
        Seq::empty()
    } else {
        let p = spec_oct_from(v, (x, y));
        let ny = if err >= 0 {
            y + 1
        } else {
            y
        };
        let nerr = if err >= 0 {
            err - dx + dy
        } else {
            err + dy
        };
        seq![p] + spec_bres_steps(v, x + 1, ny, nerr, end_x, dx, dy)
    }
}

/// The full point sequence of the segment from `(x0, y0)` to `(x1, y1)`:
/// integer Bresenham stepping, both endpoints included, no anti-aliasing.
pub open spec fn spec_line_points(x0: int, y0: int, x1: int, y1: int) -> Seq<(int, int)> {
    let v = spec_octant(x0, y0, x1, y1);
    let s = spec_oct_to(v, (x0, y0));
    let e = spec_oct_to(v, (x1, y1));
    let dx = e.0 - s.0;
    let dy = e.1 - s.1;
    spec_bres_steps(v, s.0, s.1, dy - dx, e.0, dx, dy)
}

/// The octant transform is well-formed: the value is an octant, and the
/// transformed segment runs rightward, upward, and no steeper than the
/// diagonal.
pub proof fn lemma_octant_props(x0: int, y0: int, x1: int, y1: int)
    ensures
        ({
            let v = spec_octant(x0, y0, x1, y1);
            let s = spec_oct_to(v, (x0, y0));
            let e = spec_oct_to(v, (x1, y1));
            &&& 0 <= v < 8
            &&& 0 <= e.1 - s.1
            &&& e.1 - s.1 <= e.0 - s.0
        }),
{
}

/// The walk is never empty and starts exactly at its start point.
pub proof fn lemma_bres_steps_first(v: int, x: int, y: int, err: int, end_x: int, dx: int, dy: int)
    requires
        x <= end_x,
    ensures
        spec_bres_steps(v, x, y, err, end_x, dx, dy).len() >= 1,
        spec_bres_steps(v, x, y, err, end_x, dx, dy)[0] == spec_oct_from(v, (x, y)),
{
}

/// The walk yields one point per column.
pub proof fn lemma_bres_steps_len(v: int, x: int, y: int, err: int, end_x: int, dx: int, dy: int)
    ensures
        spec_bres_steps(v, x, y, err, end_x, dx, dy).len() == (if x <= end_x {
            end_x + 1 - x
        } else {
            0
        }),
    decreases (if x <= end_x {
        end_x + 1 - x
    } else {
        0int
    }),
{
    if x <= end_x {
        let ny = if err >= 0 {
            y + 1
        } else {
            y
        };
        let nerr = if err >= 0 {
            err - dx + dy
        } else {
            err + dy
        };
        lemma_bres_steps_len(v, x + 1, ny, nerr, end_x, dx, dy);
    }
}

/// A line's point sequence: never empty, one point per major-axis column,
/// and it begins at the start point.
pub proof fn lemma_line_points_first(x0: int, y0: int, x1: int, y1: int)
    ensures
        spec_line_points(x0, y0, x1, y1).len() >= 1,
        spec_line_points(x0, y0, x1, y1)[0] == (x0, y0),
{
    lemma_octant_props(x0, y0, x1, y1);
    let v = spec_octant(x0, y0, x1, y1);
    let s = spec_oct_to(v, (x0, y0));
    let e = spec_oct_to(v, (x1, y1));
    lemma_bres_steps_first(v, s.0, s.1, (e.1 - s.1) - (e.0 - s.0), e.0, e.0 - s.0, e.1 - s.1);
    lemma_oct_roundtrip(v, (x0, y0));
}

/// The walk ends exactly on its target: the error term keeps the running
/// row within one accumulated step of the ideal line, so the final column
/// lands on the target row.
proof fn lemma_bres_steps_last(
    v: int,
    x: int,
    y: int,
    err: int,
    end_x: int,
    ey: int,
    dx: int,
    dy: int,
)
    requires
        0 <= dy <= dx,
        1 <= dx,
        x <= end_x,
        err == dy - dx - (end_x - x) * dy + (ey - y) * dx,
        dy - dx <= err <= dy - 1,
    ensures
        spec_bres_steps(v, x, y, err, end_x, dx, dy).last() == spec_oct_from(v, (end_x, ey)),
    decreases end_x - x,
{
    let ny = if err >= 0 {
        y + 1
    } else {
        y
    };
    let nerr = if err >= 0 {
        err - dx + dy
    } else {
        err + dy
    };
    if x == end_x {
        assert((end_x - x) * dy == 0) by (nonlinear_arith)
            requires
                end_x == x,
        ;
        assert(0 <= (ey - y) * dx <= dx - 1);
        assert(ey == y) by (nonlinear_arith)
            requires
                0 <= (ey - y) * dx <= dx - 1,
                1 <= dx,
        ;
        assert(spec_bres_steps(v, x + 1, ny, nerr, end_x, dx, dy) =~= Seq::<(int, int)>::empty());
    } else {
        assert((end_x - (x + 1)) * dy == (end_x - x) * dy - dy) by (nonlinear_arith);
        assert((ey - (y + 1)) * dx == (ey - y) * dx - dx) by (nonlinear_arith);
        lemma_bres_steps_last(v, x + 1, ny, nerr, end_x, ey, dx, dy);
        lemma_bres_steps_len(v, x + 1, ny, nerr, end_x, dx, dy);
    }
}

/// Both endpoints are included: the point sequence of a segment ends at
/// the segment's far endpoint.
pub proof fn lemma_line_points_last(x0: int, y0: int, x1: int, y1: int)
    ensures
        spec_line_points(x0, y0, x1, y1).last() == (x1, y1),
{
    lemma_octant_props(x0, y0, x1, y1);
    let v = spec_octant(x0, y0, x1, y1);
    let s = spec_oct_to(v, (x0, y0));
    let e = spec_oct_to(v, (x1, y1));
    let dx = e.0 - s.0;
    let dy = e.1 - s.1;
    lemma_oct_roundtrip(v, (x1, y1));
    if dx == 0 {
        assert(dy == 0);
        assert(spec_bres_steps(v, s.0 + 1, s.1 + 1, 0, s.0, 0, 0) =~= Seq::<(int, int)>::empty());
    } else {
        assert(dy - dx == dy - dx - (e.0 - s.0) * dy + (e.1 - s.1) * dx) by (nonlinear_arith)
            requires
                dx == e.0 - s.0,
                dy == e.1 - s.1,
        ;
        lemma_bres_steps_last(v, s.0, s.1, dy - dx, e.0, e.1, dx, dy);
    }
}

/// A degenerate segment rasterizes to exactly its one point.
pub proof fn lemma_line_single_point(x: int, y: int)
    ensures
        spec_line_points(x, y, x, y) == seq![(x, y)],
{
    lemma_line_points_first(x, y, x, y);
    lemma_octant_props(x, y, x, y);
    let v = spec_octant(x, y, x, y);
    let s = spec_oct_to(v, (x, y));
    assert(spec_bres_steps(v, s.0, s.1, 0, s.0, 0, 0) == seq![spec_oct_from(v, (s.0, s.1))]
        + spec_bres_steps(v, s.0 + 1, s.1 + 1, 0, s.0, 0, 0));
    assert(spec_line_points(x, y, x, y) =~= seq![(x, y)]);
}

/// Clamps a coordinate into `[0, hi]`.  Note the upper bound is `hi`
/// itself, one past the last valid cell index: the start of a drawn line is
/// clamped onto the lattice's far edge, not its last cell.
pub open spec fn spec_clamp(v: int, hi: int) -> int {
    if v < 0 {
        0
    } else if v > hi {
        hi
    } else {
        v
    }
}

/// Whether a point is a valid cell coordinate of a `w` by `h` lattice.
pub open spec fn spec_in_bounds(p: (int, int), w: int, h: int) -> bool {
    0 <= p.0 < w && 0 <= p.1 < h
}

/// How many leading points of the sequence are in bounds: consumption of a
/// rasterized line stops at the first point that leaves the lattice.
pub open spec fn spec_clip_len(pts: Seq<(int, int)>, w: int, h: int) -> int
    decreases pts.len(),
{
    if pts.len() == 0 {
        0int
    } else if !spec_in_bounds(pts[0], w, h) {
        0int
    } else {
        1 + spec_clip_len(pts.skip(1), w, h)
    }
}

/// The clip length is a prefix length, and everything before it is in
/// bounds while the point at it (if any) is not.
pub proof fn lemma_clip_len_props(pts: Seq<(int, int)>, w: int, h: int)
    ensures
        0 <= spec_clip_len(pts, w, h) <= pts.len(),
        forall|j: int| 0 <= j < spec_clip_len(pts, w, h) ==> spec_in_bounds(#[trigger] pts[j], w, h),
        spec_clip_len(pts, w, h) < pts.len() ==> !spec_in_bounds(
            pts[spec_clip_len(pts, w, h)],
            w,
            h,
        ),
    decreases pts.len(),
{
    if pts.len() != 0 && spec_in_bounds(pts[0], w, h) {
        lemma_clip_len_props(pts.skip(1), w, h);
        let k = spec_clip_len(pts, w, h);
        assert forall|j: int| 0 <= j < k implies spec_in_bounds(#[trigger] pts[j], w, h) by {
            if j > 0 {
                assert(pts.skip(1)[j - 1] == pts[j]);
            }
        }
        if k < pts.len() {
            assert(pts.skip(1)[k - 1] == pts[k]);
        }
    }
}

/// The flat cell addresses a drawn line touches, in drawing order: the
/// start point is clamped into `[0, w] x [0, h]`, the segment is
/// rasterized, and points are consumed until the first one off the lattice.
pub open spec fn spec_line_cells(x0: int, y0: int, x1: int, y1: int, w: int, h: int) -> Seq<int> {
    let pts = spec_line_points(spec_clamp(x0, w), spec_clamp(y0, h), x1, y1);
    Seq::new(spec_clip_len(pts, w, h) as nat, |j: int| pts[j].0 + pts[j].1 * w)
}

/// A line that lies entirely at or beyond the lattice's far edge touches no
/// cell: its clamped start already sits on the edge, out of bounds, so the
/// very first point stops consumption.  (A line beyond the near edge is
/// clamped onto column or row 0, which is a valid cell, and may touch it.)
pub proof fn lemma_line_outside_far_edge(x0: int, y0: int, x1: int, y1: int, w: int, h: int)
    requires
        0 < w,
        0 < h,
        (x0 >= w && x1 >= w) || (y0 >= h && y1 >= h),
    ensures
        spec_line_cells(x0, y0, x1, y1, w, h).len() == 0,
{
    let cx = spec_clamp(x0, w);
    let cy = spec_clamp(y0, h);
    let pts = spec_line_points(cx, cy, x1, y1);
    lemma_line_points_first(cx, cy, x1, y1);
    assert(pts[0] == (cx, cy));
    if x0 >= w && x1 >= w {
        assert(cx == w);
        assert(!spec_in_bounds(pts[0], w, h));
    } else {
        assert(cy == h);
        assert(!spec_in_bounds(pts[0], w, h));
    }
    assert(spec_clip_len(pts, w, h) == 0);
}

/// The octant of a segment, computed as its transform value.
fn octant_of(x0: isize, y0: isize, x1: isize, y1: isize) -> (v: u8)
    requires
        -COORD_LIMIT <= x0 <= COORD_LIMIT,
        -COORD_LIMIT <= y0 <= COORD_LIMIT,
        -COORD_LIMIT <= x1 <= COORD_LIMIT,
        -COORD_LIMIT <= y1 <= COORD_LIMIT,
    ensures
        v < 8,
        v as int == spec_octant(x0 as int, y0 as int, x1 as int, y1 as int),
{
    let mut value: u8 = 0;
    let mut dx: isize = x1 - x0;
    let mut dy: isize = y1 - y0;
    if dy < 0 {
        dx = -dx;
        dy = -dy;
        value = value + 4;
    }
    if dx < 0 {
        let tmp = dx;
        dx = dy;
        dy = -tmp;
        value = value + 2;
    }
    if dx < dy {
        value = value + 1;
    }
    value
}

/// Maps a point into its octant's coordinate frame.
fn oct_to_point(v: u8, px: isize, py: isize) -> (r: (isize, isize))
    requires
        v < 8,
        -536870912 <= px <= 536870912,
        -536870912 <= py <= 536870912,
    ensures
        (r.0 as int, r.1 as int) == spec_oct_to(v as int, (px as int, py as int)),
        -536870912 <= r.0 <= 536870912,
        -536870912 <= r.1 <= 536870912,
{
    if v == 0 {
        (px, py)
    } else if v == 1 {
        (py, px)
    } else if v == 2 {
        (py, -px)
    } else if v == 3 {
        (-px, py)
    } else if v == 4 {
        (-px, -py)
    } else if v == 5 {
        (-py, -px)
    } else if v == 6 {
        (-py, px)
    } else {
        (px, -py)
    }
}

/// Maps a point back out of its octant's coordinate frame.
fn oct_from_point(v: u8, px: isize, py: isize) -> (r: (isize, isize))
    requires
        v < 8,
        -536870912 <= px <= 536870912,
        -536870912 <= py <= 536870912,
    ensures
        (r.0 as int, r.1 as int) == spec_oct_from(v as int, (px as int, py as int)),
        -536870912 <= r.0 <= 536870912,
        -536870912 <= r.1 <= 536870912,
{
    if v == 0 {
        (px, py)
    } else if v == 1 {
        (py, px)
    } else if v == 2 {
        (-py, px)
    } else if v == 3 {
        (-px, py)
    } else if v == 4 {
        (-px, -py)
    } else if v == 5 {
        (-py, -px)
    } else if v == 6 {
        (py, -px)
    } else {
        (px, -py)
    }
}

/// Digitizes the segment from `(x0, y0)` to `(x1, y1)` into the finite
/// sequence of lattice coordinates that integer Bresenham stepping visits,
/// both endpoints included.
#[verifier::rlimit(100)]
pub fn rasterize_line(x0: isize, y0: isize, x1: isize, y1: isize) -> (r: Vec<(isize, isize)>)
    requires
        -COORD_LIMIT <= x0 <= COORD_LIMIT,
        -COORD_LIMIT <= y0 <= COORD_LIMIT,
        -COORD_LIMIT <= x1 <= COORD_LIMIT,
        -COORD_LIMIT <= y1 <= COORD_LIMIT,
    ensures
        ({
            let pts = spec_line_points(x0 as int, y0 as int, x1 as int, y1 as int);
            &&& r@.len() == pts.len()
            &&& forall|j: int|
                0 <= j < r@.len() ==> (#[trigger] r@[j].0 as int, r@[j].1 as int) == pts[j]
        }),
{
    let ghost pts = spec_line_points(x0 as int, y0 as int, x1 as int, y1 as int);
    proof {
        lemma_octant_props(x0 as int, y0 as int, x1 as int, y1 as int);
    }
    let v = octant_of(x0, y0, x1, y1);
    let s = oct_to_point(v, x0, y0);
    let e = oct_to_point(v, x1, y1);
    let sx = s.0;
    let sy = s.1;
    let ex = e.0;
    let ey = e.1;
    let dx: isize = ex - sx;
    let dy: isize = ey - sy;
    let mut x: isize = sx;
    let mut y: isize = sy;
    let mut err: isize = dy - dx;
    let mut r: Vec<(isize, isize)> = Vec::new();
    proof {
        lemma_bres_steps_len(
            v as int,
            sx as int,
            sy as int,
            err as int,
            ex as int,
            dx as int,
            dy as int,
        );
        assert(pts.skip(0) =~= pts);
    }
    while x <= ex
        invariant
            v < 8,
            -536870912 <= sx <= 536870912,
            -536870912 <= sy <= 536870912,
            -536870912 <= ex <= 536870912,
            -536870912 <= ey <= 536870912,
            dx == ex - sx,
            dy == ey - sy,
            0 <= dy <= dx,
            sx <= x <= ex + 1,
            sy <= y <= ey + 1,
            x <= ex ==> y <= ey,
            dx >= 1 ==> dy - dx <= err <= dy - 1,
            dx == 0 ==> err == 0,
            err == dy - dx - (ex - x) * dy + (ey - y) * dx,
            r@.len() + (if x <= ex {
                ex + 1 - x
            } else {
                0int
            }) == pts.len(),
            spec_bres_steps(
                v as int,
                x as int,
                y as int,
                err as int,
                ex as int,
                dx as int,
                dy as int,
            ) == pts.skip(r@.len() as int),
            forall|j: int|
                0 <= j < r@.len() ==> (#[trigger] r@[j].0 as int, r@[j].1 as int) == pts[j],
        decreases ex + 1 - x,
    {
        let ghost k = r@.len() as int;
        let p = oct_from_point(v, x, y);
        proof {
            lemma_bres_steps_len(
                v as int,
                x as int,
                y as int,
                err as int,
                ex as int,
                dx as int,
                dy as int,
            );
            assert(pts.skip(k)[0] == pts[k]);
        }
        r.push(p);
        let ghost ny = if err >= 0 {
            y as int + 1
        } else {
            y as int
        };
        let ghost nerr = if err >= 0 {
            err as int - dx as int + dy as int
        } else {
            err as int + dy as int
        };
        proof {
            assert(pts.skip(k + 1) =~= spec_bres_steps(
                v as int,
                x as int + 1,
                ny,
                nerr,
                ex as int,
                dx as int,
                dy as int,
            )) by {
                let rest = spec_bres_steps(
                    v as int,
                    x as int + 1,
                    ny,
                    nerr,
                    ex as int,
                    dx as int,
                    dy as int,
                );
                assert(pts.skip(k) == seq![spec_oct_from(v as int, (x as int, y as int))] + rest);
                assert forall|m: int| 0 <= m < pts.skip(k + 1).len() implies pts.skip(k + 1)[m]
                    == rest[m] by {
                    assert(pts.skip(k + 1)[m] == pts[k + 1 + m]);
                    assert(pts.skip(k)[m + 1] == pts[k + 1 + m]);
                    assert(pts.skip(k)[m + 1] == rest[m]);
                }
            }
            // The error term's closed form survives the step.
            if err >= 0 {
                assert((ex - (x + 1)) * dy == (ex - x) * dy - dy) by (nonlinear_arith);
                assert((ey - (y + 1)) * dx == (ey - y) * dx - dx) by (nonlinear_arith);
            } else {
                assert((ex - (x + 1)) * dy == (ex - x) * dy - dy) by (nonlinear_arith);
            }
            // A step taken strictly before the last column keeps the walk at
            // or below the target row.
            if err >= 0 && x + 1 <= ex {
                assert((ey - y) * dx >= dx) by (nonlinear_arith)
                    requires
                        err >= 0,
                        err == dy - dx - (ex - x) * dy + (ey - y) * dx,
                        ex - x >= 1,
                        dy >= 0,
                        dx >= dy,
                        dx >= 1,
                ;
                assert(ey - y >= 1) by (nonlinear_arith)
                    requires
                        (ey - y) * dx >= dx,
                        dx >= 1,
                ;
            }
        }
        if err >= 0 {
            y = y + 1;
            err = err - dx;
        }
        x = x + 1;
        err = err + dy;
    }
    proof {
        lemma_bres_steps_len(
            v as int,
            x as int,
            y as int,
            err as int,
            ex as int,
            dx as int,
            dy as int,
        );
        assert(pts.skip(r@.len() as int).len() == 0);
    }
    r
}

/// Clamps a start coordinate into `[0, hi]`.
fn clamp_coord(v: isize, hi: usize) -> (r: isize)
    requires
        hi <= 268435456,
    ensures
        r as int == spec_clamp(v as int, hi as int),
        0 <= r,
        r as int <= hi as int,
{
    if v < 0 {
        0
    } else if v > hi as isize {
        hi as isize
    } else {
        v
    }
}

/// Digitizes a drawn segment into the flat cell addresses it touches on a
/// `w` by `h` lattice: the start point is clamped into `[0, w] x [0, h]`,
/// and consumption stops at the first rasterized point off the lattice.
#[verifier::rlimit(100)]
pub fn rasterize_clipped(x0: isize, y0: isize, x1: isize, y1: isize, w: usize, h: usize) -> (r: Vec<
    usize,
>)
    requires
        1 <= w <= 268435456,
        1 <= h <= 268435456,
        w * h <= usize::MAX,
        -COORD_LIMIT <= x1 <= COORD_LIMIT,
        -COORD_LIMIT <= y1 <= COORD_LIMIT,
    ensures
        ({
            let cells = spec_line_cells(
                x0 as int,
                y0 as int,
                x1 as int,
                y1 as int,
                w as int,
                h as int,
            );
            &&& r@.len() == cells.len()
            &&& forall|j: int| 0 <= j < r@.len() ==> #[trigger] r@[j] as int == cells[j]
            &&& forall|j: int| 0 <= j < r@.len() ==> #[trigger] r@[j] < w * h
        }),
{
    let cx0 = clamp_coord(x0, w);
    let cy0 = clamp_coord(y0, h);
    let ghost pts = spec_line_points(cx0 as int, cy0 as int, x1 as int, y1 as int);
    let ghost cells = spec_line_cells(x0 as int, y0 as int, x1 as int, y1 as int, w as int, h as int);
    proof {
        lemma_octant_props(cx0 as int, cy0 as int, x1 as int, y1 as int);
        lemma_clip_len_props(pts, w as int, h as int);
    }
    let v = octant_of(cx0, cy0, x1, y1);
    let s = oct_to_point(v, cx0, cy0);
    let e = oct_to_point(v, x1, y1);
    let sx = s.0;
    let sy = s.1;
    let ex = e.0;
    let ey = e.1;
    let dx: isize = ex - sx;
    let dy: isize = ey - sy;
    let mut x: isize = sx;
    let mut y: isize = sy;
    let mut err: isize = dy - dx;
    let mut r: Vec<usize> = Vec::new();
    proof {
        assert(pts.skip(0) =~= pts);
    }
    while x <= ex
        invariant_except_break
            v < 8,
            1 <= w <= 268435456,
            1 <= h <= 268435456,
            w * h <= usize::MAX,
            -536870912 <= sx <= 536870912,
            -536870912 <= sy <= 536870912,
            -536870912 <= ex <= 536870912,
            -536870912 <= ey <= 536870912,
            dx == ex - sx,
            dy == ey - sy,
            0 <= dy <= dx,
            sx <= x <= ex + 1,
            sy <= y <= ey + 1,
            x <= ex ==> y <= ey,
            dx >= 1 ==> dy - dx <= err <= dy - 1,
            dx == 0 ==> err == 0,
            err == dy - dx - (ex - x) * dy + (ey - y) * dx,
            r@.len() <= pts.len(),
            spec_bres_steps(
                v as int,
                x as int,
                y as int,
                err as int,
                ex as int,
                dx as int,
                dy as int,
            ) == pts.skip(r@.len() as int),
            spec_clip_len(pts, w as int, h as int) == r@.len() + spec_clip_len(
                pts.skip(r@.len() as int),
                w as int,
                h as int,
            ),
            forall|j: int| 0 <= j < r@.len() ==> spec_in_bounds(#[trigger] pts[j], w as int, h as int),
            forall|j: int|
                0 <= j < r@.len() ==> #[trigger] r@[j] as int == pts[j].0 + pts[j].1 * (w as int),
            forall|j: int| 0 <= j < r@.len() ==> #[trigger] r@[j] < w * h,
        ensures
            r@.len() == spec_clip_len(pts, w as int, h as int),
            forall|j: int| 0 <= j < r@.len() ==> spec_in_bounds(#[trigger] pts[j], w as int, h as int),
            forall|j: int|
                0 <= j < r@.len() ==> #[trigger] r@[j] as int == pts[j].0 + pts[j].1 * (w as int),
            forall|j: int| 0 <= j < r@.len() ==> #[trigger] r@[j] < w * h,
        decreases ex + 1 - x,
    {
        let ghost k = r@.len() as int;
        let p = oct_from_point(v, x, y);
        proof {
            lemma_bres_steps_len(
                v as int,
                x as int,
                y as int,
                err as int,
                ex as int,
                dx as int,
                dy as int,
            );
            assert(pts.skip(k)[0] == pts[k]);
        }
        if !(p.0 >= 0 && p.1 >= 0 && (p.0 as usize) < w && (p.1 as usize) < h) {
            proof {
                assert(!spec_in_bounds(pts[k], w as int, h as int));
                assert(spec_clip_len(pts.skip(k), w as int, h as int) == 0);
            }
            break ;
        }
        proof {
            crate::lattice::lemma_index_in_range(w as int, h as int, p.0 as int, p.1 as int);
        }
        let idx = (p.0 as usize) + (p.1 as usize) * w;
        r.push(idx);
        let ghost ny = if err >= 0 {
            y as int + 1
        } else {
            y as int
        };
        let ghost nerr = if err >= 0 {
            err as int - dx as int + dy as int
        } else {
            err as int + dy as int
        };
        proof {
            assert(pts.skip(k + 1) =~= spec_bres_steps(
                v as int,
                x as int + 1,
                ny,
                nerr,
                ex as int,
                dx as int,
                dy as int,
            )) by {
                let rest = spec_bres_steps(
                    v as int,
                    x as int + 1,
                    ny,
                    nerr,
                    ex as int,
                    dx as int,
                    dy as int,
                );
                assert(pts.skip(k) == seq![spec_oct_from(v as int, (x as int, y as int))] + rest);
                assert forall|m: int| 0 <= m < pts.skip(k + 1).len() implies pts.skip(k + 1)[m]
                    == rest[m] by {
                    assert(pts.skip(k + 1)[m] == pts[k + 1 + m]);
                    assert(pts.skip(k)[m + 1] == pts[k + 1 + m]);
                    assert(pts.skip(k)[m + 1] == rest[m]);
                }
            }
            assert(spec_in_bounds(pts[k], w as int, h as int));
            assert(spec_clip_len(pts.skip(k), w as int, h as int) == 1 + spec_clip_len(
                pts.skip(k).skip(1),
                w as int,
                h as int,
            ));
            assert(pts.skip(k).skip(1) =~= pts.skip(k + 1));
            if err >= 0 {
                assert((ex - (x + 1)) * dy == (ex - x) * dy - dy) by (nonlinear_arith);
                assert((ey - (y + 1)) * dx == (ey - y) * dx - dx) by (nonlinear_arith);
            } else {
                assert((ex - (x + 1)) * dy == (ex - x) * dy - dy) by (nonlinear_arith);
            }
            if err >= 0 && x + 1 <= ex {
                assert((ey - y) * dx >= dx) by (nonlinear_arith)
                    requires
                        err >= 0,
                        err == dy - dx - (ex - x) * dy + (ey - y) * dx,
                        ex - x >= 1,
                        dy >= 0,
                        dx >= dy,
                        dx >= 1,
                ;
                assert(ey - y >= 1) by (nonlinear_arith)
                    requires
                        (ey - y) * dx >= dx,
                        dx >= 1,
                ;
            }
        }
        if err >= 0 {
            y = y + 1;
            err = err - dx;
        }
        x = x + 1;
        err = err + dy;
        proof {
            if !(x <= ex) {
                lemma_bres_steps_len(
                    v as int,
                    x as int,
                    y as int,
                    err as int,
                    ex as int,
                    dx as int,
                    dy as int,
                );
                assert(spec_clip_len(pts.skip(r@.len() as int), w as int, h as int) == 0);
            }
        }
    }
    proof {
        assert(cells.len() == spec_clip_len(pts, w as int, h as int));
        assert forall|j: int| 0 <= j < r@.len() implies #[trigger] r@[j] as int == cells[j] by {
            assert(cells[j] == pts[j].0 + pts[j].1 * (w as int));
        }
    }
    r
}

} // verus!
