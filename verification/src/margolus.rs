use vstd::prelude::*;

use crate::lattice::b2i;

verus! {

/// The Margolus partition scheme shared by the reversible block automata:
/// the lattice is cut into 2-by-2 blocks anchored either at even coordinates
/// (offset 0) or at odd coordinates with toroidal wraparound (offset 1), and
/// the two partitions alternate from step to step.

/// Whether coordinate `v` lies inside some block of the partition with
/// offset `o` along an axis of size `n`.  With offset 0 an odd-sized axis
/// leaves its last coordinate uncovered; with offset 1 it leaves coordinate
/// 0 uncovered, while an even-sized axis wraps its last block around.
pub open spec fn axis_covered(v: int, o: int, n: int) -> bool {
    if o == 0 {
        v < n - n % 2
    } else {
        n % 2 == 0 || v >= 1
    }
}

/// The anchor coordinate of the block containing covered coordinate `v`.
pub open spec fn axis_anchor(v: int, o: int, n: int) -> int {
    if o == 0 {
        v - v % 2
    } else {
        if v % 2 == 1 {
            v
        } else if v == 0 {
            n - 1
        } else {
            v - 1
        }
    }
}

/// The second coordinate of a block along its axis: the anchor's toroidal
/// successor.
pub open spec fn axis_next(a: int, n: int) -> int {
    if a + 1 >= n {
        a + 1 - n
    } else {
        a + 1
    }
}

/// Whether `(x, y)` lies inside some block of partition `o`.
pub open spec fn spec_covered(w: int, h: int, o: int, x: int, y: int) -> bool {
    axis_covered(x, o, w) && axis_covered(y, o, h)
}

/// The flat addresses of the four cells of the block anchored at
/// `(ax, ay)`, in clockwise order: top-left, top-right, bottom-right,
/// bottom-left.  The traversal order is load-bearing: the block transforms
/// are defined relative to it.
pub open spec fn spec_block_cells(w: int, h: int, ax: int, ay: int) -> Seq<int> {
    let nx = axis_next(ax, w);
    let ny = axis_next(ay, h);
    seq![ax + ay * w, nx + ay * w, nx + ny * w, ax + ny * w]
}

/// The live-cell count of a block.
pub open spec fn spec_block_count(s: Seq<bool>, ps: Seq<int>) -> int {
    b2i(s[ps[0]]) + b2i(s[ps[1]]) + b2i(s[ps[2]]) + b2i(s[ps[3]])
}

/// The clockwise position of covered cell `(x, y)` within its block.
pub open spec fn spec_pos_index(w: int, h: int, o: int, x: int, y: int) -> int {
    let ax = axis_anchor(x, o, w);
    let ay = axis_anchor(y, o, h);
    let nx = axis_next(ax, w);
    let ny = axis_next(ay, h);
    if x == ax && y == ay {
        0int
    } else if x == nx && y == ay {
        1int
    } else if x == nx && y == ny {
        2int
    } else {
        3int
    }
}

/// The block structure is self-consistent: a covered coordinate's anchor is
/// itself covered, anchors itself, and its successor belongs to the same
/// block; the two coordinates of a block are distinct and every covered
/// coordinate is one of them.
pub proof fn lemma_axis_anchor(v: int, o: int, n: int)
    requires
        0 < n,
        0 <= v < n,
        o == 0 || o == 1,
        axis_covered(v, o, n),
    ensures
        ({
            let a = axis_anchor(v, o, n);
            let b = axis_next(a, n);
            &&& 0 <= a < n
            &&& 0 <= b < n
            &&& a != b
            &&& axis_covered(a, o, n)
            &&& axis_covered(b, o, n)
            &&& axis_anchor(a, o, n) == a
            &&& axis_anchor(b, o, n) == a
            &&& (v == a || v == b)
        }),
{
    assert(v % 2 == 0 || v % 2 == 1);
    assert(n % 2 == 0 || n % 2 == 1);
    if o == 0 {
        assert((v - v % 2) % 2 == 0);
        assert((v - v % 2 + 1) % 2 == 1);
    } else {
        if v % 2 == 1 {
            if v + 1 < n {
                assert((v + 1) % 2 == 0);
            }
        } else if v == 0 {
            assert(n % 2 == 0);
            assert((n - 1) % 2 == 1);
        } else {
            assert((v - 1) % 2 == 1);
        }
    }
}

/// The four cells of a block sit at valid, pairwise distinct addresses, and
/// each of them recognises `(ax, ay)` as its block's anchor and its own
/// clockwise position within it.
pub proof fn lemma_block_cells(w: int, h: int, o: int, x: int, y: int)
    requires
        0 < w,
        0 < h,
        o == 0 || o == 1,
        0 <= x < w,
        0 <= y < h,
        spec_covered(w, h, o, x, y),
    ensures
        ({
            let ax = axis_anchor(x, o, w);
            let ay = axis_anchor(y, o, h);
            let ps = spec_block_cells(w, h, ax, ay);
            &&& forall|k: int| 0 <= k < 4 ==> 0 <= #[trigger] ps[k] < w * h
            &&& forall|k1: int, k2: int|
                0 <= k1 < 4 && 0 <= k2 < 4 && k1 != k2 ==> #[trigger] ps[k1] != #[trigger] ps[k2]
            &&& forall|k: int|
                0 <= k < 4 ==> spec_covered(w, h, o, #[trigger] ps[k] % w, ps[k] / w)
            &&& forall|k: int|
                0 <= k < 4 ==> axis_anchor(#[trigger] ps[k] % w, o, w) == ax && axis_anchor(
                    ps[k] / w,
                    o,
                    h,
                ) == ay
            &&& forall|k: int|
                0 <= k < 4 ==> spec_pos_index(w, h, o, #[trigger] ps[k] % w, ps[k] / w) == k
            &&& ps[spec_pos_index(w, h, o, x, y)] == x + y * w
            &&& 0 <= spec_pos_index(w, h, o, x, y) < 4
        }),
{
    lemma_axis_anchor(x, o, w);
    lemma_axis_anchor(y, o, h);
    let ax = axis_anchor(x, o, w);
    let ay = axis_anchor(y, o, h);
    let nx = axis_next(ax, w);
    let ny = axis_next(ay, h);
    let ps = spec_block_cells(w, h, ax, ay);
    crate::lattice::lemma_index_decompose(w, ax, ay);
    crate::lattice::lemma_index_decompose(w, nx, ay);
    crate::lattice::lemma_index_decompose(w, nx, ny);
    crate::lattice::lemma_index_decompose(w, ax, ny);
    crate::lattice::lemma_index_in_range(w, h, ax, ay);
    crate::lattice::lemma_index_in_range(w, h, nx, ay);
    crate::lattice::lemma_index_in_range(w, h, nx, ny);
    crate::lattice::lemma_index_in_range(w, h, ax, ny);
    assert(ps[0] == ax + ay * w);
    assert(ps[1] == nx + ay * w);
    assert(ps[2] == nx + ny * w);
    assert(ps[3] == ax + ny * w);
    assert forall|k1: int, k2: int|
        0 <= k1 < 4 && 0 <= k2 < 4 && k1 != k2 implies #[trigger] ps[k1] != #[trigger] ps[k2] by {
        crate::lattice::lemma_index_distinct(w, h, ax, ay, nx, ay);
        crate::lattice::lemma_index_distinct(w, h, ax, ay, nx, ny);
        crate::lattice::lemma_index_distinct(w, h, ax, ay, ax, ny);
        crate::lattice::lemma_index_distinct(w, h, nx, ay, nx, ny);
        crate::lattice::lemma_index_distinct(w, h, nx, ay, ax, ny);
        crate::lattice::lemma_index_distinct(w, h, nx, ny, ax, ny);
    }
}

/// The number of live cells in a buffer.
pub open spec fn count_live(s: Seq<bool>) -> int
    decreases s.len(),
{
    if s.len() == 0 {
        0int
    } else {
        count_live(s.drop_last()) + b2i(s.last())
    }
}

/// Overwriting one cell changes the live count by the difference of the two
/// values.
pub proof fn lemma_count_live_update(s: Seq<bool>, p: int, v: bool)
    requires
        0 <= p < s.len(),
    ensures
        count_live(s.update(p, v)) == count_live(s) - b2i(s[p]) + b2i(v),
    decreases s.len(),
{
    let t = s.update(p, v);
    if p == s.len() - 1 {
        assert(t.drop_last() =~= s.drop_last());
    } else {
        lemma_count_live_update(s.drop_last(), p, v);
        assert(t.drop_last() =~= s.drop_last().update(p, v));
    }
}

/// An all-dead buffer has live count zero.
pub proof fn lemma_count_live_all_false(s: Seq<bool>)
    requires
        forall|i: int| 0 <= i < s.len() ==> !s[i],
    ensures
        count_live(s) == 0,
    decreases s.len(),
{
    if s.len() > 0 {
        lemma_count_live_all_false(s.drop_last());
    }
}

/// The anchor of the `b`-th block of a partition on an even-sized lattice,
/// enumerating blocks row-major.
pub open spec fn spec_block_anchor(w: int, h: int, o: int, b: int) -> (int, int) {
    let wb = w / 2;
    if o == 0 {
        (2 * (b % wb), 2 * (b / wb))
    } else {
        (2 * (b % wb) + 1, 2 * (b / wb) + 1)
    }
}

/// Which block of the partition a cell belongs to, on an even-sized
/// lattice.
pub open spec fn spec_block_id(w: int, h: int, o: int, i: int) -> int {
    let ax = axis_anchor(i % w, o, w);
    let ay = axis_anchor(i / w, o, h);
    let bx = if o == 0 {
        ax / 2
    } else {
        (ax - 1) / 2
    };
    let by = if o == 0 {
        ay / 2
    } else {
        (ay - 1) / 2
    };
    bx + by * (w / 2)
}

/// On an even-sized lattice every cell is covered by both partitions, and
/// its block id is a valid block number whose anchor is the cell's own
/// anchor pair.
pub proof fn lemma_even_cell_block(w: int, h: int, o: int, i: int)
    requires
        0 < w,
        0 < h,
        w % 2 == 0,
        h % 2 == 0,
        o == 0 || o == 1,
        0 <= i < w * h,
    ensures
        spec_covered(w, h, o, i % w, i / w),
        0 <= spec_block_id(w, h, o, i) < (w / 2) * (h / 2),
        spec_block_anchor(w, h, o, spec_block_id(w, h, o, i)) == (
            axis_anchor(i % w, o, w),
            axis_anchor(i / w, o, h),
        ),
{
    crate::lattice::lemma_index_surjective(w, h, i);
    let x = i % w;
    let y = i / w;
    lemma_axis_anchor(x, o, w);
    lemma_axis_anchor(y, o, h);
    let ax = axis_anchor(x, o, w);
    let ay = axis_anchor(y, o, h);
    let wb = w / 2;
    let hb = h / 2;
    let bx = if o == 0 {
        ax / 2
    } else {
        (ax - 1) / 2
    };
    let by = if o == 0 {
        ay / 2
    } else {
        (ay - 1) / 2
    };
    assert(ax % 2 == (if o == 0 {
        0int
    } else {
        1int
    }));
    assert(ay % 2 == (if o == 0 {
        0int
    } else {
        1int
    }));
    assert(0 <= bx < wb);
    assert(0 <= by < hb);
    crate::lattice::lemma_index_in_range(wb, hb, bx, by);
    crate::lattice::lemma_index_decompose(wb, bx, by);
    assert(2 * ((bx + by * wb) % wb) == ax || 2 * ((bx + by * wb) % wb) + 1 == ax);
}

/// The `b`-th block of a partition on an even-sized lattice: its anchor is
/// in range and anchors itself, its four cells all carry block id `b`, and
/// they are exactly the cells whose block id is `b`.
pub proof fn lemma_block_enumeration(w: int, h: int, o: int, b: int)
    requires
        0 < w,
        0 < h,
        w % 2 == 0,
        h % 2 == 0,
        o == 0 || o == 1,
        0 <= b < (w / 2) * (h / 2),
    ensures
        ({
            let (ax, ay) = spec_block_anchor(w, h, o, b);
            let ps = spec_block_cells(w, h, ax, ay);
            &&& 0 <= ax < w
            &&& 0 <= ay < h
            &&& spec_covered(w, h, o, ax, ay)
            &&& axis_anchor(ax, o, w) == ax
            &&& axis_anchor(ay, o, h) == ay
            &&& forall|k: int| 0 <= k < 4 ==> 0 <= #[trigger] ps[k] < w * h
            &&& forall|k1: int, k2: int|
                0 <= k1 < 4 && 0 <= k2 < 4 && k1 != k2 ==> #[trigger] ps[k1] != #[trigger] ps[k2]
            &&& forall|k: int| 0 <= k < 4 ==> spec_block_id(w, h, o, #[trigger] ps[k]) == b
            &&& forall|i: int|
                0 <= i < w * h && spec_block_id(w, h, o, i) == b ==> (i == ps[0] || i == ps[1] || i
                    == ps[2] || i == ps[3])
        }),
{
    let wb = w / 2;
    let hb = h / 2;
    crate::lattice::lemma_index_surjective(wb, hb, b);
    let bx = b % wb;
    let by = b / wb;
    let (ax, ay) = spec_block_anchor(w, h, o, b);
    assert(0 <= ax < w && 0 <= ay < h) by (nonlinear_arith)
        requires
            ax == (if o == 0 {
                2 * bx
            } else {
                2 * bx + 1
            }),
            ay == (if o == 0 {
                2 * by
            } else {
                2 * by + 1
            }),
            0 <= bx < wb,
            0 <= by < hb,
            wb == w / 2,
            hb == h / 2,
            w % 2 == 0,
            h % 2 == 0,
            0 < w,
            0 < h,
    ;
    lemma_block_cells(w, h, o, ax, ay);
    let ps = spec_block_cells(w, h, ax, ay);
    crate::lattice::lemma_index_decompose(wb, bx, by);
    assert forall|k: int| 0 <= k < 4 implies spec_block_id(w, h, o, #[trigger] ps[k]) == b by {
        lemma_even_cell_block(w, h, o, ps[k]);
        crate::lattice::lemma_index_decompose(
            wb,
            (if o == 0 {
                ax / 2
            } else {
                (ax - 1) / 2
            }),
            (if o == 0 {
                ay / 2
            } else {
                (ay - 1) / 2
            }),
        );
    }
    assert forall|i: int|
        0 <= i < w * h && spec_block_id(w, h, o, i) == b implies (i == ps[0] || i == ps[1] || i
        == ps[2] || i == ps[3]) by {
        lemma_even_cell_block(w, h, o, i);
        crate::lattice::lemma_index_surjective(w, h, i);
        let x = i % w;
        let y = i / w;
        lemma_axis_anchor(x, o, w);
        lemma_axis_anchor(y, o, h);
        assert(axis_anchor(x, o, w) == ax && axis_anchor(y, o, h) == ay);
    }
}

} // verus!
