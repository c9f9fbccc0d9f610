use vstd::prelude::*;

use crate::error::AutomataError;
use crate::lattice::{lemma_index_surjective, set_cells, Lattice};
use crate::raster::{rasterize_clipped, spec_line_cells, COORD_LIMIT};
use crate::margolus::{
    axis_anchor, axis_covered, axis_next, count_live, lemma_axis_anchor, lemma_block_cells,
    lemma_block_enumeration, lemma_count_live_all_false, lemma_count_live_update,
    lemma_even_cell_block, spec_block_anchor, spec_block_cells, spec_block_count, spec_block_id,
    spec_covered, spec_pos_index,
};
use crate::randomizer::{generate_seed, spec_draw, spec_random_fill, spec_state_after, spec_unit_mantissa, unit_mantissa, Pcg32};

verus! {

/// The integer form of the 0.95 fill fraction used when randomizing: a draw
/// counts as live when its 23-bit unit mantissa exceeds this threshold,
/// exactly when the draw mapped into `[0, 1)` exceeds the 32-bit float
/// nearest to 0.95.
pub const INITIAL_FILL_MANTISSA: u32 = 7969177;

/// What covered cell `i` holds after one half-step of the Critters rule on
/// partition `o`: a block with two live cells is untouched, a block with
/// three is rotated 180 degrees and inverted, and every other block is
/// inverted in place.
pub open spec fn spec_critters_cell(s: Seq<bool>, w: int, h: int, o: int, i: int) -> bool {
    let x = i % w;
    let y = i / w;
    if spec_covered(w, h, o, x, y) {
        let ax = axis_anchor(x, o, w);
        let ay = axis_anchor(y, o, h);
        let ps = spec_block_cells(w, h, ax, ay);
        let c = spec_block_count(s, ps);
        let k = spec_pos_index(w, h, o, x, y);
        if c == 2 {
            s[i]
        } else if c == 3 {
            !s[ps[(k + 2) % 4]]
        } else {
            !s[i]
        }
    } else {
        s[i]
    }
}

/// One half-step over the whole lattice, as a pointwise map.
pub open spec fn spec_critters_sub(s: Seq<bool>, w: int, h: int, o: int) -> Seq<bool> {
    Seq::new(s.len(), |i: int| spec_critters_cell(s, w, h, o, i))
}

/// One full step: both partitions in order, even-anchored first when
/// running forward, odd-anchored first when reversed.
pub open spec fn spec_critters_update(s: Seq<bool>, w: int, h: int, rev: bool) -> Seq<bool> {
    if rev {
        spec_critters_sub(spec_critters_sub(s, w, h, 1), w, h, 0)
    } else {
        spec_critters_sub(spec_critters_sub(s, w, h, 0), w, h, 1)
    }
}

/// The half-step applied to the cells of the first `b` blocks only, the
/// rest untouched.
spec fn spec_sub_masked(s: Seq<bool>, w: int, h: int, o: int, b: int) -> Seq<bool> {
    Seq::new(
        s.len(),
        |i: int|
            if spec_block_id(w, h, o, i) < b {
                spec_critters_cell(s, w, h, o, i)
            } else {
                s[i]
            },
    )
}

/// The original cells of the first `b` blocks, every other cell dead.
spec fn spec_orig_masked(s: Seq<bool>, w: int, h: int, o: int, b: int) -> Seq<bool> {
    Seq::new(s.len(), |i: int| spec_block_id(w, h, o, i) < b && s[i])
}

/// Extending the mask by one block rewrites exactly that block's four
/// cells.
#[verifier::rlimit(100)]
proof fn lemma_masked_step(s: Seq<bool>, w: int, h: int, o: int, b: int)
    requires
        0 < w,
        0 < h,
        w % 2 == 0,
        h % 2 == 0,
        o == 0 || o == 1,
        s.len() == w * h,
        1 <= b <= (w / 2) * (h / 2),
    ensures
        ({
            let anchor = spec_block_anchor(w, h, o, b - 1);
            let ps = spec_block_cells(w, h, anchor.0, anchor.1);
            &&& spec_sub_masked(s, w, h, o, b) == spec_sub_masked(s, w, h, o, b - 1).update(
                ps[0],
                spec_critters_cell(s, w, h, o, ps[0]),
            ).update(ps[1], spec_critters_cell(s, w, h, o, ps[1])).update(
                ps[2],
                spec_critters_cell(s, w, h, o, ps[2]),
            ).update(ps[3], spec_critters_cell(s, w, h, o, ps[3]))
            &&& spec_orig_masked(s, w, h, o, b) == spec_orig_masked(s, w, h, o, b - 1).update(
                ps[0],
                s[ps[0]],
            ).update(ps[1], s[ps[1]]).update(ps[2], s[ps[2]]).update(ps[3], s[ps[3]])
        }),
{
    lemma_block_enumeration(w, h, o, b - 1);
    let anchor = spec_block_anchor(w, h, o, b - 1);
    let ps = spec_block_cells(w, h, anchor.0, anchor.1);
    let sm0 = spec_sub_masked(s, w, h, o, b - 1);
    let om0 = spec_orig_masked(s, w, h, o, b - 1);
    let v0 = spec_critters_cell(s, w, h, o, ps[0]);
    let v1 = spec_critters_cell(s, w, h, o, ps[1]);
    let v2 = spec_critters_cell(s, w, h, o, ps[2]);
    let v3 = spec_critters_cell(s, w, h, o, ps[3]);
    assert forall|i: int| 0 <= i < s.len() implies spec_sub_masked(s, w, h, o, b)[i] == sm0.update(
        ps[0],
        v0,
    ).update(ps[1], v1).update(ps[2], v2).update(ps[3], v3)[i] by {
        if i != ps[0] && i != ps[1] && i != ps[2] && i != ps[3] {
            assert(spec_block_id(w, h, o, i) != b - 1);
        }
    }
    assert(spec_sub_masked(s, w, h, o, b) =~= sm0.update(ps[0], v0).update(ps[1], v1).update(
        ps[2],
        v2,
    ).update(ps[3], v3));
    assert forall|i: int| 0 <= i < s.len() implies spec_orig_masked(s, w, h, o, b)[i] == om0.update(
        ps[0],
        s[ps[0]],
    ).update(ps[1], s[ps[1]]).update(ps[2], s[ps[2]]).update(ps[3], s[ps[3]])[i] by {
        if i != ps[0] && i != ps[1] && i != ps[2] && i != ps[3] {
            assert(spec_block_id(w, h, o, i) != b - 1);
        }
    }
    assert(spec_orig_masked(s, w, h, o, b) =~= om0.update(ps[0], s[ps[0]]).update(
        ps[1],
        s[ps[1]],
    ).update(ps[2], s[ps[2]]).update(ps[3], s[ps[3]]));
}

/// A transformed block of count `c` is left with `4 - c` live cells.
#[verifier::rlimit(100)]
proof fn lemma_block_complement(s: Seq<bool>, w: int, h: int, o: int, b: int)
    requires
        0 < w,
        0 < h,
        w % 2 == 0,
        h % 2 == 0,
        o == 0 || o == 1,
        s.len() == w * h,
        1 <= b <= (w / 2) * (h / 2),
    ensures
        ({
            let anchor = spec_block_anchor(w, h, o, b - 1);
            let ps = spec_block_cells(w, h, anchor.0, anchor.1);
            crate::lattice::b2i(spec_critters_cell(s, w, h, o, ps[0])) + crate::lattice::b2i(
                spec_critters_cell(s, w, h, o, ps[1]),
            ) + crate::lattice::b2i(spec_critters_cell(s, w, h, o, ps[2])) + crate::lattice::b2i(
                spec_critters_cell(s, w, h, o, ps[3]),
            ) == 4 - spec_block_count(s, ps)
        }),
{
    lemma_block_enumeration(w, h, o, b - 1);
    let anchor = spec_block_anchor(w, h, o, b - 1);
    let ax = anchor.0;
    let ay = anchor.1;
    lemma_block_cells(w, h, o, ax, ay);
    let ps = spec_block_cells(w, h, ax, ay);
    let c = spec_block_count(s, ps);
    assert forall|k: int| 0 <= k < 4 implies spec_critters_cell(s, w, h, o, #[trigger] ps[k]) == (
    if c == 2 {
        s[ps[k]]
    } else if c == 3 {
        !s[ps[(k + 2) % 4]]
    } else {
        !s[ps[k]]
    }) by {
        crate::lattice::lemma_index_surjective(w, h, ps[k]);
    }
}

/// Walking the blocks one at a time: transforming a block of count `c`
/// leaves `4 - c` live cells in it, so the transformed prefix and twice the
/// original prefix always add up to the original count plus four per block.
#[verifier::rlimit(100)]
proof fn lemma_critters_masked_count(s: Seq<bool>, w: int, h: int, o: int, b: int)
    requires
        0 < w,
        0 < h,
        w % 2 == 0,
        h % 2 == 0,
        o == 0 || o == 1,
        s.len() == w * h,
        0 <= b <= (w / 2) * (h / 2),
    ensures
        count_live(spec_sub_masked(s, w, h, o, b)) + 2 * count_live(spec_orig_masked(s, w, h, o, b))
            == count_live(s) + 4 * b,
    decreases b,
{
    if b == 0 {
        assert(spec_sub_masked(s, w, h, o, 0) =~= s);
        lemma_count_live_all_false(spec_orig_masked(s, w, h, o, 0));
    } else {
        lemma_critters_masked_count(s, w, h, o, b - 1);
        lemma_block_enumeration(w, h, o, b - 1);
        lemma_masked_step(s, w, h, o, b);
        lemma_block_complement(s, w, h, o, b);
        let anchor = spec_block_anchor(w, h, o, b - 1);
        let ps = spec_block_cells(w, h, anchor.0, anchor.1);
        let sm0 = spec_sub_masked(s, w, h, o, b - 1);
        let om0 = spec_orig_masked(s, w, h, o, b - 1);
        let v0 = spec_critters_cell(s, w, h, o, ps[0]);
        let v1 = spec_critters_cell(s, w, h, o, ps[1]);
        let v2 = spec_critters_cell(s, w, h, o, ps[2]);
        let v3 = spec_critters_cell(s, w, h, o, ps[3]);
        lemma_count_live_update(sm0, ps[0], v0);
        lemma_count_live_update(sm0.update(ps[0], v0), ps[1], v1);
        lemma_count_live_update(sm0.update(ps[0], v0).update(ps[1], v1), ps[2], v2);
        lemma_count_live_update(
            sm0.update(ps[0], v0).update(ps[1], v1).update(ps[2], v2),
            ps[3],
            v3,
        );
        lemma_count_live_update(om0, ps[0], s[ps[0]]);
        lemma_count_live_update(om0.update(ps[0], s[ps[0]]), ps[1], s[ps[1]]);
        lemma_count_live_update(
            om0.update(ps[0], s[ps[0]]).update(ps[1], s[ps[1]]),
            ps[2],
            s[ps[2]],
        );
        lemma_count_live_update(
            om0.update(ps[0], s[ps[0]]).update(ps[1], s[ps[1]]).update(ps[2], s[ps[2]]),
            ps[3],
            s[ps[3]],
        );
    }
}

/// One half-step on an even-sized lattice complements the live count
/// against the cell total: each block of count `c` is left with `4 - c`
/// live cells.
pub proof fn lemma_critters_sub_complements(s: Seq<bool>, w: int, h: int, o: int)
    requires
        0 < w,
        0 < h,
        w % 2 == 0,
        h % 2 == 0,
        o == 0 || o == 1,
        s.len() == w * h,
    ensures
        count_live(spec_critters_sub(s, w, h, o)) == w * h - count_live(s),
{
    let nb = (w / 2) * (h / 2);
    lemma_critters_masked_count(s, w, h, o, nb);
    assert forall|i: int| 0 <= i < w * h implies spec_block_id(w, h, o, i) < nb by {
        lemma_even_cell_block(w, h, o, i);
    }
    assert(spec_sub_masked(s, w, h, o, nb) =~= spec_critters_sub(s, w, h, o));
    assert(spec_orig_masked(s, w, h, o, nb) =~= s);
    assert(4 * nb == w * h) by (nonlinear_arith)
        requires
            nb == (w / 2) * (h / 2),
            w % 2 == 0,
            h % 2 == 0,
            0 < w,
            0 < h,
    ;
}

/// The conservation law: on even-sized lattices a full two-phase Critters
/// step leaves the total live-cell count unchanged, in either running
/// direction, because the two half-steps complement the count twice.
pub proof fn lemma_critters_update_conserves(s: Seq<bool>, w: int, h: int, rev: bool)
    requires
        0 < w,
        0 < h,
        w % 2 == 0,
        h % 2 == 0,
        s.len() == w * h,
    ensures
        count_live(spec_critters_update(s, w, h, rev)) == count_live(s),
{
    let o1: int = if rev {
        1int
    } else {
        0int
    };
    let o2: int = 1 - o1;
    lemma_critters_sub_complements(s, w, h, o1);
    lemma_critters_sub_complements(spec_critters_sub(s, w, h, o1), w, h, o2);
}

/// The Critters reversible Margolus automaton: each step visits the 2-by-2
/// blocks of both phase-offset partitions and transforms each block by its
/// live-cell count.  The live-cell total is conserved once per full
/// two-phase step, though not at every intermediate half-step.
pub struct MarGrid {
    lat: Lattice<bool>,
    reverse: bool,
}

impl MarGrid {
    pub open spec fn wf(self) -> bool {
        &&& self.w() > 0
        &&& self.h() > 0
        &&& self.w() * self.h() <= usize::MAX
        &&& self.cells().len() == self.w() * self.h()
        &&& self.back().len() == self.w() * self.h()
    }

    pub closed spec fn w(self) -> int {
        self.lat.w()
    }

    pub closed spec fn h(self) -> int {
        self.lat.h()
    }

    pub closed spec fn cells(self) -> Seq<bool> {
        self.lat.cells()
    }

    pub closed spec fn back(self) -> Seq<bool> {
        self.lat.back()
    }

    /// Whether the partitions are visited in reversed order.
    pub closed spec fn reversed(self) -> bool {
        self.reverse
    }

    pub open spec fn same_shape(self, other: MarGrid) -> bool {
        &&& other.wf()
        &&& other.w() == self.w()
        &&& other.h() == self.h()
    }

    /// An all-dead lattice, running forward.
    pub fn new_empty(width: usize, height: usize) -> (r: Result<MarGrid, AutomataError>)
        ensures
            match r {
                Ok(g) => {
                    &&& g.wf()
                    &&& g.w() == width
                    &&& g.h() == height
                    &&& g.cells() == Seq::new((width * height) as nat, |i: int| false)
                    &&& g.reversed() == false
                },
                Err(e) => {
                    &&& e == AutomataError::InvalidDimensions
                    &&& (width == 0 || height == 0 || width * height > usize::MAX)
                },
            },
    {
        match Lattice::new(width, height, false) {
            Ok(lat) => Ok(MarGrid { lat, reverse: false }),
            Err(e) => Err(e),
        }
    }

    /// Flips the order in which the two partitions are visited.
    pub fn reverse(&mut self)
        requires
            old(self).wf(),
        ensures
            old(self).same_shape(*final(self)),
            final(self).back() == old(self).back(),
            final(self).cells() == old(self).cells(),
            final(self).reversed() == !old(self).reversed(),
    {
        self.reverse = !self.reverse;
    }

    /// One full step: both half-steps, in the order the direction selects.
    pub fn update(&mut self)
        requires
            old(self).wf(),
        ensures
            old(self).same_shape(*final(self)),
            final(self).reversed() == old(self).reversed(),
            final(self).back() == spec_critters_sub(
                old(self).cells(),
                old(self).w(),
                old(self).h(),
                if old(self).reversed() {
                    1int
                } else {
                    0int
                },
            ),
            final(self).cells() == spec_critters_update(
                old(self).cells(),
                old(self).w(),
                old(self).h(),
                old(self).reversed(),
            ),
    {
        if self.reverse {
            self.update_grid_2();
            self.update_grid_1();
        } else {
            self.update_grid_1();
            self.update_grid_2();
        }
    }

    /// The half-step on the even-anchored partition.
    pub fn update_grid_1(&mut self)
        requires
            old(self).wf(),
        ensures
            old(self).same_shape(*final(self)),
            final(self).reversed() == old(self).reversed(),
            final(self).back() == old(self).cells(),
            final(self).cells() == spec_critters_sub(
                old(self).cells(),
                old(self).w(),
                old(self).h(),
                0,
            ),
    {
        self.sub_step(0);
    }

    /// The half-step on the odd-anchored partition.
    pub fn update_grid_2(&mut self)
        requires
            old(self).wf(),
        ensures
            old(self).same_shape(*final(self)),
            final(self).reversed() == old(self).reversed(),
            final(self).back() == old(self).cells(),
            final(self).cells() == spec_critters_sub(
                old(self).cells(),
                old(self).w(),
                old(self).h(),
                1,
            ),
    {
        self.sub_step(1);
    }

    /// Computes one half-step pointwise into the scratch buffer, then swaps.
    #[verifier::rlimit(100)]
    fn sub_step(&mut self, offset: usize)
        requires
            old(self).wf(),
            offset == 0 || offset == 1,
        ensures
            old(self).same_shape(*final(self)),
            final(self).reversed() == old(self).reversed(),
            final(self).back() == old(self).cells(),
            final(self).cells() == spec_critters_sub(
                old(self).cells(),
                old(self).w(),
                old(self).h(),
                offset as int,
            ),
    {
        let w = self.lat.width();
        let h = self.lat.height();
        let n = self.lat.len();
        let mut i: usize = 0;
        while i < n
            invariant
                self.wf(),
                self.w() == old(self).w(),
                self.h() == old(self).h(),
                self.reverse == old(self).reverse,
                offset == 0 || offset == 1,
                w == self.w(),
                h == self.h(),
                n == self.w() * self.h(),
                i <= n,
                self.cells() == old(self).cells(),
                self.back().len() == n,
                forall|j: int|
                    0 <= j < i ==> self.back()[j] == spec_critters_cell(
                        old(self).cells(),
                        self.w(),
                        self.h(),
                        offset as int,
                        j,
                    ),
            decreases n - i,
        {
            let x = i % w;
            let y = i / w;
            proof {
                lemma_index_surjective(w as int, h as int, i as int);
            }
            let covered_x = if offset == 0 {
                x < w - w % 2
            } else {
                w % 2 == 0 || x >= 1
            };
            let covered_y = if offset == 0 {
                y < h - h % 2
            } else {
                h % 2 == 0 || y >= 1
            };
            let v: bool;
            if covered_x && covered_y {
                proof {
                    lemma_block_cells(w as int, h as int, offset as int, x as int, y as int);
                }
                let ax = anchor_coord(x, offset, w);
                let ay = anchor_coord(y, offset, h);
                let nx = next_coord(ax, w);
                let ny = next_coord(ay, h);
                let block = self.count_big_cell(ax, ay);
                let cells_pos = block.1;
                if block.0 == 2 {
                    v = self.lat.at(i);
                } else if block.0 == 3 {
                    let k: usize = if x == ax && y == ay {
                        0
                    } else if x == nx && y == ay {
                        1
                    } else if x == nx && y == ny {
                        2
                    } else {
                        3
                    };
                    let src: usize = (k + 2) % 4;
                    v = !self.lat.at(cells_pos[src]);
                } else {
                    v = !self.lat.at(i);
                }
            } else {
                v = self.lat.at(i);
            }
            self.lat.set_back(i, v);
            i = i + 1;
        }
        self.lat.swap_buffers();
        proof {
            assert(self.cells() =~= spec_critters_sub(
                old(self).cells(),
                self.w(),
                self.h(),
                offset as int,
            ));
        }
    }

    /// The block at anchor `(x, y)`: its live count and the four cell
    /// addresses in clockwise order.
    pub fn count_big_cell(&self, x: usize, y: usize) -> (r: (usize, [usize; 4]))
        requires
            self.wf(),
            x < self.w(),
            y < self.h(),
        ensures
            ({
                let ps = spec_block_cells(self.w(), self.h(), x as int, y as int);
                &&& r.0 == spec_block_count(self.cells(), ps)
                &&& forall|k: int| 0 <= k < 4 ==> #[trigger] r.1@[k] == ps[k]
                &&& forall|k: int| 0 <= k < 4 ==> #[trigger] r.1@[k] < self.w() * self.h()
            }),
    {
        let w = self.lat.width();
        let h = self.lat.height();
        let nx = next_coord(x, w);
        let ny = next_coord(y, h);
        let p0 = self.lat.index_of(x, y);
        let p1 = self.lat.index_of(nx, y);
        let p2 = self.lat.index_of(nx, ny);
        let p3 = self.lat.index_of(x, ny);
        let count: usize = (if self.lat.at(p0) {
            1usize
        } else {
            0usize
        }) + (if self.lat.at(p1) {
            1usize
        } else {
            0usize
        }) + (if self.lat.at(p2) {
            1usize
        } else {
            0usize
        }) + (if self.lat.at(p3) {
            1usize
        } else {
            0usize
        });
        let ps: [usize; 4] = [p0, p1, p2, p3];
        proof {
            assert(ps@[0] == p0 && ps@[1] == p1 && ps@[2] == p2 && ps@[3] == p3);
        }
        (count, ps)
    }

    /// Transforms one block in place by its live count: two live cells
    /// leave it untouched, three rotate it 180 degrees and invert it, and
    /// any other count inverts all four cells.
    pub fn update_big_cell(&mut self, n: usize, cells: [usize; 4])
        requires
            old(self).wf(),
            forall|k: int| 0 <= k < 4 ==> #[trigger] cells@[k] < old(self).w() * old(self).h(),
            forall|k1: int, k2: int|
                0 <= k1 < 4 && 0 <= k2 < 4 && k1 != k2 ==> #[trigger] cells@[k1] != #[trigger] cells@[k2],
        ensures
            old(self).same_shape(*final(self)),
            final(self).back() == old(self).back(),
            final(self).reversed() == old(self).reversed(),
            n == 2 ==> final(self).cells() == old(self).cells(),
            (n == 0 || n == 1 || n == 4) ==> final(self).cells() == old(self).cells().update(
                cells@[0] as int,
                !old(self).cells()[cells@[0] as int],
            ).update(cells@[1] as int, !old(self).cells()[cells@[1] as int]).update(
                cells@[2] as int,
                !old(self).cells()[cells@[2] as int],
            ).update(cells@[3] as int, !old(self).cells()[cells@[3] as int]),
            !(n == 2 || n == 0 || n == 1 || n == 4) ==> final(self).cells() == old(
                self,
            ).cells().update(cells@[0] as int, !old(self).cells()[cells@[2] as int]).update(
                cells@[1] as int,
                !old(self).cells()[cells@[3] as int],
            ).update(cells@[2] as int, !old(self).cells()[cells@[0] as int]).update(
                cells@[3] as int,
                !old(self).cells()[cells@[1] as int],
            ),
    {
        if n == 2 {
            return ;
        } else if n == 0 || n == 1 || n == 4 {
            let t0 = self.lat.at(cells[0]);
            let t1 = self.lat.at(cells[1]);
            let t2 = self.lat.at(cells[2]);
            let t3 = self.lat.at(cells[3]);
            self.lat.set_at(cells[0], !t0);
            self.lat.set_at(cells[1], !t1);
            self.lat.set_at(cells[2], !t2);
            self.lat.set_at(cells[3], !t3);
        } else {
            let t0 = self.lat.at(cells[0]);
            let t1 = self.lat.at(cells[1]);
            let t2 = self.lat.at(cells[2]);
            let t3 = self.lat.at(cells[3]);
            self.lat.set_at(cells[0], !t2);
            self.lat.set_at(cells[1], !t3);
            self.lat.set_at(cells[2], !t0);
            self.lat.set_at(cells[3], !t1);
        }
    }

    /// Randomizes every cell from a fresh entropy seed; fails only if the
    /// entropy source does, leaving the lattice untouched.
    pub fn randomize(&mut self) -> (r: Result<(), AutomataError>)
        requires
            old(self).wf(),
        ensures
            old(self).same_shape(*final(self)),
            final(self).back() == old(self).back(),
            final(self).reversed() == old(self).reversed(),
            r matches Err(e) ==> e == AutomataError::EntropyFailure && *final(self) == *old(self),
            r is Ok ==> exists|a: u64, b: u64|
                final(self).cells() == spec_random_fill(
                    old(self).cells().len(),
                    a,
                    b,
                    INITIAL_FILL_MANTISSA,
                ),
    {
        let (seed_a, seed_b) = match generate_seed() {
            Ok(s) => s,
            Err(e) => {
                return Err(e);
            },
        };
        self.randomize_with_seed(seed_a, seed_b);
        proof {
            assert(self.cells() == spec_random_fill(
                old(self).cells().len(),
                seed_a,
                seed_b,
                INITIAL_FILL_MANTISSA,
            ));
        }
        Ok(())
    }

    /// Deterministically randomizes the lattice: cell `i` is made live
    /// exactly when the unit mantissa of the `i`-th draw of the seeded
    /// generator exceeds the 0.95 threshold.
    #[verifier::rlimit(50)]
    pub fn randomize_with_seed(&mut self, seed_a: u64, seed_b: u64)
        requires
            old(self).wf(),
        ensures
            old(self).same_shape(*final(self)),
            final(self).back() == old(self).back(),
            final(self).reversed() == old(self).reversed(),
            final(self).cells() == spec_random_fill(
                old(self).cells().len(),
                seed_a,
                seed_b,
                INITIAL_FILL_MANTISSA,
            ),
    {
        let ghost g0 = Pcg32::spec_seed(seed_a, seed_b);
        let mut rng = Pcg32::seed(seed_a, seed_b);
        let n = self.lat.len();
        let mut i: usize = 0;
        while i < n
            invariant
                self.wf(),
                self.w() == old(self).w(),
                self.h() == old(self).h(),
                self.back() == old(self).back(),
                self.reverse == old(self).reverse,
                i <= n,
                n == self.w() * self.h(),
                self.cells().len() == old(self).cells().len(),
                rng == spec_state_after(g0, i as nat),
                forall|j: int|
                    0 <= j < i ==> self.cells()[j] == (spec_unit_mantissa(spec_draw(g0, j as nat))
                        > INITIAL_FILL_MANTISSA),
            decreases n - i,
        {
            let draw = rng.next_u32();
            let alive = unit_mantissa(draw) > INITIAL_FILL_MANTISSA;
            self.lat.set_at(i, alive);
            proof {
                assert(spec_draw(g0, i as nat) == spec_state_after(g0, i as nat).spec_output());
            }
            i = i + 1;
        }
        proof {
            assert(self.cells() =~= spec_random_fill(
                old(self).cells().len(),
                seed_a,
                seed_b,
                INITIAL_FILL_MANTISSA,
            ));
        }
    }

    /// Toggles the clicked cell and reports the state it now has;
    /// coordinates outside the lattice are ignored and reported dead.
    pub fn toggle(&mut self, x: isize, y: isize) -> (r: bool)
        requires
            old(self).wf(),
        ensures
            old(self).same_shape(*final(self)),
            final(self).back() == old(self).back(),
            final(self).reversed() == old(self).reversed(),
            (0 <= x < old(self).w() && 0 <= y < old(self).h()) ==> {
                &&& r == !old(self).cells()[x + y * old(self).w()]
                &&& final(self).cells() == old(self).cells().update(x + y * old(self).w(), r)
            },
            !(0 <= x < old(self).w() && 0 <= y < old(self).h()) ==> r == false && final(self).cells()
                == old(self).cells(),
    {
        match self.grid_idx(x, y) {
            Some(i) => {
                proof {
                    crate::lattice::lemma_index_in_range(self.w(), self.h(), x as int, y as int);
                }
                let was_alive = self.lat.at(i);
                self.lat.set_at(i, !was_alive);
                !was_alive
            },
            None => false,
        }
    }

    /// Kills every cell.
    pub fn clear(&mut self)
        requires
            old(self).wf(),
        ensures
            old(self).same_shape(*final(self)),
            final(self).back() == old(self).back(),
            final(self).reversed() == old(self).reversed(),
            final(self).cells() == Seq::new(old(self).cells().len(), |i: int| false),
    {
        self.lat.fill(false);
    }

    /// Paints the lattice into a 4-bytes-per-cell pixel buffer: live cells
    /// white, dead cells black.
    pub fn draw(&self, screen: &mut Vec<u8>)
        requires
            self.wf(),
            old(screen)@.len() == 4 * (self.w() * self.h()),
        ensures
            final(screen)@.len() == old(screen)@.len(),
            forall|i: int|
                0 <= i < self.w() * self.h() ==> final(screen)@.subrange(4 * i, 4 * i + 4)
                    == crate::elementary::spec_bw_color(self.cells()[i]),
    {
        let n = self.lat.len();
        let total = screen.len();
        let mut i: usize = 0;
        while i < n
            invariant
                self.wf(),
                n == self.w() * self.h(),
                i <= n,
                total == screen@.len(),
                screen@.len() == 4 * n,
                forall|j: int|
                    0 <= j < i ==> screen@.subrange(4 * j, 4 * j + 4)
                        == crate::elementary::spec_bw_color(self.cells()[j]),
            decreases n - i,
        {
            let c = crate::elementary::bw_color(self.lat.at(i));
            screen.set(4 * i, c[0]);
            screen.set(4 * i + 1, c[1]);
            screen.set(4 * i + 2, c[2]);
            screen.set(4 * i + 3, c[3]);
            proof {
                assert forall|j: int| 0 <= j < i + 1 implies screen@.subrange(4 * j, 4 * j + 4)
                    == crate::elementary::spec_bw_color(self.cells()[j]) by {
                    assert(screen@.subrange(4 * j, 4 * j + 4) =~= crate::elementary::spec_bw_color(
                        self.cells()[j],
                    ));
                }
            }
            i = i + 1;
        }
    }

    /// The flat address of `(x, y)`: `Some` exactly on in-range coordinates.
    pub fn grid_idx(&self, x: isize, y: isize) -> (r: Option<usize>)
        requires
            self.wf(),
        ensures
            match r {
                Some(i) => 0 <= x < self.w() && 0 <= y < self.h() && i == x + y * self.w(),
                None => !(0 <= x < self.w() && 0 <= y < self.h()),
            },
    {
        if x >= 0 && y >= 0 {
            let xu = x as usize;
            let yu = y as usize;
            if xu < self.lat.width() && yu < self.lat.height() {
                Some(self.lat.index_of(xu, yu))
            } else {
                None
            }
        } else {
            None
        }
    }

    /// The coordinates a flat address decomposes into.
    pub fn idx_grid(&self, n: usize) -> (r: Option<(usize, usize)>)
        requires
            self.wf(),
        ensures
            r matches Some(p) && p.0 == n as int % self.w() && p.1 == n as int / self.w(),
    {
        let w = self.lat.width();
        Some((n % w, n / w))
    }

    /// Bounds-checked read of one cell.
    pub fn get(&self, x: usize, y: usize) -> (r: Option<bool>)
        requires
            self.wf(),
        ensures
            match r {
                Some(b) => x < self.w() && y < self.h() && b == self.cells()[x + y * self.w()],
                None => x >= self.w() || y >= self.h(),
            },
    {
        self.lat.get(x, y)
    }

    /// Bounds-checked write of one cell.
    pub fn set(&mut self, x: usize, y: usize, alive: bool) -> (r: bool)
        requires
            old(self).wf(),
        ensures
            old(self).same_shape(*final(self)),
            final(self).back() == old(self).back(),
            final(self).reversed() == old(self).reversed(),
            r == (x < old(self).w() && y < old(self).h()),
            r ==> final(self).cells() == old(self).cells().update(x + y * old(self).w(), alive),
            !r ==> final(self).cells() == old(self).cells(),
    {
        self.lat.set(x, y, alive)
    }

    /// Draws a segment of cells: the start point is clamped into
    /// `[0, width] x [0, height]`, the segment is rasterized with integer
    /// Bresenham stepping, and cells are set until the line first leaves
    /// the lattice.
    pub fn set_line(&mut self, x0: isize, y0: isize, x1: isize, y1: isize, alive: bool)
        requires
            old(self).wf(),
            old(self).w() <= 268435456,
            old(self).h() <= 268435456,
            -COORD_LIMIT <= x1 <= COORD_LIMIT,
            -COORD_LIMIT <= y1 <= COORD_LIMIT,
        ensures
            old(self).same_shape(*final(self)),
            final(self).back() == old(self).back(),
            final(self).reversed() == old(self).reversed(),
            final(self).cells().len() == old(self).cells().len(),
            forall|i: int|
                0 <= i < old(self).cells().len() ==> final(self).cells()[i] == (if spec_line_cells(
                    x0 as int,
                    y0 as int,
                    x1 as int,
                    y1 as int,
                    old(self).w(),
                    old(self).h(),
                ).contains(i) {
                    alive
                } else {
                    old(self).cells()[i]
                }),
    {
        let w = self.lat.width();
        let h = self.lat.height();
        let idxs = rasterize_clipped(x0, y0, x1, y1, w, h);
        set_cells(
            &mut self.lat,
            &idxs,
            Ghost(spec_line_cells(x0 as int, y0 as int, x1 as int, y1 as int, w as int, h as int)),
            alive,
        );
    }

    pub fn width(&self) -> (r: usize)
        ensures
            r == self.w(),
    {
        self.lat.width()
    }

    pub fn height(&self) -> (r: usize)
        ensures
            r == self.h(),
    {
        self.lat.height()
    }

    /// Whether the partitions are visited in reversed order.
    pub fn is_reversed(&self) -> (r: bool)
        ensures
            r == self.reversed(),
    {
        self.reverse
    }
}

/// The anchor coordinate of the block containing covered coordinate `v`.
fn anchor_coord(v: usize, o: usize, n: usize) -> (r: usize)
    requires
        v < n,
        o == 0 || o == 1,
        axis_covered(v as int, o as int, n as int),
    ensures
        r == axis_anchor(v as int, o as int, n as int),
        r < n,
{
    proof {
        lemma_axis_anchor(v as int, o as int, n as int);
    }
    if o == 0 {
        v - v % 2
    } else if v % 2 == 1 {
        v
    } else if v == 0 {
        n - 1
    } else {
        v - 1
    }
}

/// The toroidal successor of an anchor coordinate.
fn next_coord(a: usize, n: usize) -> (r: usize)
    requires
        a < n,
    ensures
        r == axis_next(a as int, n as int),
        r < n,
{
    if a + 1 >= n {
        a + 1 - n
    } else {
        a + 1
    }
}

} // verus!
