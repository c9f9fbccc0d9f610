use vstd::prelude::*;

use crate::error::AutomataError;
use crate::lattice::{lemma_index_surjective, set_cells, Lattice};
use crate::raster::{rasterize_clipped, spec_line_cells, COORD_LIMIT};
use crate::margolus::{
    axis_anchor, axis_covered, axis_next, lemma_axis_anchor, lemma_block_cells, spec_block_cells,
    spec_block_count, spec_covered, spec_pos_index,
};
use crate::randomizer::{generate_seed, spec_draw, spec_random_fill, spec_state_after, spec_unit_mantissa, unit_mantissa, Pcg32};

verus! {

/// The integer form of the 0.95 fill fraction used when randomizing: a draw
/// counts as live when its 23-bit unit mantissa exceeds this threshold,
/// exactly when the draw mapped into `[0, 1)` exceeds the 32-bit float
/// nearest to 0.95.
pub const INITIAL_FILL_MANTISSA: u32 = 7969177;

/// What covered cell `i` holds after one half-step of the single-rotation
/// rule on partition `o`: a block with exactly one live cell rotates 90
/// degrees, clockwise normally and counter-clockwise in reverse; every
/// other block is left alone.
pub open spec fn spec_rotor_cell(s: Seq<bool>, w: int, h: int, o: int, rev: bool, i: int) -> bool {
    let x = i % w;
    let y = i / w;
    if spec_covered(w, h, o, x, y) {
        let ax = axis_anchor(x, o, w);
        let ay = axis_anchor(y, o, h);
        let ps = spec_block_cells(w, h, ax, ay);
        let c = spec_block_count(s, ps);
        let k = spec_pos_index(w, h, o, x, y);
        if c == 1 {
            if rev {
                s[ps[(k + 3) % 4]]
            } else {
                s[ps[(k + 1) % 4]]
            }
        } else {
            s[i]
        }
    } else {
        s[i]
    }
}

/// One half-step over the whole lattice, as a pointwise map.
pub open spec fn spec_rotor_sub(s: Seq<bool>, w: int, h: int, o: int, rev: bool) -> Seq<bool> {
    Seq::new(s.len(), |i: int| spec_rotor_cell(s, w, h, o, rev, i))
}

/// A half-step in one direction is undone exactly by the half-step on the
/// same partition in the other direction: a one-cell block keeps its count
/// under rotation, so the reversed pass rotates precisely the blocks the
/// forward pass rotated, the other way.
#[verifier::rlimit(100)]
pub proof fn lemma_rotor_sub_inverse(s: Seq<bool>, w: int, h: int, o: int, rev: bool)
    requires
        0 < w,
        0 < h,
        s.len() == w * h,
        o == 0 || o == 1,
    ensures
        spec_rotor_sub(spec_rotor_sub(s, w, h, o, rev), w, h, o, !rev) == s,
{
    let s1 = spec_rotor_sub(s, w, h, o, rev);
    let s2 = spec_rotor_sub(s1, w, h, o, !rev);
    assert(s1.len() == s.len());
    assert forall|i: int| 0 <= i < s.len() implies s2[i] == s[i] by {
        lemma_index_surjective(w, h, i);
        let x = i % w;
        let y = i / w;
        if spec_covered(w, h, o, x, y) {
            lemma_block_cells(w, h, o, x, y);
            let ax = axis_anchor(x, o, w);
            let ay = axis_anchor(y, o, h);
            let ps = spec_block_cells(w, h, ax, ay);
            let c = spec_block_count(s, ps);
            let k = spec_pos_index(w, h, o, x, y);
            assert(ps[k] == i);
            assert forall|j: int| 0 <= j < 4 implies s1[#[trigger] ps[j]] == (if c == 1 {
                if rev {
                    s[ps[(j + 3) % 4]]
                } else {
                    s[ps[(j + 1) % 4]]
                }
            } else {
                s[ps[j]]
            }) by {
                crate::lattice::lemma_index_surjective(w, h, ps[j]);
            }
            assert(spec_block_count(s1, ps) == c);
            assert(s2[i] == spec_rotor_cell(s1, w, h, o, !rev, i));
        } else {
            assert(s1[i] == s[i]);
            assert(s2[i] == s1[i]);
        }
    }
    assert(s2 =~= s);
}

/// One full step at the specification level: the phase flips, and the
/// half-step runs on the partition the new phase selects.
pub open spec fn spec_update_state(s: Seq<bool>, phase: bool, w: int, h: int, rev: bool) -> (
    Seq<bool>,
    bool,
) {
    (
        spec_rotor_sub(
            s,
            w,
            h,
            if phase {
                1int
            } else {
                0int
            },
            rev,
        ),
        !phase,
    )
}

/// `n` full steps, all in the same direction.
pub open spec fn spec_run(s: Seq<bool>, phase: bool, w: int, h: int, rev: bool, n: nat) -> (
    Seq<bool>,
    bool,
)
    decreases n,
{
    if n == 0 {
        (s, phase)
    } else {
        let prev = spec_run(s, phase, w, h, rev, (n - 1) as nat);
        spec_update_state(prev.0, prev.1, w, h, rev)
    }
}

/// Running preserves the cell count of the lattice buffer.
pub proof fn lemma_run_len(s: Seq<bool>, phase: bool, w: int, h: int, rev: bool, n: nat)
    ensures
        spec_run(s, phase, w, h, rev, n).0.len() == s.len(),
    decreases n,
{
    if n > 0 {
        lemma_run_len(s, phase, w, h, rev, (n - 1) as nat);
    }
}

/// Peeling the first step off a run.
pub proof fn lemma_run_shift(s: Seq<bool>, phase: bool, w: int, h: int, rev: bool, n: nat)
    ensures
        ({
            let u = spec_update_state(s, phase, w, h, rev);
            spec_run(s, phase, w, h, rev, (n + 1) as nat) == spec_run(u.0, u.1, w, h, rev, n)
        }),
    decreases n,
{
    let u = spec_update_state(s, phase, w, h, rev);
    if n == 0 {
        assert(spec_run(s, phase, w, h, rev, 1) == spec_update_state(
            spec_run(s, phase, w, h, rev, 0).0,
            spec_run(s, phase, w, h, rev, 0).1,
            w,
            h,
            rev,
        ));
    } else {
        lemma_run_shift(s, phase, w, h, rev, (n - 1) as nat);
        assert(spec_run(s, phase, w, h, rev, (n + 1) as nat) == spec_update_state(
            spec_run(s, phase, w, h, rev, n).0,
            spec_run(s, phase, w, h, rev, n).1,
            w,
            h,
            rev,
        ));
        assert(spec_run(u.0, u.1, w, h, rev, n) == spec_update_state(
            spec_run(u.0, u.1, w, h, rev, (n - 1) as nat).0,
            spec_run(u.0, u.1, w, h, rev, (n - 1) as nat).1,
            w,
            h,
            rev,
        ));
    }
}

/// The retracing law: after `n` forward steps, toggling the direction (which
/// also realigns the phase, as the reverse command does), then `n` reversed
/// steps bring every cell back to its exact pre-run state.
pub proof fn lemma_rotor_retrace(s: Seq<bool>, phase: bool, w: int, h: int, n: nat)
    requires
        0 < w,
        0 < h,
        s.len() == w * h,
    ensures
        ({
            let fwd = spec_run(s, phase, w, h, false, n);
            let back = spec_run(fwd.0, !fwd.1, w, h, true, n);
            back.0 == s && back.1 == !phase
        }),
    decreases n,
{
    if n > 0 {
        let fwd1 = spec_run(s, phase, w, h, false, (n - 1) as nat);
        let fwd = spec_update_state(fwd1.0, fwd1.1, w, h, false);
        lemma_run_len(s, phase, w, h, false, (n - 1) as nat);
        let o: int = if fwd1.1 {
            1int
        } else {
            0int
        };
        lemma_rotor_sub_inverse(fwd1.0, w, h, o, false);
        let u = spec_update_state(fwd.0, !fwd.1, w, h, true);
        assert(u.0 == fwd1.0 && u.1 == !fwd1.1);
        lemma_run_shift(fwd.0, !fwd.1, w, h, true, (n - 1) as nat);
        lemma_rotor_retrace(s, phase, w, h, (n - 1) as nat);
    }
}

/// The single-rotation reversible Margolus automaton: 2-by-2 blocks on two
/// alternating partitions; a block holding exactly one live cell rotates 90
/// degrees, clockwise when running forward and counter-clockwise when the
/// direction is reversed.
pub struct MarGrid {
    lat: Lattice<bool>,
    reverse: bool,
    phase: bool,
}

impl MarGrid {
    pub open spec fn wf(self) -> bool {
        &&& self.w() > 0
        &&& self.h() > 0
        &&& self.w() * self.h() <= usize::MAX
        &&& self.cells().len() == self.w() * self.h()
        &&& self.back().len() == self.w() * self.h()
    }

    pub closed spec fn w(self) -> int {
        self.lat.w()
    }

    pub closed spec fn h(self) -> int {
        self.lat.h()
    }

    pub closed spec fn cells(self) -> Seq<bool> {
        self.lat.cells()
    }

    pub closed spec fn back(self) -> Seq<bool> {
        self.lat.back()
    }

    /// Whether the automaton is running backward.
    pub closed spec fn reversed(self) -> bool {
        self.reverse
    }

    /// Which partition the next step will use.
    pub closed spec fn spec_phase(self) -> bool {
        self.phase
    }

    pub open spec fn same_shape(self, other: MarGrid) -> bool {
        &&& other.wf()
        &&& other.w() == self.w()
        &&& other.h() == self.h()
    }

    /// An all-dead lattice, running forward, starting on the even partition.
    pub fn new_empty(width: usize, height: usize) -> (r: Result<MarGrid, AutomataError>)
        ensures
            match r {
                Ok(g) => {
                    &&& g.wf()
                    &&& g.w() == width
                    &&& g.h() == height
                    &&& g.cells() == Seq::new((width * height) as nat, |i: int| false)
                    &&& g.reversed() == false
                    &&& g.spec_phase() == false
                },
                Err(e) => {
                    &&& e == AutomataError::InvalidDimensions
                    &&& (width == 0 || height == 0 || width * height > usize::MAX)
                },
            },
    {
        match Lattice::new(width, height, false) {
            Ok(lat) => Ok(MarGrid { lat, reverse: false, phase: false }),
            Err(e) => Err(e),
        }
    }

    /// Reverses the arrow of time: flips the running direction and realigns
    /// the phase so that the next step revisits the partition just used.
    /// Toggling twice returns the direction to its original sense.
    pub fn reverse(&mut self)
        requires
            old(self).wf(),
        ensures
            old(self).same_shape(*final(self)),
            final(self).back() == old(self).back(),
            final(self).cells() == old(self).cells(),
            final(self).reversed() == !old(self).reversed(),
            final(self).spec_phase() == !old(self).spec_phase(),
    {
        self.phase = !self.phase;
        self.reverse = !self.reverse;
    }

    /// One full step: the phase flips and the half-step runs on the
    /// partition the new phase selects, in the current direction.
    pub fn update(&mut self)
        requires
            old(self).wf(),
        ensures
            old(self).same_shape(*final(self)),
            final(self).reversed() == old(self).reversed(),
            final(self).back() == old(self).cells(),
            (final(self).cells(), final(self).spec_phase()) == spec_update_state(
                old(self).cells(),
                old(self).spec_phase(),
                old(self).w(),
                old(self).h(),
                old(self).reversed(),
            ),
    {
        self.phase = !self.phase;
        if self.phase {
            self.update_grid_1();
        } else {
            self.update_grid_2();
        }
    }

    /// The half-step on the even-anchored partition.
    pub fn update_grid_1(&mut self)
        requires
            old(self).wf(),
        ensures
            old(self).same_shape(*final(self)),
            final(self).reversed() == old(self).reversed(),
            final(self).spec_phase() == old(self).spec_phase(),
            final(self).back() == old(self).cells(),
            final(self).cells() == spec_rotor_sub(
                old(self).cells(),
                old(self).w(),
                old(self).h(),
                0,
                old(self).reversed(),
            ),
    {
        let rev = self.reverse;
        self.sub_step(0, rev);
    }

    /// The half-step on the odd-anchored partition.
    pub fn update_grid_2(&mut self)
        requires
            old(self).wf(),
        ensures
            old(self).same_shape(*final(self)),
            final(self).reversed() == old(self).reversed(),
            final(self).spec_phase() == old(self).spec_phase(),
            final(self).back() == old(self).cells(),
            final(self).cells() == spec_rotor_sub(
                old(self).cells(),
                old(self).w(),
                old(self).h(),
                1,
                old(self).reversed(),
            ),
    {
        let rev = self.reverse;
        self.sub_step(1, rev);
    }

    /// Computes one half-step pointwise into the scratch buffer, then swaps.
    #[verifier::rlimit(100)]
    fn sub_step(&mut self, offset: usize, rev: bool)
        requires
            old(self).wf(),
            offset == 0 || offset == 1,
        ensures
            old(self).same_shape(*final(self)),
            final(self).reversed() == old(self).reversed(),
            final(self).spec_phase() == old(self).spec_phase(),
            final(self).back() == old(self).cells(),
            final(self).cells() == spec_rotor_sub(
                old(self).cells(),
                old(self).w(),
                old(self).h(),
                offset as int,
                rev,
            ),
    {
        let w = self.lat.width();
        let h = self.lat.height();
        let n = self.lat.len();
        let mut i: usize = 0;
        while i < n
            invariant
                self.wf(),
                self.w() == old(self).w(),
                self.h() == old(self).h(),
                self.reverse == old(self).reverse,
                self.phase == old(self).phase,
                offset == 0 || offset == 1,
                w == self.w(),
                h == self.h(),
                n == self.w() * self.h(),
                i <= n,
                self.cells() == old(self).cells(),
                self.back().len() == n,
                forall|j: int|
                    0 <= j < i ==> self.back()[j] == spec_rotor_cell(
                        old(self).cells(),
                        self.w(),
                        self.h(),
                        offset as int,
                        rev,
                        j,
                    ),
            decreases n - i,
        {
            let x = i % w;
            let y = i / w;
            proof {
                lemma_index_surjective(w as int, h as int, i as int);
            }
            let covered_x = if offset == 0 {
                x < w - w % 2
            } else {
                w % 2 == 0 || x >= 1
            };
            let covered_y = if offset == 0 {
                y < h - h % 2
            } else {
                h % 2 == 0 || y >= 1
            };
            let v: bool;
            if covered_x && covered_y {
                proof {
                    lemma_block_cells(w as int, h as int, offset as int, x as int, y as int);
                }
                let ax = anchor_coord(x, offset, w);
                let ay = anchor_coord(y, offset, h);
                let nx = next_coord(ax, w);
                let ny = next_coord(ay, h);
                let block = self.count_big_cell(ax, ay);
                let cells_pos = block.1;
                if block.0 == 1 {
                    let k: usize = if x == ax && y == ay {
                        0
                    } else if x == nx && y == ay {
                        1
                    } else if x == nx && y == ny {
                        2
                    } else {
                        3
                    };
                    let src: usize = if rev {
                        (k + 3) % 4
                    } else {
                        (k + 1) % 4
                    };
                    v = self.lat.at(cells_pos[src]);
                } else {
                    v = self.lat.at(i);
                }
            } else {
                v = self.lat.at(i);
            }
            self.lat.set_back(i, v);
            i = i + 1;
        }
        self.lat.swap_buffers();
        proof {
            assert(self.cells() =~= spec_rotor_sub(
                old(self).cells(),
                self.w(),
                self.h(),
                offset as int,
                rev,
            ));
        }
    }

    /// The block at anchor `(x, y)`: its live count and the four cell
    /// addresses in clockwise order.
    pub fn count_big_cell(&self, x: usize, y: usize) -> (r: (usize, [usize; 4]))
        requires
            self.wf(),
            x < self.w(),
            y < self.h(),
        ensures
            ({
                let ps = spec_block_cells(self.w(), self.h(), x as int, y as int);
                &&& r.0 == spec_block_count(self.cells(), ps)
                &&& forall|k: int| 0 <= k < 4 ==> #[trigger] r.1@[k] == ps[k]
                &&& forall|k: int| 0 <= k < 4 ==> #[trigger] r.1@[k] < self.w() * self.h()
            }),
    {
        let w = self.lat.width();
        let h = self.lat.height();
        let nx = next_coord(x, w);
        let ny = next_coord(y, h);
        let p0 = self.lat.index_of(x, y);
        let p1 = self.lat.index_of(nx, y);
        let p2 = self.lat.index_of(nx, ny);
        let p3 = self.lat.index_of(x, ny);
        let count: usize = (if self.lat.at(p0) {
            1usize
        } else {
            0usize
        }) + (if self.lat.at(p1) {
            1usize
        } else {
            0usize
        }) + (if self.lat.at(p2) {
            1usize
        } else {
            0usize
        }) + (if self.lat.at(p3) {
            1usize
        } else {
            0usize
        });
        let ps: [usize; 4] = [p0, p1, p2, p3];
        proof {
            assert(ps@[0] == p0 && ps@[1] == p1 && ps@[2] == p2 && ps@[3] == p3);
        }
        (count, ps)
    }

    /// Rotates the block 90 degrees clockwise, in place, exactly when it
    /// holds one live cell.
    pub fn update_big_cell(&mut self, n: usize, cells: [usize; 4])
        requires
            old(self).wf(),
            forall|k: int| 0 <= k < 4 ==> #[trigger] cells@[k] < old(self).w() * old(self).h(),
            forall|k1: int, k2: int|
                0 <= k1 < 4 && 0 <= k2 < 4 && k1 != k2 ==> #[trigger] cells@[k1] != #[trigger] cells@[k2],
        ensures
            old(self).same_shape(*final(self)),
            final(self).back() == old(self).back(),
            final(self).reversed() == old(self).reversed(),
            final(self).spec_phase() == old(self).spec_phase(),
            n == 1 ==> final(self).cells() == old(self).cells().update(
                cells@[0] as int,
                old(self).cells()[cells@[1] as int],
            ).update(cells@[1] as int, old(self).cells()[cells@[2] as int]).update(
                cells@[2] as int,
                old(self).cells()[cells@[3] as int],
            ).update(cells@[3] as int, old(self).cells()[cells@[0] as int]),
            n != 1 ==> final(self).cells() == old(self).cells(),
    {
        if n == 1 {
            let t0 = self.lat.at(cells[0]);
            let t1 = self.lat.at(cells[1]);
            let t2 = self.lat.at(cells[2]);
            let t3 = self.lat.at(cells[3]);
            self.lat.set_at(cells[0], t1);
            self.lat.set_at(cells[1], t2);
            self.lat.set_at(cells[2], t3);
            self.lat.set_at(cells[3], t0);
        }
    }

    /// Rotates the block 90 degrees counter-clockwise, in place, exactly
    /// when it holds one live cell.
    pub fn update_big_cell_reverse(&mut self, n: usize, cells: [usize; 4])
        requires
            old(self).wf(),
            forall|k: int| 0 <= k < 4 ==> #[trigger] cells@[k] < old(self).w() * old(self).h(),
            forall|k1: int, k2: int|
                0 <= k1 < 4 && 0 <= k2 < 4 && k1 != k2 ==> #[trigger] cells@[k1] != #[trigger] cells@[k2],
        ensures
            old(self).same_shape(*final(self)),
            final(self).back() == old(self).back(),
            final(self).reversed() == old(self).reversed(),
            final(self).spec_phase() == old(self).spec_phase(),
            n == 1 ==> final(self).cells() == old(self).cells().update(
                cells@[0] as int,
                old(self).cells()[cells@[3] as int],
            ).update(cells@[1] as int, old(self).cells()[cells@[0] as int]).update(
                cells@[2] as int,
                old(self).cells()[cells@[1] as int],
            ).update(cells@[3] as int, old(self).cells()[cells@[2] as int]),
            n != 1 ==> final(self).cells() == old(self).cells(),
    {
        if n == 1 {
            let t0 = self.lat.at(cells[0]);
            let t1 = self.lat.at(cells[1]);
            let t2 = self.lat.at(cells[2]);
            let t3 = self.lat.at(cells[3]);
            self.lat.set_at(cells[0], t3);
            self.lat.set_at(cells[1], t0);
            self.lat.set_at(cells[2], t1);
            self.lat.set_at(cells[3], t2);
        }
    }

    /// Randomizes every cell from a fresh entropy seed; fails only if the
    /// entropy source does, leaving the lattice untouched.
    pub fn randomize(&mut self) -> (r: Result<(), AutomataError>)
        requires
            old(self).wf(),
        ensures
            old(self).same_shape(*final(self)),
            final(self).back() == old(self).back(),
            final(self).reversed() == old(self).reversed(),
            final(self).spec_phase() == old(self).spec_phase(),
            r matches Err(e) ==> e == AutomataError::EntropyFailure && *final(self) == *old(self),
            r is Ok ==> exists|a: u64, b: u64|
                final(self).cells() == spec_random_fill(
                    old(self).cells().len(),
                    a,
                    b,
                    INITIAL_FILL_MANTISSA,
                ),
    {
        let (seed_a, seed_b) = match generate_seed() {
            Ok(s) => s,
            Err(e) => {
                return Err(e);
            },
        };
        self.randomize_with_seed(seed_a, seed_b);
        proof {
            assert(self.cells() == spec_random_fill(
                old(self).cells().len(),
                seed_a,
                seed_b,
                INITIAL_FILL_MANTISSA,
            ));
        }
        Ok(())
    }

    /// Deterministically randomizes the lattice: cell `i` is made live
    /// exactly when the unit mantissa of the `i`-th draw of the seeded
    /// generator exceeds the 0.95 threshold.
    #[verifier::rlimit(50)]
    pub fn randomize_with_seed(&mut self, seed_a: u64, seed_b: u64)
        requires
            old(self).wf(),
        ensures
            old(self).same_shape(*final(self)),
            final(self).back() == old(self).back(),
            final(self).reversed() == old(self).reversed(),
            final(self).spec_phase() == old(self).spec_phase(),
            final(self).cells() == spec_random_fill(
                old(self).cells().len(),
                seed_a,
                seed_b,
                INITIAL_FILL_MANTISSA,
            ),
    {
        let ghost g0 = Pcg32::spec_seed(seed_a, seed_b);
        let mut rng = Pcg32::seed(seed_a, seed_b);
        let n = self.lat.len();
        let mut i: usize = 0;
        while i < n
            invariant
                self.wf(),
                self.w() == old(self).w(),
                self.h() == old(self).h(),
                self.back() == old(self).back(),
                self.reverse == old(self).reverse,
                self.phase == old(self).phase,
                i <= n,
                n == self.w() * self.h(),
                self.cells().len() == old(self).cells().len(),
                rng == spec_state_after(g0, i as nat),
                forall|j: int|
                    0 <= j < i ==> self.cells()[j] == (spec_unit_mantissa(spec_draw(g0, j as nat))
                        > INITIAL_FILL_MANTISSA),
            decreases n - i,
        {
            let draw = rng.next_u32();
            let alive = unit_mantissa(draw) > INITIAL_FILL_MANTISSA;
            self.lat.set_at(i, alive);
            proof {
                assert(spec_draw(g0, i as nat) == spec_state_after(g0, i as nat).spec_output());
            }
            i = i + 1;
        }
        proof {
            assert(self.cells() =~= spec_random_fill(
                old(self).cells().len(),
                seed_a,
                seed_b,
                INITIAL_FILL_MANTISSA,
            ));
        }
    }

    /// Toggles the clicked cell and reports the state it now has;
    /// coordinates outside the lattice are ignored and reported dead.
    pub fn toggle(&mut self, x: isize, y: isize) -> (r: bool)
        requires
            old(self).wf(),
        ensures
            old(self).same_shape(*final(self)),
            final(self).back() == old(self).back(),
            final(self).reversed() == old(self).reversed(),
            final(self).spec_phase() == old(self).spec_phase(),
            (0 <= x < old(self).w() && 0 <= y < old(self).h()) ==> {
                &&& r == !old(self).cells()[x + y * old(self).w()]
                &&& final(self).cells() == old(self).cells().update(x + y * old(self).w(), r)
            },
            !(0 <= x < old(self).w() && 0 <= y < old(self).h()) ==> r == false && final(self).cells()
                == old(self).cells(),
    {
        match self.grid_idx(x, y) {
            Some(i) => {
                proof {
                    crate::lattice::lemma_index_in_range(self.w(), self.h(), x as int, y as int);
                }
                let was_alive = self.lat.at(i);
                self.lat.set_at(i, !was_alive);
                !was_alive
            },
            None => false,
        }
    }

    /// Kills every cell.
    pub fn clear(&mut self)
        requires
            old(self).wf(),
        ensures
            old(self).same_shape(*final(self)),
            final(self).back() == old(self).back(),
            final(self).reversed() == old(self).reversed(),
            final(self).spec_phase() == old(self).spec_phase(),
            final(self).cells() == Seq::new(old(self).cells().len(), |i: int| false),
    {
        self.lat.fill(false);
    }

    /// Paints the lattice into a 4-bytes-per-cell pixel buffer: live cells
    /// white, dead cells black.
    pub fn draw(&self, screen: &mut Vec<u8>)
        requires
            self.wf(),
            old(screen)@.len() == 4 * (self.w() * self.h()),
        ensures
            final(screen)@.len() == old(screen)@.len(),
            forall|i: int|
                0 <= i < self.w() * self.h() ==> final(screen)@.subrange(4 * i, 4 * i + 4)
                    == crate::elementary::spec_bw_color(self.cells()[i]),
    {
        let n = self.lat.len();
        let total = screen.len();
        let mut i: usize = 0;
        while i < n
            invariant
                self.wf(),
                n == self.w() * self.h(),
                i <= n,
                total == screen@.len(),
                screen@.len() == 4 * n,
                forall|j: int|
                    0 <= j < i ==> screen@.subrange(4 * j, 4 * j + 4)
                        == crate::elementary::spec_bw_color(self.cells()[j]),
            decreases n - i,
        {
            let c = crate::elementary::bw_color(self.lat.at(i));
            screen.set(4 * i, c[0]);
            screen.set(4 * i + 1, c[1]);
            screen.set(4 * i + 2, c[2]);
            screen.set(4 * i + 3, c[3]);
            proof {
                assert forall|j: int| 0 <= j < i + 1 implies screen@.subrange(4 * j, 4 * j + 4)
                    == crate::elementary::spec_bw_color(self.cells()[j]) by {
                    assert(screen@.subrange(4 * j, 4 * j + 4) =~= crate::elementary::spec_bw_color(
                        self.cells()[j],
                    ));
                }
            }
            i = i + 1;
        }
    }

    /// The flat address of `(x, y)`: `Some` exactly on in-range coordinates.
    pub fn grid_idx(&self, x: isize, y: isize) -> (r: Option<usize>)
        requires
            self.wf(),
        ensures
            match r {
                Some(i) => 0 <= x < self.w() && 0 <= y < self.h() && i == x + y * self.w(),
                None => !(0 <= x < self.w() && 0 <= y < self.h()),
            },
    {
        if x >= 0 && y >= 0 {
            let xu = x as usize;
            let yu = y as usize;
            if xu < self.lat.width() && yu < self.lat.height() {
                Some(self.lat.index_of(xu, yu))
            } else {
                None
            }
        } else {
            None
        }
    }

    /// The coordinates a flat address decomposes into.
    pub fn idx_grid(&self, n: usize) -> (r: Option<(usize, usize)>)
        requires
            self.wf(),
        ensures
            r matches Some(p) && p.0 == n as int % self.w() && p.1 == n as int / self.w(),
    {
        let w = self.lat.width();
        Some((n % w, n / w))
    }

    /// Bounds-checked read of one cell.
    pub fn get(&self, x: usize, y: usize) -> (r: Option<bool>)
        requires
            self.wf(),
        ensures
            match r {
                Some(b) => x < self.w() && y < self.h() && b == self.cells()[x + y * self.w()],
                None => x >= self.w() || y >= self.h(),
            },
    {
        self.lat.get(x, y)
    }

    /// Bounds-checked write of one cell.
    pub fn set(&mut self, x: usize, y: usize, alive: bool) -> (r: bool)
        requires
            old(self).wf(),
        ensures
            old(self).same_shape(*final(self)),
            final(self).back() == old(self).back(),
            final(self).reversed() == old(self).reversed(),
            final(self).spec_phase() == old(self).spec_phase(),
            r == (x < old(self).w() && y < old(self).h()),
            r ==> final(self).cells() == old(self).cells().update(x + y * old(self).w(), alive),
            !r ==> final(self).cells() == old(self).cells(),
    {
        self.lat.set(x, y, alive)
    }

    /// Draws a segment of cells: the start point is clamped into
    /// `[0, width] x [0, height]`, the segment is rasterized with integer
    /// Bresenham stepping, and cells are set until the line first leaves
    /// the lattice.
    pub fn set_line(&mut self, x0: isize, y0: isize, x1: isize, y1: isize, alive: bool)
        requires
            old(self).wf(),
            old(self).w() <= 268435456,
            old(self).h() <= 268435456,
            -COORD_LIMIT <= x1 <= COORD_LIMIT,
            -COORD_LIMIT <= y1 <= COORD_LIMIT,
        ensures
            old(self).same_shape(*final(self)),
            final(self).back() == old(self).back(),
            final(self).reversed() == old(self).reversed(),
            final(self).spec_phase() == old(self).spec_phase(),
            final(self).cells().len() == old(self).cells().len(),
            forall|i: int|
                0 <= i < old(self).cells().len() ==> final(self).cells()[i] == (if spec_line_cells(
                    x0 as int,
                    y0 as int,
                    x1 as int,
                    y1 as int,
                    old(self).w(),
                    old(self).h(),
                ).contains(i) {
                    alive
                } else {
                    old(self).cells()[i]
                }),
    {
        let w = self.lat.width();
        let h = self.lat.height();
        let idxs = rasterize_clipped(x0, y0, x1, y1, w, h);
        set_cells(
            &mut self.lat,
            &idxs,
            Ghost(spec_line_cells(x0 as int, y0 as int, x1 as int, y1 as int, w as int, h as int)),
            alive,
        );
    }

    pub fn width(&self) -> (r: usize)
        ensures
            r == self.w(),
    {
        self.lat.width()
    }

    pub fn height(&self) -> (r: usize)
        ensures
            r == self.h(),
    {
        self.lat.height()
    }

    /// Whether the automaton is currently running backward.
    pub fn is_reversed(&self) -> (r: bool)
        ensures
            r == self.reversed(),
    {
        self.reverse
    }

    /// Which partition the next step will use.
    pub fn phase_flag(&self) -> (r: bool)
        ensures
            r == self.spec_phase(),
    {
        self.phase
    }
}

/// The anchor coordinate of the block containing covered coordinate `v`.
fn anchor_coord(v: usize, o: usize, n: usize) -> (r: usize)
    requires
        v < n,
        o == 0 || o == 1,
        axis_covered(v as int, o as int, n as int),
    ensures
        r == axis_anchor(v as int, o as int, n as int),
        r < n,
{
    proof {
        lemma_axis_anchor(v as int, o as int, n as int);
    }
    if o == 0 {
        v - v % 2
    } else if v % 2 == 1 {
        v
    } else if v == 0 {
        n - 1
    } else {
        v - 1
    }
}

/// The toroidal successor of an anchor coordinate.
fn next_coord(a: usize, n: usize) -> (r: usize)
    requires
        a < n,
    ensures
        r == axis_next(a as int, n as int),
        r < n,
{
    if a + 1 >= n {
        a + 1 - n
    } else {
        a + 1
    }
}

} // verus!
