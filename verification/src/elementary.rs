use vstd::prelude::*;

use crate::error::AutomataError;
use crate::lattice::{lemma_index_decompose, set_cells, spec_neighbor_of, Lattice};
use crate::raster::{rasterize_clipped, spec_line_cells, COORD_LIMIT};
use crate::randomizer::{generate_seed, spec_draw, spec_state_after, spec_unit_mantissa, unit_mantissa, Pcg32};

verus! {

/// The integer form of the one-half fill fraction used when randomizing the
/// first row: a draw counts as live when its 23-bit unit mantissa exceeds
/// `2^22`, exactly when the draw mapped into `[0, 1)` exceeds one half.
pub const INITIAL_FILL_MANTISSA: u32 = 4194304;

/// A cell of the one-dimensional automaton: a single liveness flag.
#[derive(Clone, Copy, Debug, PartialEq, Eq, Structural)]
pub struct Cell {
    pub alive: bool,
}

/// The literal Rule-110 table, keyed by the ordered triple of cells sitting
/// above-left, above, and above-right of the cell being computed.
pub open spec fn spec_rule110(neibs: (bool, bool, bool)) -> bool {
    match neibs {
        (true, true, true) => false,
        (true, true, false) => true,
        (true, false, true) => true,
        (true, false, false) => false,
        (false, true, true) => true,
        (false, true, false) => true,
        (false, false, true) => true,
        (false, false, false) => false,
    }
}

impl Cell {
    pub fn new(alive: bool) -> (c: Cell)
        ensures
            c.alive == alive,
    {
        Cell { alive }
    }

    /// The successor state under the fixed 8-entry Rule-110 lookup table.
    pub fn next_state(self, neibs: (bool, bool, bool)) -> (c: Cell)
        ensures
            c.alive == spec_rule110(neibs),
    {
        let alive = match neibs {
            (true, true, true) => false,
            (true, true, false) => true,
            (true, false, true) => true,
            (true, false, false) => false,
            (false, true, true) => true,
            (false, true, false) => true,
            (false, false, true) => true,
            (false, false, false) => false,
        };
        Cell { alive }
    }

    pub fn toggle(&mut self)
        ensures
            final(self).alive == !old(self).alive,
    {
        self.alive = !self.alive;
    }

    pub fn set_alive(&mut self)
        ensures
            final(self).alive == true,
    {
        self.alive = true;
    }

    pub fn _set_dead(&mut self)
        ensures
            final(self).alive == false,
    {
        self.alive = false;
    }
}

/// The ordered triple of cells above `(x, y)`, with horizontal (and, for the
/// top row, vertical) toroidal wraparound.
pub open spec fn spec_neibs(s: Seq<Cell>, w: int, h: int, x: int, y: int) -> (bool, bool, bool) {
    (
        s[spec_neighbor_of(w, h, x, y, -1, -1)].alive,
        s[spec_neighbor_of(w, h, x, y, 0, -1)].alive,
        s[spec_neighbor_of(w, h, x, y, 1, -1)].alive,
    )
}

/// What cell `i` holds after the active row `y` has been recomputed: cells
/// of row `y` are produced by the Rule-110 table from the row above, all
/// other cells are untouched.
pub open spec fn spec_row_step(s: Seq<Cell>, w: int, h: int, y: int, i: int) -> Cell {
    if i / w == y {
        Cell { alive: spec_rule110(spec_neibs(s, w, h, i % w, y)) }
    } else {
        s[i]
    }
}

/// The lattice with its first row refilled from a seeded generator, every
/// other cell untouched: cell `x` of the first row is live exactly when the
/// unit mantissa of the `x`-th draw exceeds the one-half threshold.
pub open spec fn spec_first_row_fill(s: Seq<Cell>, w: int, seed_a: u64, seed_b: u64) -> Seq<Cell> {
    Seq::new(
        s.len(),
        |i: int|
            if i < w {
                Cell {
                    alive: spec_unit_mantissa(
                        spec_draw(Pcg32::spec_seed(seed_a, seed_b), i as nat),
                    ) > INITIAL_FILL_MANTISSA,
                }
            } else {
                s[i]
            },
    )
}

/// The Rule-110 elementary automaton, run as a one-shot top-to-bottom sweep
/// over a two-dimensional lattice used as a history buffer: each step
/// computes one row from the row above it and advances the frontier, until
/// the frontier falls off the bottom and freezes at row zero.
pub struct Rule110 {
    lat: Lattice<Cell>,
    active_line: usize,
}

impl Rule110 {
    pub open spec fn wf(self) -> bool {
        &&& self.w() > 0
        &&& self.h() > 0
        &&& self.w() * self.h() <= usize::MAX
        &&& self.cells().len() == self.w() * self.h()
        &&& self.back().len() == self.w() * self.h()
        &&& self.active_row() <= self.h()
    }

    pub closed spec fn w(self) -> int {
        self.lat.w()
    }

    pub closed spec fn h(self) -> int {
        self.lat.h()
    }

    pub closed spec fn cells(self) -> Seq<Cell> {
        self.lat.cells()
    }

    /// The unused scratch generation; kept the same size as the visible one.
    pub closed spec fn back(self) -> Seq<Cell> {
        self.lat.back()
    }

    /// The frontier row that the next step will compute; row 0 means the
    /// sweep is finished and steps are no-ops until a reset.
    pub closed spec fn active_row(self) -> int {
        self.active_line as int
    }

    pub open spec fn same_shape(self, other: Rule110) -> bool {
        &&& other.wf()
        &&& other.w() == self.w()
        &&& other.h() == self.h()
    }

    /// An all-dead lattice whose frontier is row 1; rejects zero or
    /// overflowing dimensions.
    pub fn new_empty(width: usize, height: usize) -> (r: Result<Rule110, AutomataError>)
        ensures
            match r {
                Ok(a) => {
                    &&& a.wf()
                    &&& a.w() == width
                    &&& a.h() == height
                    &&& a.active_row() == 1
                    &&& a.cells() == Seq::new(
                        (width * height) as nat,
                        |i: int| Cell { alive: false },
                    )
                },
                Err(e) => {
                    &&& e == AutomataError::InvalidDimensions
                    &&& (width == 0 || height == 0 || width * height > usize::MAX)
                },
            },
    {
        match Lattice::new(width, height, Cell { alive: false }) {
            Ok(lat) => Ok(Rule110 { lat, active_line: 1 }),
            Err(e) => Err(e),
        }
    }

    /// A lattice whose first row is randomized from a fresh entropy seed.
    pub fn new_random(width: usize, height: usize) -> (r: Result<Rule110, AutomataError>)
        ensures
            match r {
                Ok(a) => {
                    &&& a.wf()
                    &&& a.w() == width
                    &&& a.h() == height
                    &&& a.active_row() == 1
                    &&& forall|i: int|
                        width <= i < a.cells().len() ==> a.cells()[i] == (Cell { alive: false })
                },
                Err(e) => {
                    &&& (e == AutomataError::InvalidDimensions || e == AutomataError::EntropyFailure)
                    &&& (e == AutomataError::InvalidDimensions <==> (width == 0 || height == 0
                        || width * height > usize::MAX))
                },
            },
    {
        let mut result = match Rule110::new_empty(width, height) {
            Ok(a) => a,
            Err(e) => {
                return Err(e);
            },
        };
        match result.randomize() {
            Ok(()) => Ok(result),
            Err(e) => Err(e),
        }
    }

    /// Randomizes the first row from a fresh entropy seed; fails only if the
    /// entropy source does, leaving the lattice untouched.
    pub fn randomize(&mut self) -> (r: Result<(), AutomataError>)
        requires
            old(self).wf(),
        ensures
            old(self).same_shape(*final(self)),
            final(self).back() == old(self).back(),
            final(self).active_row() == old(self).active_row(),
            forall|i: int|
                old(self).w() <= i < old(self).cells().len() ==> final(self).cells()[i] == old(
                    self,
                ).cells()[i],
            r matches Err(e) ==> e == AutomataError::EntropyFailure && *final(self) == *old(self),
            r is Ok ==> exists|a: u64, b: u64|
                final(self).cells() == spec_first_row_fill(old(self).cells(), old(self).w(), a, b),
    {
        let (seed_a, seed_b) = match generate_seed() {
            Ok(s) => s,
            Err(e) => {
                return Err(e);
            },
        };
        self.randomize_with_seed(seed_a, seed_b);
        proof {
            assert(self.cells() == spec_first_row_fill(
                old(self).cells(),
                old(self).w(),
                seed_a,
                seed_b,
            ));
        }
        Ok(())
    }

    /// Deterministically randomizes the first row: cell `x` is made live
    /// exactly when the unit mantissa of the `x`-th draw of the seeded
    /// generator exceeds the one-half threshold.
    #[verifier::rlimit(50)]
    pub fn randomize_with_seed(&mut self, seed_a: u64, seed_b: u64)
        requires
            old(self).wf(),
        ensures
            old(self).same_shape(*final(self)),
            final(self).back() == old(self).back(),
            final(self).active_row() == old(self).active_row(),
            final(self).cells() == spec_first_row_fill(
                old(self).cells(),
                old(self).w(),
                seed_a,
                seed_b,
            ),
    {
        let ghost g0 = Pcg32::spec_seed(seed_a, seed_b);
        let mut rng = Pcg32::seed(seed_a, seed_b);
        let w = self.lat.width();
        let mut x: usize = 0;
        while x < w
            invariant
                self.wf(),
                self.w() == old(self).w(),
                self.h() == old(self).h(),
                self.back() == old(self).back(),
                self.active_row() == old(self).active_row(),
                w == self.w(),
                x <= w,
                self.cells().len() == old(self).cells().len(),
                rng == spec_state_after(g0, x as nat),
                forall|i: int|
                    0 <= i < x ==> self.cells()[i] == (Cell {
                        alive: spec_unit_mantissa(spec_draw(g0, i as nat)) > INITIAL_FILL_MANTISSA,
                    }),
                forall|i: int| x <= i < self.cells().len() ==> self.cells()[i] == old(self).cells()[i],
            decreases w - x,
        {
            proof {
                assert((w as int) * 1 <= (w as int) * self.h()) by (nonlinear_arith)
                    requires
                        1 <= self.h(),
                        0 <= w as int,
                ;
            }
            let draw = rng.next_u32();
            let alive = unit_mantissa(draw) > INITIAL_FILL_MANTISSA;
            self.lat.set_at(x, Cell { alive });
            proof {
                assert(spec_draw(g0, x as nat) == spec_state_after(g0, x as nat).spec_output());
                assert forall|i: int| 0 <= i < x + 1 implies self.cells()[i] == (Cell {
                    alive: spec_unit_mantissa(spec_draw(g0, i as nat)) > INITIAL_FILL_MANTISSA,
                }) by {
                    if i == x {
                        assert(self.cells()[i].alive == alive);
                    }
                }
            }
            x = x + 1;
        }
        proof {
            assert(self.cells() =~= spec_first_row_fill(
                old(self).cells(),
                old(self).w(),
                seed_a,
                seed_b,
            ));
        }
    }

    /// The three cells above `(x, y)`, read with toroidal wraparound.
    pub fn neibs(&self, x: usize, y: usize) -> (r: (bool, bool, bool))
        requires
            self.wf(),
            x < self.w(),
            y < self.h(),
        ensures
            r == spec_neibs(self.cells(), self.w(), self.h(), x as int, y as int),
    {
        let a = self.lat.at(self.lat.neighbor_index(x, y, -1, -1));
        let b = self.lat.at(self.lat.neighbor_index(x, y, 0, -1));
        let c = self.lat.at(self.lat.neighbor_index(x, y, 1, -1));
        (a.alive, b.alive, c.alive)
    }

    /// One step of the sweep: a frozen frontier (row 0) does nothing;
    /// otherwise the frontier row is recomputed from the row above and the
    /// frontier advances, freezing once it would leave the lattice.
    pub fn update(&mut self)
        requires
            old(self).wf(),
        ensures
            old(self).same_shape(*final(self)),
            final(self).back() == old(self).back(),
            final(self).cells().len() == old(self).cells().len(),
            old(self).active_row() == 0 ==> *final(self) == *old(self),
            old(self).active_row() != 0 ==> {
                &&& final(self).active_row() == (if old(self).active_row() + 1 >= old(self).h() {
                    0int
                } else {
                    old(self).active_row() + 1
                })
                &&& (old(self).active_row() < old(self).h() ==> forall|i: int|
                    0 <= i < old(self).cells().len() ==> final(self).cells()[i] == spec_row_step(
                        old(self).cells(),
                        old(self).w(),
                        old(self).h(),
                        old(self).active_row(),
                        i,
                    ))
                &&& (old(self).active_row() >= old(self).h() ==> final(self).cells() == old(
                    self,
                ).cells())
            },
    {
        let y = self.active_line;
        if y == 0 {
            return ;
        }
        let w = self.lat.width();
        let h = self.lat.height();
        if y >= h {
            // Only a single-row lattice can reach this: the frontier starts
            // past the end, so the sweep freezes without computing a row.
            self.active_line = 0;
            return ;
        }
        let mut x: usize = 0;
        while x < w
            invariant
                self.wf(),
                self.w() == old(self).w(),
                self.h() == old(self).h(),
                self.back() == old(self).back(),
                self.active_row() == old(self).active_row(),
                w == self.w(),
                h == self.h(),
                0 < y < h,
                y == self.active_row(),
                x <= w,
                self.cells().len() == old(self).cells().len(),
                forall|i: int|
                    0 <= i < self.cells().len() ==> self.cells()[i] == (if i / (w as int) == y
                        && i % (w as int) < x {
                        spec_row_step(old(self).cells(), w as int, h as int, y as int, i)
                    } else {
                        old(self).cells()[i]
                    }),
            decreases w - x,
        {
            let triple = self.neibs(x, y);
            proof {
                lemma_index_decompose(
                    w as int,
                    crate::lattice::wrap_add(x as int, -1, w as int),
                    y as int - 1,
                );
                lemma_index_decompose(w as int, x as int, y as int - 1);
                lemma_index_decompose(
                    w as int,
                    crate::lattice::wrap_add(x as int, 1, w as int),
                    y as int - 1,
                );
                lemma_index_decompose(w as int, x as int, y as int);
                crate::lattice::lemma_neighbor_index_valid(
                    w as int,
                    h as int,
                    x as int,
                    y as int,
                    -1,
                    -1,
                );
                crate::lattice::lemma_neighbor_index_valid(
                    w as int,
                    h as int,
                    x as int,
                    y as int,
                    0,
                    -1,
                );
                crate::lattice::lemma_neighbor_index_valid(
                    w as int,
                    h as int,
                    x as int,
                    y as int,
                    1,
                    -1,
                );
                assert(spec_neibs(self.cells(), w as int, h as int, x as int, y as int)
                    == spec_neibs(old(self).cells(), w as int, h as int, x as int, y as int));
            }
            let idx = self.lat.index_of(x, y);
            let next = self.lat.at(idx).next_state(triple);
            self.lat.set_at(idx, next);
            proof {
                assert forall|i: int| 0 <= i < self.cells().len() implies self.cells()[i] == (if i
                    / (w as int) == y && i % (w as int) < x + 1 {
                    spec_row_step(old(self).cells(), w as int, h as int, y as int, i)
                } else {
                    old(self).cells()[i]
                }) by {
                    vstd::arithmetic::div_mod::lemma_fundamental_div_mod(i, w as int);
                    assert((w as int) * (i / (w as int)) == (i / (w as int)) * (w as int))
                        by (nonlinear_arith);
                }
            }
            x = x + 1;
        }
        self.active_line = y + 1;
        if self.active_line >= h {
            self.active_line = 0;
        }
    }

    /// Resets the sweep: every cell dead, frontier back at row 1.
    pub fn clear(&mut self)
        requires
            old(self).wf(),
        ensures
            old(self).same_shape(*final(self)),
            final(self).back() == old(self).back(),
            final(self).active_row() == 1,
            final(self).cells() == Seq::new(old(self).cells().len(), |i: int| Cell { alive: false }),
    {
        self.active_line = 1;
        self.lat.fill(Cell { alive: false });
    }

    /// Toggles the clicked cell and reports the state it now has;
    /// coordinates outside the lattice are ignored and reported dead.
    pub fn toggle(&mut self, x: isize, y: isize) -> (r: bool)
        requires
            old(self).wf(),
        ensures
            old(self).same_shape(*final(self)),
            final(self).back() == old(self).back(),
            final(self).active_row() == old(self).active_row(),
            (0 <= x < old(self).w() && 0 <= y < old(self).h()) ==> {
                &&& r == !old(self).cells()[x + y * old(self).w()].alive
                &&& final(self).cells() == old(self).cells().update(
                    x + y * old(self).w(),
                    Cell { alive: r },
                )
            },
            !(0 <= x < old(self).w() && 0 <= y < old(self).h()) ==> r == false && final(self).cells()
                == old(self).cells(),
    {
        match self.grid_idx(x, y) {
            Some(i) => {
                proof {
                    crate::lattice::lemma_index_in_range(self.w(), self.h(), x as int, y as int);
                }
                let was_alive = self.lat.at(i).alive;
                self.lat.set_at(i, Cell { alive: !was_alive });
                !was_alive
            },
            None => false,
        }
    }

    /// Paints the lattice into a 4-bytes-per-cell pixel buffer: live cells
    /// white, dead cells black, all fully opaque.
    pub fn draw(&self, screen: &mut Vec<u8>)
        requires
            self.wf(),
            old(screen)@.len() == 4 * (self.w() * self.h()),
        ensures
            final(screen)@.len() == old(screen)@.len(),
            forall|i: int|
                0 <= i < self.w() * self.h() ==> final(screen)@.subrange(4 * i, 4 * i + 4)
                    == spec_bw_color(self.cells()[i].alive),
    {
        let n = self.lat.len();
        let total = screen.len();
        let mut i: usize = 0;
        while i < n
            invariant
                self.wf(),
                n == self.w() * self.h(),
                i <= n,
                total == screen@.len(),
                screen@.len() == 4 * n,
                forall|j: int|
                    0 <= j < i ==> screen@.subrange(4 * j, 4 * j + 4) == spec_bw_color(
                        self.cells()[j].alive,
                    ),
            decreases n - i,
        {
            let c = bw_color(self.lat.at(i).alive);
            screen.set(4 * i, c[0]);
            screen.set(4 * i + 1, c[1]);
            screen.set(4 * i + 2, c[2]);
            screen.set(4 * i + 3, c[3]);
            proof {
                assert forall|j: int| 0 <= j < i + 1 implies screen@.subrange(4 * j, 4 * j + 4)
                    == spec_bw_color(self.cells()[j].alive) by {
                    assert(screen@.subrange(4 * j, 4 * j + 4) =~= spec_bw_color(
                        self.cells()[j].alive,
                    ));
                }
            }
            i = i + 1;
        }
    }

    /// Draws a segment of cells: the start point is clamped into
    /// `[0, width] x [0, height]`, the segment is rasterized with integer
    /// Bresenham stepping, and cells are set until the line first leaves
    /// the lattice.
    pub fn set_line(&mut self, x0: isize, y0: isize, x1: isize, y1: isize, _alive: bool)
        requires
            old(self).wf(),
            old(self).w() <= 268435456,
            old(self).h() <= 268435456,
            -COORD_LIMIT <= x1 <= COORD_LIMIT,
            -COORD_LIMIT <= y1 <= COORD_LIMIT,
        ensures
            old(self).same_shape(*final(self)),
            final(self).back() == old(self).back(),
            final(self).active_row() == old(self).active_row(),
            final(self).cells().len() == old(self).cells().len(),
            forall|i: int|
                0 <= i < old(self).cells().len() ==> final(self).cells()[i] == (if spec_line_cells(
                    x0 as int,
                    y0 as int,
                    x1 as int,
                    y1 as int,
                    old(self).w(),
                    old(self).h(),
                ).contains(i) {
                    (Cell { alive: true })
                } else {
                    old(self).cells()[i]
                }),
    {
        let w = self.lat.width();
        let h = self.lat.height();
        let idxs = rasterize_clipped(x0, y0, x1, y1, w, h);
        set_cells(
            &mut self.lat,
            &idxs,
            Ghost(spec_line_cells(x0 as int, y0 as int, x1 as int, y1 as int, w as int, h as int)),
            Cell { alive: true },
        );
    }

    /// The flat address of `(x, y)`: `Some` exactly on in-range coordinates.
    pub fn grid_idx(&self, x: isize, y: isize) -> (r: Option<usize>)
        requires
            self.wf(),
        ensures
            match r {
                Some(i) => 0 <= x < self.w() && 0 <= y < self.h() && i == x + y * self.w(),
                None => !(0 <= x < self.w() && 0 <= y < self.h()),
            },
    {
        if x >= 0 && y >= 0 {
            let xu = x as usize;
            let yu = y as usize;
            if xu < self.lat.width() && yu < self.lat.height() {
                Some(self.lat.index_of(xu, yu))
            } else {
                None
            }
        } else {
            None
        }
    }

    /// Bounds-checked read of one cell.
    pub fn get(&self, x: usize, y: usize) -> (r: Option<Cell>)
        requires
            self.wf(),
        ensures
            match r {
                Some(c) => x < self.w() && y < self.h() && c == self.cells()[x + y * self.w()],
                None => x >= self.w() || y >= self.h(),
            },
    {
        self.lat.get(x, y)
    }

    pub fn width(&self) -> (r: usize)
        ensures
            r == self.w(),
    {
        self.lat.width()
    }

    pub fn height(&self) -> (r: usize)
        ensures
            r == self.h(),
    {
        self.lat.height()
    }

    /// The frontier row the next step will compute; 0 when frozen.
    pub fn active_row_index(&self) -> (r: usize)
        ensures
            r == self.active_row(),
    {
        self.active_line
    }
}

/// The 4-byte colour of a binary cell: white when live, black when dead.
pub open spec fn spec_bw_color(alive: bool) -> Seq<u8> {
    if alive {
        seq![0xffu8, 0xffu8, 0xffu8, 0xffu8]
    } else {
        seq![0u8, 0u8, 0u8, 0xffu8]
    }
}

pub fn bw_color(alive: bool) -> (c: [u8; 4])
    ensures
        c@ == spec_bw_color(alive),
{
    let c: [u8; 4] = if alive {
        [0xff, 0xff, 0xff, 0xff]
    } else {
        [0, 0, 0, 0xff]
    };
    proof {
        assert(c@ =~= spec_bw_color(alive));
    }
    c
}

} // verus!
