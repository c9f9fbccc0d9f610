use vstd::prelude::*;

use crate::error::AutomataError;
use crate::lattice::{b2i, set_cells, spec_neighbor_of, Lattice};
use crate::raster::{rasterize_clipped, spec_line_cells, COORD_LIMIT};
use crate::randomizer::{generate_seed, spec_draw, spec_random_fill, spec_state_after, spec_unit_mantissa, unit_mantissa, Pcg32};

verus! {

/// The number of totalistic rule codes: one bit per neighbour sum 0 to 8.
pub const TOTALISTIC_BOUND: u32 = 512;

/// The number of outer-totalistic rule codes: one bit per pair of a centre
/// state and a neighbour sum 0 to 8.
pub const OUTER_TOTALISTIC_BOUND: u32 = 262144;

/// The integer form of the one-half fill fraction used when randomizing: a
/// draw counts as live when its 23-bit unit mantissa exceeds `2^22`.
pub const INITIAL_FILL_MANTISSA: u32 = 4194304;

/// Bit `k` of a rule code.
pub open spec fn spec_code_bit(code: u32, k: u32) -> bool {
    (code >> k) & 1 == 1
}

/// A validated totalistic rule: an immutable lookup from the live-neighbour
/// count of the 3-by-3 neighbourhood (8 cells, centre excluded) to the next
/// state, packed as the 9 low bits of a code below `TOTALISTIC_BOUND`.
#[derive(Clone, Copy, Debug, PartialEq, Eq, Structural)]
pub struct TotalisticRule {
    code: u32,
}

impl TotalisticRule {
    pub closed spec fn spec_code(self) -> u32 {
        self.code
    }

    pub open spec fn wf(self) -> bool {
        self.spec_code() < TOTALISTIC_BOUND
    }

    /// The next state for a cell whose neighbourhood holds `count` live
    /// cells.
    pub open spec fn spec_next(self, count: u32) -> bool {
        spec_code_bit(self.spec_code(), count)
    }

    /// Validates a rule code: codes at or above the family's bound are
    /// rejected before any simulation starts.
    pub fn new(code: u32) -> (r: Result<TotalisticRule, AutomataError>)
        ensures
            match r {
                Ok(t) => t.wf() && t.spec_code() == code && code < TOTALISTIC_BOUND,
                Err(e) => e == AutomataError::InvalidRuleCode && code >= TOTALISTIC_BOUND,
            },
    {
        if code < TOTALISTIC_BOUND {
            Ok(TotalisticRule { code })
        } else {
            Err(AutomataError::InvalidRuleCode)
        }
    }

    pub fn next(&self, count: u32) -> (b: bool)
        requires
            count <= 8,
        ensures
            b == self.spec_next(count),
    {
        (self.code >> count) & 1 == 1
    }

    pub fn code(&self) -> (c: u32)
        ensures
            c == self.spec_code(),
    {
        self.code
    }
}

/// A validated outer-totalistic rule: the lookup additionally distinguishes
/// the centre cell's own state; bit `count` decides a dead centre, bit
/// `9 + count` a live one.
#[derive(Clone, Copy, Debug, PartialEq, Eq, Structural)]
pub struct OuterTotalisticRule {
    code: u32,
}

impl OuterTotalisticRule {
    pub closed spec fn spec_code(self) -> u32 {
        self.code
    }

    pub open spec fn wf(self) -> bool {
        self.spec_code() < OUTER_TOTALISTIC_BOUND
    }

    /// The next state for a centre in state `center` with `count` live
    /// neighbours.
    pub open spec fn spec_next(self, center: bool, count: u32) -> bool {
        if center {
            spec_code_bit(self.spec_code(), (count + 9) as u32)
        } else {
            spec_code_bit(self.spec_code(), count)
        }
    }

    /// Validates a rule code against the outer-totalistic bound.
    pub fn new(code: u32) -> (r: Result<OuterTotalisticRule, AutomataError>)
        ensures
            match r {
                Ok(t) => t.wf() && t.spec_code() == code && code < OUTER_TOTALISTIC_BOUND,
                Err(e) => e == AutomataError::InvalidRuleCode && code >= OUTER_TOTALISTIC_BOUND,
            },
    {
        if code < OUTER_TOTALISTIC_BOUND {
            Ok(OuterTotalisticRule { code })
        } else {
            Err(AutomataError::InvalidRuleCode)
        }
    }

    pub fn next(&self, center: bool, count: u32) -> (b: bool)
        requires
            count <= 8,
        ensures
            b == self.spec_next(center, count),
    {
        if center {
            (self.code >> (count + 9)) & 1 == 1
        } else {
            (self.code >> count) & 1 == 1
        }
    }

    pub fn code(&self) -> (c: u32)
        ensures
            c == self.spec_code(),
    {
        self.code
    }
}

/// The live-cell count of the full 3-by-3 toroidal neighbourhood of
/// `(x, y)`, centre excluded.  On lattices narrower than 3 cells the wrapped
/// offsets coincide and such cells are counted once per offset.
pub open spec fn spec_moore_sum(s: Seq<bool>, w: int, h: int, x: int, y: int) -> int {
    b2i(s[spec_neighbor_of(w, h, x, y, -1, -1)]) + b2i(s[spec_neighbor_of(w, h, x, y, 0, -1)])
        + b2i(s[spec_neighbor_of(w, h, x, y, 1, -1)]) + b2i(s[spec_neighbor_of(w, h, x, y, -1, 0)])
        + b2i(s[spec_neighbor_of(w, h, x, y, 1, 0)]) + b2i(s[spec_neighbor_of(w, h, x, y, -1, 1)])
        + b2i(s[spec_neighbor_of(w, h, x, y, 0, 1)]) + b2i(s[spec_neighbor_of(w, h, x, y, 1, 1)])
}

/// What cell `i` holds after one totalistic step.
pub open spec fn spec_tot_next(s: Seq<bool>, w: int, h: int, rule: TotalisticRule, i: int) -> bool {
    rule.spec_next(spec_moore_sum(s, w, h, i % w, i / w) as u32)
}

/// What cell `i` holds after one outer-totalistic step.
pub open spec fn spec_outer_next(
    s: Seq<bool>,
    w: int,
    h: int,
    rule: OuterTotalisticRule,
    i: int,
) -> bool {
    rule.spec_next(s[i], spec_moore_sum(s, w, h, i % w, i / w) as u32)
}

/// With the all-false rule table (code 0), the next state is `false` for
/// every neighbour count, for any single step.
pub proof fn lemma_rule_zero_all_dead(rule: TotalisticRule, count: u32)
    requires
        rule.spec_code() == 0,
        count <= 8,
    ensures
        !rule.spec_next(count),
{
    assert((0u32 >> count) & 1 != 1) by (bit_vector);
}

/// The lattice-level form: under rule code 0 a totalistic step kills every
/// cell, whatever the lattice holds.
pub proof fn lemma_rule_zero_step_all_dead(s: Seq<bool>, w: int, h: int, rule: TotalisticRule, i: int)
    requires
        rule.spec_code() == 0,
        0 < w,
        0 < h,
        0 <= i < w * h,
        s.len() == w * h,
    ensures
        !spec_tot_next(s, w, h, rule, i),
{
    let count = spec_moore_sum(s, w, h, i % w, i / w);
    assert(0 <= count <= 8);
    lemma_rule_zero_all_dead(rule, count as u32);
}

/// A binary Moore-neighbourhood automaton whose next state depends only on
/// the count of live cells in the 3-by-3 neighbourhood, through a validated
/// rule table; double-buffered.
pub struct Totalistic {
    lat: Lattice<bool>,
    rule: TotalisticRule,
}

impl Totalistic {
    pub open spec fn wf(self) -> bool {
        &&& self.w() > 0
        &&& self.h() > 0
        &&& self.w() * self.h() <= usize::MAX
        &&& self.cells().len() == self.w() * self.h()
        &&& self.back().len() == self.w() * self.h()
        &&& self.rule().wf()
    }

    pub closed spec fn w(self) -> int {
        self.lat.w()
    }

    pub closed spec fn h(self) -> int {
        self.lat.h()
    }

    pub closed spec fn cells(self) -> Seq<bool> {
        self.lat.cells()
    }

    pub closed spec fn back(self) -> Seq<bool> {
        self.lat.back()
    }

    pub closed spec fn rule(self) -> TotalisticRule {
        self.rule
    }

    pub open spec fn same_shape(self, other: Totalistic) -> bool {
        &&& other.wf()
        &&& other.w() == self.w()
        &&& other.h() == self.h()
        &&& other.rule() == self.rule()
    }

    /// An all-dead lattice under the given rule code; rejects an invalid
    /// code first, then invalid dimensions.
    pub fn new_empty(width: usize, height: usize, code: u32) -> (r: Result<
        Totalistic,
        AutomataError,
    >)
        ensures
            match r {
                Ok(t) => {
                    &&& t.wf()
                    &&& t.w() == width
                    &&& t.h() == height
                    &&& t.rule().spec_code() == code
                    &&& t.cells() == Seq::new((width * height) as nat, |i: int| false)
                },
                Err(e) => {
                    &&& (e == AutomataError::InvalidRuleCode || e == AutomataError::InvalidDimensions)
                    &&& (e == AutomataError::InvalidRuleCode <==> code >= TOTALISTIC_BOUND)
                    &&& (e == AutomataError::InvalidDimensions <==> (code < TOTALISTIC_BOUND && (
                    width == 0 || height == 0 || width * height > usize::MAX)))
                },
            },
    {
        let rule = match TotalisticRule::new(code) {
            Ok(t) => t,
            Err(e) => {
                return Err(e);
            },
        };
        match Lattice::new(width, height, false) {
            Ok(lat) => Ok(Totalistic { lat, rule }),
            Err(e) => Err(e),
        }
    }

    /// The live-cell count of the 3-by-3 toroidal neighbourhood of `(x, y)`,
    /// centre excluded.
    pub fn count_neibs(&self, x: usize, y: usize) -> (c: u32)
        requires
            self.wf(),
            x < self.w(),
            y < self.h(),
        ensures
            c == spec_moore_sum(self.cells(), self.w(), self.h(), x as int, y as int),
            c <= 8,
    {
        let mut c: u32 = 0;
        if self.lat.at(self.lat.neighbor_index(x, y, -1, -1)) {
            c = c + 1;
        }
        if self.lat.at(self.lat.neighbor_index(x, y, 0, -1)) {
            c = c + 1;
        }
        if self.lat.at(self.lat.neighbor_index(x, y, 1, -1)) {
            c = c + 1;
        }
        if self.lat.at(self.lat.neighbor_index(x, y, -1, 0)) {
            c = c + 1;
        }
        if self.lat.at(self.lat.neighbor_index(x, y, 1, 0)) {
            c = c + 1;
        }
        if self.lat.at(self.lat.neighbor_index(x, y, -1, 1)) {
            c = c + 1;
        }
        if self.lat.at(self.lat.neighbor_index(x, y, 0, 1)) {
            c = c + 1;
        }
        if self.lat.at(self.lat.neighbor_index(x, y, 1, 1)) {
            c = c + 1;
        }
        c
    }

    /// One generation: every cell's next state is looked up from its
    /// neighbour count, written into the scratch buffer, and the buffers are
    /// swapped.
    pub fn update(&mut self)
        requires
            old(self).wf(),
        ensures
            old(self).same_shape(*final(self)),
            final(self).cells().len() == old(self).cells().len(),
            forall|i: int|
                0 <= i < old(self).cells().len() ==> final(self).cells()[i] == spec_tot_next(
                    old(self).cells(),
                    old(self).w(),
                    old(self).h(),
                    old(self).rule(),
                    i,
                ),
            final(self).back() == old(self).cells(),
    {
        let w = self.lat.width();
        let h = self.lat.height();
        let n = self.lat.len();
        let mut i: usize = 0;
        while i < n
            invariant
                self.wf(),
                self.w() == old(self).w(),
                self.h() == old(self).h(),
                self.rule() == old(self).rule(),
                w == self.w(),
                h == self.h(),
                n == self.w() * self.h(),
                i <= n,
                self.cells() == old(self).cells(),
                self.back().len() == n,
                forall|j: int|
                    0 <= j < i ==> self.back()[j] == spec_tot_next(
                        old(self).cells(),
                        self.w(),
                        self.h(),
                        self.rule(),
                        j,
                    ),
            decreases n - i,
        {
            let x = i % w;
            let y = i / w;
            proof {
                crate::lattice::lemma_index_surjective(w as int, h as int, i as int);
            }
            let count = self.count_neibs(x, y);
            let next = self.rule.next(count);
            self.lat.set_back(i, next);
            i = i + 1;
        }
        self.lat.swap_buffers();
    }

    /// Toggles the clicked cell and reports the state it now has;
    /// coordinates outside the lattice are ignored and reported dead.
    pub fn toggle(&mut self, x: isize, y: isize) -> (r: bool)
        requires
            old(self).wf(),
        ensures
            old(self).same_shape(*final(self)),
            final(self).back() == old(self).back(),
            (0 <= x < old(self).w() && 0 <= y < old(self).h()) ==> {
                &&& r == !old(self).cells()[x + y * old(self).w()]
                &&& final(self).cells() == old(self).cells().update(x + y * old(self).w(), r)
            },
            !(0 <= x < old(self).w() && 0 <= y < old(self).h()) ==> r == false && final(self).cells()
                == old(self).cells(),
    {
        match self.grid_idx(x, y) {
            Some(i) => {
                proof {
                    crate::lattice::lemma_index_in_range(self.w(), self.h(), x as int, y as int);
                }
                let was_alive = self.lat.at(i);
                self.lat.set_at(i, !was_alive);
                !was_alive
            },
            None => false,
        }
    }

    /// Kills every cell.
    pub fn clear(&mut self)
        requires
            old(self).wf(),
        ensures
            old(self).same_shape(*final(self)),
            final(self).back() == old(self).back(),
            final(self).cells() == Seq::new(old(self).cells().len(), |i: int| false),
    {
        self.lat.fill(false);
    }

    /// Paints the lattice into a 4-bytes-per-cell pixel buffer: live cells
    /// white, dead cells black.
    pub fn draw(&self, screen: &mut Vec<u8>)
        requires
            self.wf(),
            old(screen)@.len() == 4 * (self.w() * self.h()),
        ensures
            final(screen)@.len() == old(screen)@.len(),
            forall|i: int|
                0 <= i < self.w() * self.h() ==> final(screen)@.subrange(4 * i, 4 * i + 4)
                    == crate::elementary::spec_bw_color(self.cells()[i]),
    {
        let n = self.lat.len();
        let total = screen.len();
        let mut i: usize = 0;
        while i < n
            invariant
                self.wf(),
                n == self.w() * self.h(),
                i <= n,
                total == screen@.len(),
                screen@.len() == 4 * n,
                forall|j: int|
                    0 <= j < i ==> screen@.subrange(4 * j, 4 * j + 4)
                        == crate::elementary::spec_bw_color(self.cells()[j]),
            decreases n - i,
        {
            let c = crate::elementary::bw_color(self.lat.at(i));
            screen.set(4 * i, c[0]);
            screen.set(4 * i + 1, c[1]);
            screen.set(4 * i + 2, c[2]);
            screen.set(4 * i + 3, c[3]);
            proof {
                assert forall|j: int| 0 <= j < i + 1 implies screen@.subrange(4 * j, 4 * j + 4)
                    == crate::elementary::spec_bw_color(self.cells()[j]) by {
                    assert(screen@.subrange(4 * j, 4 * j + 4) =~= crate::elementary::spec_bw_color(
                        self.cells()[j],
                    ));
                }
            }
            i = i + 1;
        }
    }

    /// Randomizes every cell from a fresh entropy seed; fails only if the
    /// entropy source does, leaving the lattice untouched.
    pub fn randomize(&mut self) -> (r: Result<(), AutomataError>)
        requires
            old(self).wf(),
        ensures
            old(self).same_shape(*final(self)),
            final(self).back() == old(self).back(),
            r matches Err(e) ==> e == AutomataError::EntropyFailure && *final(self) == *old(self),
            r is Ok ==> exists|a: u64, b: u64|
                final(self).cells() == spec_random_fill(
                    old(self).cells().len(),
                    a,
                    b,
                    INITIAL_FILL_MANTISSA,
                ),
    {
        let (seed_a, seed_b) = match generate_seed() {
            Ok(s) => s,
            Err(e) => {
                return Err(e);
            },
        };
        self.randomize_with_seed(seed_a, seed_b);
        proof {
            assert(self.cells() == spec_random_fill(
                old(self).cells().len(),
                seed_a,
                seed_b,
                INITIAL_FILL_MANTISSA,
            ));
        }
        Ok(())
    }

    /// Deterministically randomizes the lattice: cell `i` is made live
    /// exactly when the unit mantissa of the `i`-th draw of the seeded
    /// generator exceeds the one-half threshold.
    #[verifier::rlimit(50)]
    pub fn randomize_with_seed(&mut self, seed_a: u64, seed_b: u64)
        requires
            old(self).wf(),
        ensures
            old(self).same_shape(*final(self)),
            final(self).back() == old(self).back(),
            final(self).cells() == spec_random_fill(
                old(self).cells().len(),
                seed_a,
                seed_b,
                INITIAL_FILL_MANTISSA,
            ),
    {
        let ghost g0 = Pcg32::spec_seed(seed_a, seed_b);
        let mut rng = Pcg32::seed(seed_a, seed_b);
        let n = self.lat.len();
        let mut i: usize = 0;
        while i < n
            invariant
                self.wf(),
                self.w() == old(self).w(),
                self.h() == old(self).h(),
                self.back() == old(self).back(),
                self.rule() == old(self).rule(),
                i <= n,
                n == self.w() * self.h(),
                self.cells().len() == old(self).cells().len(),
                rng == spec_state_after(g0, i as nat),
                forall|j: int|
                    0 <= j < i ==> self.cells()[j] == (spec_unit_mantissa(spec_draw(g0, j as nat))
                        > INITIAL_FILL_MANTISSA),
            decreases n - i,
        {
            let draw = rng.next_u32();
            let alive = unit_mantissa(draw) > INITIAL_FILL_MANTISSA;
            self.lat.set_at(i, alive);
            proof {
                assert(spec_draw(g0, i as nat) == spec_state_after(g0, i as nat).spec_output());
            }
            i = i + 1;
        }
        proof {
            assert(self.cells() =~= spec_random_fill(
                old(self).cells().len(),
                seed_a,
                seed_b,
                INITIAL_FILL_MANTISSA,
            ));
        }
    }

    /// The flat address of `(x, y)`: `Some` exactly on in-range coordinates.
    pub fn grid_idx(&self, x: isize, y: isize) -> (r: Option<usize>)
        requires
            self.wf(),
        ensures
            match r {
                Some(i) => 0 <= x < self.w() && 0 <= y < self.h() && i == x + y * self.w(),
                None => !(0 <= x < self.w() && 0 <= y < self.h()),
            },
    {
        if x >= 0 && y >= 0 {
            let xu = x as usize;
            let yu = y as usize;
            if xu < self.lat.width() && yu < self.lat.height() {
                Some(self.lat.index_of(xu, yu))
            } else {
                None
            }
        } else {
            None
        }
    }

    /// Bounds-checked read of one cell.
    pub fn get(&self, x: usize, y: usize) -> (r: Option<bool>)
        requires
            self.wf(),
        ensures
            match r {
                Some(b) => x < self.w() && y < self.h() && b == self.cells()[x + y * self.w()],
                None => x >= self.w() || y >= self.h(),
            },
    {
        self.lat.get(x, y)
    }

    /// Bounds-checked write of one cell; out-of-range edits are silently
    /// ignored.
    pub fn set(&mut self, x: usize, y: usize, alive: bool) -> (r: bool)
        requires
            old(self).wf(),
        ensures
            old(self).same_shape(*final(self)),
            final(self).back() == old(self).back(),
            r == (x < old(self).w() && y < old(self).h()),
            r ==> final(self).cells() == old(self).cells().update(x + y * old(self).w(), alive),
            !r ==> final(self).cells() == old(self).cells(),
    {
        self.lat.set(x, y, alive)
    }

    /// Draws a segment of cells: the start point is clamped into
    /// `[0, width] x [0, height]`, the segment is rasterized with integer
    /// Bresenham stepping, and cells are set until the line first leaves
    /// the lattice.
    pub fn set_line(&mut self, x0: isize, y0: isize, x1: isize, y1: isize, alive: bool)
        requires
            old(self).wf(),
            old(self).w() <= 268435456,
            old(self).h() <= 268435456,
            -COORD_LIMIT <= x1 <= COORD_LIMIT,
            -COORD_LIMIT <= y1 <= COORD_LIMIT,
        ensures
            old(self).same_shape(*final(self)),
            final(self).back() == old(self).back(),
            final(self).rule() == old(self).rule(),
            final(self).cells().len() == old(self).cells().len(),
            forall|i: int|
                0 <= i < old(self).cells().len() ==> final(self).cells()[i] == (if spec_line_cells(
                    x0 as int,
                    y0 as int,
                    x1 as int,
                    y1 as int,
                    old(self).w(),
                    old(self).h(),
                ).contains(i) {
                    alive
                } else {
                    old(self).cells()[i]
                }),
    {
        let w = self.lat.width();
        let h = self.lat.height();
        let idxs = rasterize_clipped(x0, y0, x1, y1, w, h);
        set_cells(
            &mut self.lat,
            &idxs,
            Ghost(spec_line_cells(x0 as int, y0 as int, x1 as int, y1 as int, w as int, h as int)),
            alive,
        );
    }

    pub fn width(&self) -> (r: usize)
        ensures
            r == self.w(),
    {
        self.lat.width()
    }

    pub fn height(&self) -> (r: usize)
        ensures
            r == self.h(),
    {
        self.lat.height()
    }
}

/// The outer-totalistic sibling of [`Totalistic`]: identical lattice
/// machinery, but the rule lookup also branches on the centre cell's state.
pub struct OuterTotalistic {
    lat: Lattice<bool>,
    rule: OuterTotalisticRule,
}

impl OuterTotalistic {
    pub open spec fn wf(self) -> bool {
        &&& self.w() > 0
        &&& self.h() > 0
        &&& self.w() * self.h() <= usize::MAX
        &&& self.cells().len() == self.w() * self.h()
        &&& self.back().len() == self.w() * self.h()
        &&& self.rule().wf()
    }

    pub closed spec fn w(self) -> int {
        self.lat.w()
    }

    pub closed spec fn h(self) -> int {
        self.lat.h()
    }

    pub closed spec fn cells(self) -> Seq<bool> {
        self.lat.cells()
    }

    pub closed spec fn back(self) -> Seq<bool> {
        self.lat.back()
    }

    pub closed spec fn rule(self) -> OuterTotalisticRule {
        self.rule
    }

    pub open spec fn same_shape(self, other: OuterTotalistic) -> bool {
        &&& other.wf()
        &&& other.w() == self.w()
        &&& other.h() == self.h()
        &&& other.rule() == self.rule()
    }

    /// An all-dead lattice under the given rule code; rejects an invalid
    /// code first, then invalid dimensions.
    pub fn new_empty(width: usize, height: usize, code: u32) -> (r: Result<
        OuterTotalistic,
        AutomataError,
    >)
        ensures
            match r {
                Ok(t) => {
                    &&& t.wf()
                    &&& t.w() == width
                    &&& t.h() == height
                    &&& t.rule().spec_code() == code
                    &&& t.cells() == Seq::new((width * height) as nat, |i: int| false)
                },
                Err(e) => {
                    &&& (e == AutomataError::InvalidRuleCode || e == AutomataError::InvalidDimensions)
                    &&& (e == AutomataError::InvalidRuleCode <==> code >= OUTER_TOTALISTIC_BOUND)
                    &&& (e == AutomataError::InvalidDimensions <==> (code < OUTER_TOTALISTIC_BOUND
                        && (width == 0 || height == 0 || width * height > usize::MAX)))
                },
            },
    {
        let rule = match OuterTotalisticRule::new(code) {
            Ok(t) => t,
            Err(e) => {
                return Err(e);
            },
        };
        match Lattice::new(width, height, false) {
            Ok(lat) => Ok(OuterTotalistic { lat, rule }),
            Err(e) => Err(e),
        }
    }

    /// The live-cell count of the 3-by-3 toroidal neighbourhood of `(x, y)`,
    /// centre excluded.
    pub fn count_neibs(&self, x: usize, y: usize) -> (c: u32)
        requires
            self.wf(),
            x < self.w(),
            y < self.h(),
        ensures
            c == spec_moore_sum(self.cells(), self.w(), self.h(), x as int, y as int),
            c <= 8,
    {
        let mut c: u32 = 0;
        if self.lat.at(self.lat.neighbor_index(x, y, -1, -1)) {
            c = c + 1;
        }
        if self.lat.at(self.lat.neighbor_index(x, y, 0, -1)) {
            c = c + 1;
        }
        if self.lat.at(self.lat.neighbor_index(x, y, 1, -1)) {
            c = c + 1;
        }
        if self.lat.at(self.lat.neighbor_index(x, y, -1, 0)) {
            c = c + 1;
        }
        if self.lat.at(self.lat.neighbor_index(x, y, 1, 0)) {
            c = c + 1;
        }
        if self.lat.at(self.lat.neighbor_index(x, y, -1, 1)) {
            c = c + 1;
        }
        if self.lat.at(self.lat.neighbor_index(x, y, 0, 1)) {
            c = c + 1;
        }
        if self.lat.at(self.lat.neighbor_index(x, y, 1, 1)) {
            c = c + 1;
        }
        c
    }

    /// One generation of the outer-totalistic rule, double-buffered.
    pub fn update(&mut self)
        requires
            old(self).wf(),
        ensures
            old(self).same_shape(*final(self)),
            final(self).cells().len() == old(self).cells().len(),
            forall|i: int|
                0 <= i < old(self).cells().len() ==> final(self).cells()[i] == spec_outer_next(
                    old(self).cells(),
                    old(self).w(),
                    old(self).h(),
                    old(self).rule(),
                    i,
                ),
            final(self).back() == old(self).cells(),
    {
        let w = self.lat.width();
        let h = self.lat.height();
        let n = self.lat.len();
        let mut i: usize = 0;
        while i < n
            invariant
                self.wf(),
                self.w() == old(self).w(),
                self.h() == old(self).h(),
                self.rule() == old(self).rule(),
                w == self.w(),
                h == self.h(),
                n == self.w() * self.h(),
                i <= n,
                self.cells() == old(self).cells(),
                self.back().len() == n,
                forall|j: int|
                    0 <= j < i ==> self.back()[j] == spec_outer_next(
                        old(self).cells(),
                        self.w(),
                        self.h(),
                        self.rule(),
                        j,
                    ),
            decreases n - i,
        {
            let x = i % w;
            let y = i / w;
            proof {
                crate::lattice::lemma_index_surjective(w as int, h as int, i as int);
            }
            let count = self.count_neibs(x, y);
            let center = self.lat.at(i);
            let next = self.rule.next(center, count);
            self.lat.set_back(i, next);
            i = i + 1;
        }
        self.lat.swap_buffers();
    }

    /// Toggles the clicked cell and reports the state it now has.
    pub fn toggle(&mut self, x: isize, y: isize) -> (r: bool)
        requires
            old(self).wf(),
        ensures
            old(self).same_shape(*final(self)),
            final(self).back() == old(self).back(),
            (0 <= x < old(self).w() && 0 <= y < old(self).h()) ==> {
                &&& r == !old(self).cells()[x + y * old(self).w()]
                &&& final(self).cells() == old(self).cells().update(x + y * old(self).w(), r)
            },
            !(0 <= x < old(self).w() && 0 <= y < old(self).h()) ==> r == false && final(self).cells()
                == old(self).cells(),
    {
        match self.grid_idx(x, y) {
            Some(i) => {
                proof {
                    crate::lattice::lemma_index_in_range(self.w(), self.h(), x as int, y as int);
                }
                let was_alive = self.lat.at(i);
                self.lat.set_at(i, !was_alive);
                !was_alive
            },
            None => false,
        }
    }

    /// Kills every cell.
    pub fn clear(&mut self)
        requires
            old(self).wf(),
        ensures
            old(self).same_shape(*final(self)),
            final(self).back() == old(self).back(),
            final(self).cells() == Seq::new(old(self).cells().len(), |i: int| false),
    {
        self.lat.fill(false);
    }

    /// Bounds-checked read of one cell.
    pub fn get(&self, x: usize, y: usize) -> (r: Option<bool>)
        requires
            self.wf(),
        ensures
            match r {
                Some(b) => x < self.w() && y < self.h() && b == self.cells()[x + y * self.w()],
                None => x >= self.w() || y >= self.h(),
            },
    {
        self.lat.get(x, y)
    }

    /// Bounds-checked write of one cell.
    pub fn set(&mut self, x: usize, y: usize, alive: bool) -> (r: bool)
        requires
            old(self).wf(),
        ensures
            old(self).same_shape(*final(self)),
            final(self).back() == old(self).back(),
            r == (x < old(self).w() && y < old(self).h()),
            r ==> final(self).cells() == old(self).cells().update(x + y * old(self).w(), alive),
            !r ==> final(self).cells() == old(self).cells(),
    {
        self.lat.set(x, y, alive)
    }

    /// The flat address of `(x, y)`: `Some` exactly on in-range coordinates.
    pub fn grid_idx(&self, x: isize, y: isize) -> (r: Option<usize>)
        requires
            self.wf(),
        ensures
            match r {
                Some(i) => 0 <= x < self.w() && 0 <= y < self.h() && i == x + y * self.w(),
                None => !(0 <= x < self.w() && 0 <= y < self.h()),
            },
    {
        if x >= 0 && y >= 0 {
            let xu = x as usize;
            let yu = y as usize;
            if xu < self.lat.width() && yu < self.lat.height() {
                Some(self.lat.index_of(xu, yu))
            } else {
                None
            }
        } else {
            None
        }
    }

    /// Draws a segment of cells: the start point is clamped into
    /// `[0, width] x [0, height]`, the segment is rasterized with integer
    /// Bresenham stepping, and cells are set until the line first leaves
    /// the lattice.
    pub fn set_line(&mut self, x0: isize, y0: isize, x1: isize, y1: isize, alive: bool)
        requires
            old(self).wf(),
            old(self).w() <= 268435456,
            old(self).h() <= 268435456,
            -COORD_LIMIT <= x1 <= COORD_LIMIT,
            -COORD_LIMIT <= y1 <= COORD_LIMIT,
        ensures
            old(self).same_shape(*final(self)),
            final(self).back() == old(self).back(),
            final(self).rule() == old(self).rule(),
            final(self).cells().len() == old(self).cells().len(),
            forall|i: int|
                0 <= i < old(self).cells().len() ==> final(self).cells()[i] == (if spec_line_cells(
                    x0 as int,
                    y0 as int,
                    x1 as int,
                    y1 as int,
                    old(self).w(),
                    old(self).h(),
                ).contains(i) {
                    alive
                } else {
                    old(self).cells()[i]
                }),
    {
        let w = self.lat.width();
        let h = self.lat.height();
        let idxs = rasterize_clipped(x0, y0, x1, y1, w, h);
        set_cells(
            &mut self.lat,
            &idxs,
            Ghost(spec_line_cells(x0 as int, y0 as int, x1 as int, y1 as int, w as int, h as int)),
            alive,
        );
    }

    pub fn width(&self) -> (r: usize)
        ensures
            r == self.w(),
    {
        self.lat.width()
    }

    pub fn height(&self) -> (r: usize)
        ensures
            r == self.h(),
    {
        self.lat.height()
    }
}

} // verus!
