use vstd::prelude::*;

use crate::error::AutomataError;
use crate::lattice::{lemma_index_decompose, set_cells, spec_neighbor_of, Lattice};
use crate::raster::{rasterize_clipped, spec_line_cells, COORD_LIMIT};

verus! {

/// The grain count at which a pile topples.  The toppling rule is structural
/// and not configurable.
pub const TOPPLE_HEIGHT: u32 = 4;

/// How many grains the huge centre pile gets.
pub const CENTER_HEIGHT: u32 = 98304;

/// How many grains an edited cell is set to.
pub const CLICK_HEIGHT: u32 = 256;

/// How many grains each cell of the centre line seeding gets.
pub const LINE_HEIGHT: u32 = 512;

/// A single cell of the sandpile lattice: an unsigned grain count.
#[derive(Clone, Copy, Debug, PartialEq, Eq, Structural)]
pub struct Pile {
    pub grains: u32,
}

impl Pile {
    pub fn new(grains: u32) -> (p: Pile)
        ensures
            p.grains == grains,
    {
        Pile { grains }
    }

    /// What a pile keeps for itself after one step: a pile at or above the
    /// threshold releases exactly `TOPPLE_HEIGHT` grains.
    pub open spec fn spec_next_state(self) -> Pile {
        if self.grains >= TOPPLE_HEIGHT {
            Pile { grains: (self.grains - TOPPLE_HEIGHT) as u32 }
        } else {
            self
        }
    }

    pub fn next_state(self) -> (p: Pile)
        ensures
            p == self.spec_next_state(),
    {
        if self.grains >= TOPPLE_HEIGHT {
            Pile { grains: self.grains - TOPPLE_HEIGHT }
        } else {
            self
        }
    }

    /// Each neighbour tall enough to topple contributes a single grain.
    pub open spec fn spec_give_grain(self) -> u32 {
        if self.grains >= TOPPLE_HEIGHT {
            1u32
        } else {
            0u32
        }
    }

    pub fn give_grain(&self) -> (g: u32)
        ensures
            g == self.spec_give_grain(),
    {
        if self.grains >= TOPPLE_HEIGHT {
            1
        } else {
            0
        }
    }

    /// Adds grains with saturation: a count near the representable maximum
    /// sticks at the maximum instead of wrapping.
    pub fn add_grains(&self, grains: u32) -> (p: Pile)
        ensures
            p.grains == if self.grains + grains > u32::MAX {
                u32::MAX
            } else {
                (self.grains + grains) as u32
            },
    {
        Pile { grains: self.grains.saturating_add(grains) }
    }

    pub fn set_grains_inplace(&mut self, grains: u32)
        ensures
            final(self).grains == grains,
    {
        self.grains = grains;
    }
}

/// The 4-byte colour a grain count maps to: saturated piles yellow, piles at
/// the threshold teal, lower piles a gradient from black.
pub open spec fn spec_pixel_color(height: u32) -> Seq<u8> {
    if height > TOPPLE_HEIGHT {
        seq![0xffu8, 0xffu8, 0u8, 0xffu8]
    } else if height == TOPPLE_HEIGHT {
        seq![0u8, 0xddu8, 0xddu8, 0xffu8]
    } else {
        seq![(height * 50) as u8, 0u8, (height * 80) as u8, 0xffu8]
    }
}

pub fn pixel_color(height: u32) -> (c: [u8; 4])
    ensures
        c@ == spec_pixel_color(height),
{
    let c: [u8; 4] = if height > TOPPLE_HEIGHT {
        [0xff, 0xff, 0, 0xff]
    } else if height == TOPPLE_HEIGHT {
        [0, 0xdd, 0xdd, 0xff]
    } else {
        [(height as u8) * 50, 0, (height as u8) * 80, 0xff]
    };
    proof {
        assert(c@ =~= spec_pixel_color(height));
    }
    c
}

/// How many grains the four orthogonal neighbours of `(x, y)` contribute:
/// one for each neighbour at or above the toppling threshold.
pub open spec fn spec_contributed(s: Seq<Pile>, w: int, h: int, x: int, y: int) -> int {
    s[spec_neighbor_of(w, h, x, y, 0, -1)].spec_give_grain() + s[spec_neighbor_of(
        w,
        h,
        x,
        y,
        -1,
        0,
    )].spec_give_grain() + s[spec_neighbor_of(w, h, x, y, 1, 0)].spec_give_grain() + s[
        spec_neighbor_of(w, h, x, y, 0, 1)
    ].spec_give_grain()
}

/// One step of the toppling rule at flat address `i`: what the pile keeps
/// plus what its neighbours contribute, saturating at the maximum.
pub open spec fn spec_next_pile(s: Seq<Pile>, w: int, h: int, i: int) -> Pile {
    let rem = s[i].spec_next_state().grains;
    let c = spec_contributed(s, w, h, i % w, i / w);
    Pile {
        grains: if rem + c > u32::MAX {
            u32::MAX
        } else {
            (rem + c) as u32
        },
    }
}

/// The sum of a sequence of integers.
pub open spec fn sum_ints(s: Seq<int>) -> int
    decreases s.len(),
{
    if s.len() == 0 {
        0int
    } else {
        sum_ints(s.drop_last()) + s.last()
    }
}

/// The total grain count of a lattice buffer.
pub open spec fn total_grains(s: Seq<Pile>) -> int {
    sum_ints(Seq::new(s.len(), |i: int| s[i].grains as int))
}

proof fn lemma_sum_append(a: Seq<int>, b: Seq<int>)
    ensures
        sum_ints(a + b) == sum_ints(a) + sum_ints(b),
    decreases b.len(),
{
    if b.len() == 0 {
        assert(a + b =~= a);
    } else {
        lemma_sum_append(a, b.drop_last());
        assert((a + b).drop_last() =~= a + b.drop_last());
    }
}

proof fn lemma_sum_add(a: Seq<int>, b: Seq<int>, c: Seq<int>)
    requires
        a.len() == b.len(),
        c.len() == a.len(),
        forall|i: int| 0 <= i < c.len() ==> c[i] == a[i] + b[i],
    ensures
        sum_ints(c) == sum_ints(a) + sum_ints(b),
    decreases a.len(),
{
    if a.len() > 0 {
        lemma_sum_add(a.drop_last(), b.drop_last(), c.drop_last());
    }
}

proof fn lemma_sum_sub4(g: Seq<int>, t: Seq<int>, c: Seq<int>)
    requires
        g.len() == t.len(),
        c.len() == g.len(),
        forall|i: int| 0 <= i < c.len() ==> c[i] == g[i] - 4 * t[i],
    ensures
        sum_ints(c) == sum_ints(g) - 4 * sum_ints(t),
    decreases g.len(),
{
    if g.len() > 0 {
        lemma_sum_sub4(g.drop_last(), t.drop_last(), c.drop_last());
    }
}

/// Rotating a sequence does not change its sum.
proof fn lemma_sum_rotation(s: Seq<int>, k: int)
    requires
        0 <= k <= s.len(),
    ensures
        sum_ints(Seq::new(s.len(), |i: int| s[(i + k) % (s.len() as int)])) == sum_ints(s),
{
    let n = s.len() as int;
    if n == 0 {
        assert(Seq::new(s.len(), |i: int| s[(i + k) % (s.len() as int)]) =~= s);
    } else {
        let r = Seq::new(s.len(), |i: int| s[(i + k) % n]);
        assert(r =~= s.subrange(k, n) + s.subrange(0, k)) by {
            assert forall|i: int| 0 <= i < n implies r[i] == (s.subrange(k, n) + s.subrange(
                0,
                k,
            ))[i] by {
                if i < n - k {
                    vstd::arithmetic::div_mod::lemma_fundamental_div_mod_converse(i + k, n, 0, i + k);
                } else {
                    vstd::arithmetic::div_mod::lemma_fundamental_div_mod_converse(
                        i + k,
                        n,
                        1,
                        i + k - n,
                    );
                }
            }
        }
        lemma_sum_append(s.subrange(k, n), s.subrange(0, k));
        assert(s =~= s.subrange(0, k) + s.subrange(k, n));
        lemma_sum_append(s.subrange(0, k), s.subrange(k, n));
    }
}

/// Two buffers whose rows sum alike sum alike overall.
proof fn lemma_sum_rows_eq(a: Seq<int>, b: Seq<int>, w: int, h: int)
    requires
        0 < w,
        0 <= h,
        a.len() == w * h,
        b.len() == w * h,
        forall|y: int|
            0 <= y < h ==> sum_ints(#[trigger] a.subrange(y * w, y * w + w)) == sum_ints(
                b.subrange(y * w, y * w + w),
            ),
    ensures
        sum_ints(a) == sum_ints(b),
    decreases h,
{
    if h == 0 {
        assert(w * h == 0) by (nonlinear_arith)
            requires
                h == 0,
        ;
        assert(a =~= Seq::<int>::empty());
        assert(b =~= Seq::<int>::empty());
    } else {
        let m = (h - 1) * w;
        assert(0 <= m && m + w == w * h) by (nonlinear_arith)
            requires
                m == (h - 1) * w,
                0 < w,
                1 <= h,
        ;
        let a0 = a.subrange(0, m);
        let b0 = b.subrange(0, m);
        assert(a =~= a0 + a.subrange(m, m + w));
        assert(b =~= b0 + b.subrange(m, m + w));
        lemma_sum_append(a0, a.subrange(m, m + w));
        lemma_sum_append(b0, b.subrange(m, m + w));
        assert forall|y: int| 0 <= y < h - 1 implies sum_ints(#[trigger] a0.subrange(
            y * w,
            y * w + w,
        )) == sum_ints(b0.subrange(y * w, y * w + w)) by {
            assert(0 <= y * w && y * w + w <= m) by (nonlinear_arith)
                requires
                    0 <= y <= h - 2,
                    m == (h - 1) * w,
                    0 < w,
            ;
            assert(a0.subrange(y * w, y * w + w) =~= a.subrange(y * w, y * w + w));
            assert(b0.subrange(y * w, y * w + w) =~= b.subrange(y * w, y * w + w));
        }
        assert(m == w * (h - 1)) by (nonlinear_arith)
            requires
                m == (h - 1) * w,
        ;
        lemma_sum_rows_eq(a0, b0, w, h - 1);
    }
}

/// A wrapped single-step offset, written as addition modulo the axis size.
proof fn lemma_wrap_as_mod(v: int, d: int, n: int)
    requires
        0 < n,
        0 <= v < n,
        -1 <= d <= 1,
    ensures
        crate::lattice::wrap_add(v, d, n) == (v + d + n) % n,
{
    if v + d < 0 {
        vstd::arithmetic::div_mod::lemma_fundamental_div_mod_converse(v + d + n, n, 0, v + d + n);
    } else if v + d >= n {
        vstd::arithmetic::div_mod::lemma_fundamental_div_mod_converse(
            v + d + n,
            n,
            2,
            v + d - n,
        );
    } else {
        vstd::arithmetic::div_mod::lemma_fundamental_div_mod_converse(v + d + n, n, 1, v + d);
    }
}

/// A vertical neighbour offset is a rotation of the flat buffer by one
/// whole row.
proof fn lemma_neighbor_vertical(w: int, h: int, i: int, dy: int)
    requires
        0 < w,
        0 < h,
        0 <= i < w * h,
        dy == 1 || dy == -1,
    ensures
        spec_neighbor_of(w, h, i % w, i / w, 0, dy) == (i + (if dy == 1 {
            w
        } else {
            w * h - w
        })) % (w * h),
{
    let n = w * h;
    crate::lattice::lemma_index_surjective(w, h, i);
    let x = i % w;
    let y = i / w;
    let ny = crate::lattice::wrap_add(y, dy, h);
    let target = x + ny * w;
    assert(target == i + (ny - y) * w) by (nonlinear_arith)
        requires
            i == x + y * w,
            target == x + ny * w,
    ;
    if dy == 1 {
        if y < h - 1 {
            assert(ny == y + 1);
            assert(0 <= i + w < n) by (nonlinear_arith)
                requires
                    i == x + y * w,
                    0 <= x < w,
                    0 <= y <= h - 2,
                    0 < w,
                    n == w * h,
            ;
            assert(target == i + w) by (nonlinear_arith)
                requires
                    target == x + ny * w,
                    i == x + y * w,
                    ny == y + 1,
            ;
            vstd::arithmetic::div_mod::lemma_fundamental_div_mod_converse(i + w, n, 0, i + w);
        } else {
            assert(y == h - 1 && ny == 0);
            assert(target == i + w - n && 0 <= target < n) by (nonlinear_arith)
                requires
                    i == x + y * w,
                    0 <= x < w,
                    y == h - 1,
                    ny == 0,
                    target == x + ny * w,
                    n == w * h,
                    0 < w,
                    0 < h,
            ;
            vstd::arithmetic::div_mod::lemma_fundamental_div_mod_converse(i + w, n, 1, target);
        }
    } else {
        if y >= 1 {
            assert(ny == y - 1);
            assert(target == i - w && 0 <= target < n && i + (n - w) == n + target)
                by (nonlinear_arith)
                requires
                    i == x + y * w,
                    0 <= x < w,
                    1 <= y < h,
                    ny == y - 1,
                    target == x + ny * w,
                    n == w * h,
                    0 < w,
            ;
            vstd::arithmetic::div_mod::lemma_fundamental_div_mod_converse(i + (n - w), n, 1, target);
        } else {
            assert(y == 0 && ny == h - 1);
            assert(i + (n - w) == target && 0 <= target < n) by (nonlinear_arith)
                requires
                    i == x + y * w,
                    0 <= x < w,
                    y == 0,
                    ny == h - 1,
                    target == x + ny * w,
                    n == w * h,
                    0 < w,
                    0 < h,
            ;
            vstd::arithmetic::div_mod::lemma_fundamental_div_mod_converse(i + (n - w), n, 0, target);
        }
    }
}

/// The sum of a neighbour-shifted toppling indicator equals the sum of the
/// indicator itself: shifting along either axis only permutes the torus.
proof fn lemma_shifted_sum(tt: Seq<int>, w: int, h: int, dx: int, dy: int)
    requires
        0 < w,
        0 < h,
        tt.len() == w * h,
        -1 <= dx <= 1,
        -1 <= dy <= 1,
        dx == 0 || dy == 0,
    ensures
        sum_ints(
            Seq::new(tt.len(), |i: int| tt[spec_neighbor_of(w, h, i % w, i / w, dx, dy)]),
        ) == sum_ints(tt),
{
    let n = w * h;
    let shifted = Seq::new(tt.len(), |i: int| tt[spec_neighbor_of(w, h, i % w, i / w, dx, dy)]);
    if dy != 0 && dx == 0 {
        let k: int = if dy == 1 {
            w
        } else {
            n - w
        };
        assert(shifted =~= Seq::new(tt.len(), |i: int| tt[(i + k) % n])) by {
            assert forall|i: int| 0 <= i < n implies shifted[i] == tt[(i + k) % n] by {
                lemma_neighbor_vertical(w, h, i, dy);
            }
        }
        assert(0 <= k <= n) by (nonlinear_arith)
            requires
                k == w || k == n - w,
                0 < w,
                0 < h,
                n == w * h,
        ;
        lemma_sum_rotation(tt, k);
    } else if dx != 0 && dy == 0 {
        // Each row of the shifted buffer is a rotation of the same row.
        assert forall|y: int| 0 <= y < h implies sum_ints(#[trigger] shifted.subrange(
            y * w,
            y * w + w,
        )) == sum_ints(tt.subrange(y * w, y * w + w)) by {
            let row = tt.subrange(y * w, y * w + w);
            let k: int = if dx == 1 {
                1int
            } else {
                w - 1
            };
            assert(0 <= y * w && y * w + w <= n) by (nonlinear_arith)
                requires
                    0 <= y <= h - 1,
                    0 < w,
                    n == w * h,
            ;
            assert(shifted.subrange(y * w, y * w + w) =~= Seq::new(
                w as nat,
                |x: int| row[(x + k) % w],
            )) by {
                assert forall|x: int| 0 <= x < w implies #[trigger] shifted.subrange(
                    y * w,
                    y * w + w,
                )[x] == row[(x + k) % w] by {
                    lemma_index_decompose(w, x, y);
                    lemma_wrap_as_mod(x, dx, w);
                    crate::lattice::lemma_index_in_range(
                        w,
                        h,
                        crate::lattice::wrap_add(x, dx, w),
                        y,
                    );
                    if dx == 1 {
                        if x + 1 < w {
                            vstd::arithmetic::div_mod::lemma_fundamental_div_mod_converse(
                                x + 1 + w,
                                w,
                                1,
                                x + 1,
                            );
                            vstd::arithmetic::div_mod::lemma_fundamental_div_mod_converse(
                                x + 1,
                                w,
                                0,
                                x + 1,
                            );
                        } else {
                            vstd::arithmetic::div_mod::lemma_fundamental_div_mod_converse(
                                x + 1,
                                w,
                                1,
                                0,
                            );
                        }
                    } else {
                        if x == 0 {
                            vstd::arithmetic::div_mod::lemma_fundamental_div_mod_converse(
                                x + w - 1,
                                w,
                                0,
                                w - 1,
                            );
                        } else {
                            vstd::arithmetic::div_mod::lemma_fundamental_div_mod_converse(
                                x + w - 1,
                                w,
                                1,
                                x - 1,
                            );
                        }
                    }
                    assert(row[(x + k) % w] == tt[y * w + (x + k) % w]);
                }
            }
            lemma_sum_rotation(row, k);
        }
        lemma_sum_rows_eq(shifted, tt, w, h);
    } else {
        assert(shifted =~= Seq::new(tt.len(), |i: int| tt[(i + 0) % n])) by {
            assert forall|i: int| 0 <= i < n implies shifted[i] == tt[(i + 0) % n] by {
                crate::lattice::lemma_index_surjective(w, h, i);
                vstd::arithmetic::div_mod::lemma_fundamental_div_mod_converse(i, n, 0, i);
            }
        }
        lemma_sum_rotation(tt, 0);
    }
}

/// The conservation law: across one step the total grain count stays
/// exactly equal.  On the torus every grain a toppling cell releases lands
/// on a neighbour; and the saturating addition never actually saturates,
/// because a toppled remainder is at least four below the maximum while the
/// neighbours contribute at most four.
pub proof fn lemma_update_total_conserved(s: Seq<Pile>, w: int, h: int)
    requires
        0 < w,
        0 < h,
        s.len() == w * h,
    ensures
        total_grains(Seq::new(s.len(), |i: int| spec_next_pile(s, w, h, i))) == total_grains(s),
{
    let n = w * h;
    let gseq = Seq::new(s.len(), |i: int| s[i].grains as int);
    let tt = Seq::new(s.len(), |i: int| s[i].spec_give_grain() as int);
    let rem = Seq::new(s.len(), |i: int| s[i].spec_next_state().grains as int);
    let up = Seq::new(s.len(), |i: int| tt[spec_neighbor_of(w, h, i % w, i / w, 0, -1)]);
    let left = Seq::new(s.len(), |i: int| tt[spec_neighbor_of(w, h, i % w, i / w, -1, 0)]);
    let right = Seq::new(s.len(), |i: int| tt[spec_neighbor_of(w, h, i % w, i / w, 1, 0)]);
    let down = Seq::new(s.len(), |i: int| tt[spec_neighbor_of(w, h, i % w, i / w, 0, 1)]);
    let horiz = Seq::new(s.len(), |i: int| left[i] + right[i]);
    let vert = Seq::new(s.len(), |i: int| up[i] + down[i]);
    let cc = Seq::new(s.len(), |i: int| vert[i] + horiz[i]);
    let remcc = Seq::new(s.len(), |i: int| rem[i] + cc[i]);
    let nseq = Seq::new(s.len(), |i: int| spec_next_pile(s, w, h, i).grains as int);
    assert forall|i: int| 0 <= i < n implies cc[i] == spec_contributed(s, w, h, i % w, i / w)
        && nseq[i] == rem[i] + cc[i] && rem[i] == gseq[i] - 4 * tt[i] by {
        crate::lattice::lemma_index_surjective(w, h, i);
        crate::lattice::lemma_neighbor_index_valid(w, h, i % w, i / w, 0, -1);
        crate::lattice::lemma_neighbor_index_valid(w, h, i % w, i / w, -1, 0);
        crate::lattice::lemma_neighbor_index_valid(w, h, i % w, i / w, 1, 0);
        crate::lattice::lemma_neighbor_index_valid(w, h, i % w, i / w, 0, 1);
    }
    lemma_sum_add(rem, cc, remcc);
    assert(nseq =~= remcc);
    lemma_sum_add(vert, horiz, cc);
    lemma_sum_add(up, down, vert);
    lemma_sum_add(left, right, horiz);
    lemma_sum_sub4(gseq, tt, rem);
    lemma_shifted_sum(tt, w, h, 0, -1);
    lemma_shifted_sum(tt, w, h, -1, 0);
    lemma_shifted_sum(tt, w, h, 1, 0);
    lemma_shifted_sum(tt, w, h, 0, 1);
    assert(total_grains(Seq::new(s.len(), |i: int| spec_next_pile(s, w, h, i))) == sum_ints(
        nseq,
    )) by {
        let mapped = Seq::new(
            Seq::new(s.len(), |i: int| spec_next_pile(s, w, h, i)).len(),
            |i: int| Seq::new(s.len(), |j: int| spec_next_pile(s, w, h, j))[i].grains as int,
        );
        assert(mapped =~= nseq);
    }
    assert(total_grains(s) == sum_ints(gseq)) by {
        assert(Seq::new(s.len(), |i: int| s[i].grains as int) =~= gseq);
    }
}

/// Whether flat address `i` lies on the centre line seeding: the middle row,
/// more than 40 cells away from either vertical edge.
pub open spec fn spec_on_center_line(w: int, h: int, i: int) -> bool {
    i / w == h / 2 && 40 < i % w && i % w + 40 < w
}

/// The integer form of the 0.07 fill fraction used when randomizing: a draw
/// seeds a pile when its 23-bit unit mantissa is below this threshold,
/// exactly when the draw mapped into `[0, 1)` is below the 32-bit float
/// nearest to 0.07.  The comparison runs in the opposite sense from the
/// binary automata's, deliberately: seeded piles are meant to be rare.
pub const RANDOM_FILL_MANTISSA: u32 = 587203;

/// The random seeding of the first `k` piles: each pile consumes one draw
/// to decide whether it is seeded at all, and a seeded pile consumes a
/// second draw for its grain count in `0 ..= 63`; unseeded piles keep their
/// contents.
pub open spec fn spec_sand_fill(s: Seq<Pile>, g: crate::randomizer::Pcg32, k: nat) -> (
    Seq<Pile>,
    crate::randomizer::Pcg32,
)
    decreases k,
{
    if k == 0 {
        (s, g)
    } else {
        let prev = spec_sand_fill(s, g, (k - 1) as nat);
        let d = prev.1.spec_output();
        let g1 = prev.1.spec_step();
        if crate::randomizer::spec_unit_mantissa(d) < RANDOM_FILL_MANTISSA {
            let d2 = g1.spec_output();
            let g2 = g1.spec_step();
            (prev.0.update((k - 1) as int, Pile { grains: (d2 % 64) as u32 }), g2)
        } else {
            (prev.0, g1)
        }
    }
}

/// An Abelian sandpile on a toroidal lattice, double-buffered: a step scans
/// every cell, letting piles at or above the threshold topple one grain to
/// each of their four orthogonal neighbours.
pub struct SandPiles {
    lat: Lattice<Pile>,
}

impl SandPiles {
    pub open spec fn wf(self) -> bool {
        &&& self.w() > 0
        &&& self.h() > 0
        &&& self.w() * self.h() <= usize::MAX
        &&& self.piles().len() == self.w() * self.h()
        &&& self.back().len() == self.w() * self.h()
    }

    pub closed spec fn w(self) -> int {
        self.lat.w()
    }

    pub closed spec fn h(self) -> int {
        self.lat.h()
    }

    /// The visible generation.
    pub closed spec fn piles(self) -> Seq<Pile> {
        self.lat.cells()
    }

    /// The scratch generation.
    pub closed spec fn back(self) -> Seq<Pile> {
        self.lat.back()
    }

    /// Whether dimensions are kept and the lattice stays well-formed; every
    /// mutating operation preserves this.
    pub open spec fn same_shape(self, other: SandPiles) -> bool {
        &&& other.wf()
        &&& other.w() == self.w()
        &&& other.h() == self.h()
    }

    /// An all-empty sandpile; rejects zero or overflowing dimensions.
    pub fn new_empty(width: usize, height: usize) -> (r: Result<SandPiles, AutomataError>)
        ensures
            match r {
                Ok(s) => {
                    &&& s.wf()
                    &&& s.w() == width
                    &&& s.h() == height
                    &&& s.piles() == Seq::new((width * height) as nat, |i: int| Pile { grains: 0u32 })
                },
                Err(e) => {
                    &&& e == AutomataError::InvalidDimensions
                    &&& (width == 0 || height == 0 || width * height > usize::MAX)
                },
            },
    {
        match Lattice::new(width, height, Pile { grains: 0 }) {
            Ok(lat) => Ok(SandPiles { lat }),
            Err(e) => Err(e),
        }
    }

    /// An otherwise empty sandpile with one supercritical pile at the lattice
    /// centre.
    pub fn new_center(width: usize, height: usize) -> (r: Result<SandPiles, AutomataError>)
        ensures
            match r {
                Ok(s) => {
                    &&& s.wf()
                    &&& s.w() == width
                    &&& s.h() == height
                    &&& s.piles() == Seq::new(
                        (width * height) as nat,
                        |i: int| Pile { grains: 0u32 },
                    ).update(width as int / 2 + (height as int / 2) * width, Pile { grains: CENTER_HEIGHT })
                },
                Err(e) => {
                    &&& e == AutomataError::InvalidDimensions
                    &&& (width == 0 || height == 0 || width * height > usize::MAX)
                },
            },
    {
        let mut result = match SandPiles::new_empty(width, height) {
            Ok(s) => s,
            Err(e) => {
                return Err(e);
            },
        };
        result.center_pile();
        Ok(result)
    }

    /// Sets the pile at the lattice centre to the huge seeding count.
    pub fn center_pile(&mut self)
        requires
            old(self).wf(),
        ensures
            old(self).same_shape(*final(self)),
            final(self).back() == old(self).back(),
            final(self).piles() == old(self).piles().update(
                old(self).w() / 2 + (old(self).h() / 2) * old(self).w(),
                Pile { grains: CENTER_HEIGHT },
            ),
    {
        let x = self.lat.width() / 2;
        let y = self.lat.height() / 2;
        let i = self.lat.index_of(x, y);
        self.lat.set_at(i, Pile { grains: CENTER_HEIGHT });
    }

    /// Seeds a horizontal line of moderately supercritical piles across the
    /// middle row, leaving a 40-cell margin at both vertical edges.
    pub fn center_line(&mut self)
        requires
            old(self).wf(),
        ensures
            old(self).same_shape(*final(self)),
            final(self).back() == old(self).back(),
            final(self).piles().len() == old(self).piles().len(),
            forall|i: int|
                0 <= i < old(self).piles().len() ==> final(self).piles()[i] == if spec_on_center_line(
                    old(self).w(),
                    old(self).h(),
                    i,
                ) {
                    Pile { grains: LINE_HEIGHT }
                } else {
                    old(self).piles()[i]
                },
    {
        let w = self.lat.width();
        let h = self.lat.height();
        let y = h / 2;
        let mut x: usize = 0;
        while x < w
            invariant
                self.wf(),
                self.w() == old(self).w(),
                self.h() == old(self).h(),
                self.back() == old(self).back(),
                w == self.w(),
                h == self.h(),
                y == self.h() / 2,
                x <= w,
                self.piles().len() == old(self).piles().len(),
                forall|i: int|
                    0 <= i < old(self).piles().len() ==> self.piles()[i] == (if spec_on_center_line(
                        self.w(),
                        self.h(),
                        i,
                    ) && i % (w as int) < x {
                        Pile { grains: LINE_HEIGHT }
                    } else {
                        old(self).piles()[i]
                    }),
            decreases w - x,
        {
            if x > 40 && w > 40 && x < w - 40 {
                let i = self.lat.index_of(x, y);
                self.lat.set_at(i, Pile { grains: LINE_HEIGHT });
                proof {
                    lemma_index_decompose(w as int, x as int, y as int);
                }
            }
            proof {
                assert forall|i: int| 0 <= i < old(self).piles().len() implies self.piles()[i] == (
                if spec_on_center_line(self.w(), self.h(), i) && i % (w as int) < x + 1 {
                    Pile { grains: LINE_HEIGHT }
                } else {
                    old(self).piles()[i]
                }) by {
                    vstd::arithmetic::div_mod::lemma_fundamental_div_mod(i, w as int);
                    assert((w as int) * (i / (w as int)) == (i / (w as int)) * (w as int))
                        by (nonlinear_arith);
                }
            }
            x = x + 1;
        }
    }

    /// Empties every pile.
    pub fn clear(&mut self)
        requires
            old(self).wf(),
        ensures
            old(self).same_shape(*final(self)),
            final(self).back() == old(self).back(),
            final(self).piles() == Seq::new(
                old(self).piles().len(),
                |i: int| Pile { grains: 0u32 },
            ),
    {
        self.lat.fill(Pile { grains: 0 });
    }

    /// How many grains the four orthogonal toroidal neighbours of `(x, y)`
    /// contribute; a toppling cell in column 0 contributes to column
    /// `width - 1` and correspondingly on every edge.
    pub fn count_tall_neibs(&self, x: usize, y: usize) -> (c: u32)
        requires
            self.wf(),
            x < self.w(),
            y < self.h(),
        ensures
            c == spec_contributed(self.piles(), self.w(), self.h(), x as int, y as int),
            c <= 4,
    {
        let up = self.lat.at(self.lat.neighbor_index(x, y, 0, -1));
        let left = self.lat.at(self.lat.neighbor_index(x, y, -1, 0));
        let right = self.lat.at(self.lat.neighbor_index(x, y, 1, 0));
        let down = self.lat.at(self.lat.neighbor_index(x, y, 0, 1));
        up.give_grain() + left.give_grain() + right.give_grain() + down.give_grain()
    }

    /// One generation of the toppling rule, computed into the scratch buffer
    /// from the unmodified current one, then made visible by swapping.
    pub fn update(&mut self)
        requires
            old(self).wf(),
        ensures
            old(self).same_shape(*final(self)),
            final(self).piles().len() == old(self).piles().len(),
            forall|i: int|
                0 <= i < old(self).piles().len() ==> final(self).piles()[i] == spec_next_pile(
                    old(self).piles(),
                    old(self).w(),
                    old(self).h(),
                    i,
                ),
            final(self).back() == old(self).piles(),
    {
        let w = self.lat.width();
        let h = self.lat.height();
        let n = self.lat.len();
        let mut i: usize = 0;
        while i < n
            invariant
                self.wf(),
                self.w() == old(self).w(),
                self.h() == old(self).h(),
                w == self.w(),
                h == self.h(),
                n == self.w() * self.h(),
                i <= n,
                self.piles() == old(self).piles(),
                self.back().len() == n,
                forall|j: int|
                    0 <= j < i ==> self.back()[j] == spec_next_pile(
                        old(self).piles(),
                        self.w(),
                        self.h(),
                        j,
                    ),
            decreases n - i,
        {
            let x = i % w;
            let y = i / w;
            proof {
                crate::lattice::lemma_index_surjective(w as int, h as int, i as int);
            }
            let neibs = self.count_tall_neibs(x, y);
            let next = self.lat.at(i).next_state().add_grains(neibs);
            self.lat.set_back(i, next);
            i = i + 1;
        }
        self.lat.swap_buffers();
    }

    /// Paints the lattice into a 4-bytes-per-cell pixel buffer, writing every
    /// pixel exactly once and reading none.
    pub fn draw(&self, screen: &mut Vec<u8>)
        requires
            self.wf(),
            old(screen)@.len() == 4 * (self.w() * self.h()),
        ensures
            final(screen)@.len() == old(screen)@.len(),
            forall|i: int|
                0 <= i < self.w() * self.h() ==> final(screen)@.subrange(4 * i, 4 * i + 4)
                    == spec_pixel_color(self.piles()[i].grains),
    {
        let n = self.lat.len();
        let total = screen.len();
        let mut i: usize = 0;
        while i < n
            invariant
                self.wf(),
                n == self.w() * self.h(),
                i <= n,
                total == screen@.len(),
                screen@.len() == 4 * n,
                forall|j: int|
                    0 <= j < i ==> screen@.subrange(4 * j, 4 * j + 4) == spec_pixel_color(
                        self.piles()[j].grains,
                    ),
            decreases n - i,
        {
            let c = pixel_color(self.lat.at(i).grains);
            screen.set(4 * i, c[0]);
            screen.set(4 * i + 1, c[1]);
            screen.set(4 * i + 2, c[2]);
            screen.set(4 * i + 3, c[3]);
            proof {
                assert forall|j: int| 0 <= j < i + 1 implies screen@.subrange(4 * j, 4 * j + 4)
                    == spec_pixel_color(self.piles()[j].grains) by {
                    assert(screen@.subrange(4 * j, 4 * j + 4) =~= spec_pixel_color(
                        self.piles()[j].grains,
                    ));
                }
            }
            i = i + 1;
        }
    }

    /// Sets the clicked cell to the editing grain count; coordinates outside
    /// the lattice are silently ignored.  Always reports an active edit.
    pub fn set_pile(&mut self, x: isize, y: isize) -> (r: bool)
        requires
            old(self).wf(),
        ensures
            old(self).same_shape(*final(self)),
            final(self).back() == old(self).back(),
            r == true,
            (0 <= x < old(self).w() && 0 <= y < old(self).h()) ==> final(self).piles() == old(
                self,
            ).piles().update(x + y * old(self).w(), Pile { grains: CLICK_HEIGHT }),
            !(0 <= x < old(self).w() && 0 <= y < old(self).h()) ==> final(self).piles() == old(
                self,
            ).piles(),
    {
        match self.grid_idx(x, y) {
            Some(i) => {
                proof {
                    crate::lattice::lemma_index_in_range(self.w(), self.h(), x as int, y as int);
                }
                self.lat.set_at(i, Pile { grains: CLICK_HEIGHT });
            },
            None => {},
        }
        true
    }

    /// Draws a segment of piles, each set to the editing grain count: the start point is clamped into
    /// `[0, width] x [0, height]`, the segment is rasterized with integer
    /// Bresenham stepping, and cells are set until the line first leaves
    /// the lattice.
    pub fn set_line(&mut self, x0: isize, y0: isize, x1: isize, y1: isize)
        requires
            old(self).wf(),
            old(self).w() <= 268435456,
            old(self).h() <= 268435456,
            -COORD_LIMIT <= x1 <= COORD_LIMIT,
            -COORD_LIMIT <= y1 <= COORD_LIMIT,
        ensures
            old(self).same_shape(*final(self)),
            final(self).back() == old(self).back(),
            final(self).piles().len() == old(self).piles().len(),
            forall|i: int|
                0 <= i < old(self).piles().len() ==> final(self).piles()[i] == (if spec_line_cells(
                    x0 as int,
                    y0 as int,
                    x1 as int,
                    y1 as int,
                    old(self).w(),
                    old(self).h(),
                ).contains(i) {
                    (Pile { grains: CLICK_HEIGHT })
                } else {
                    old(self).piles()[i]
                }),
    {
        let w = self.lat.width();
        let h = self.lat.height();
        let idxs = rasterize_clipped(x0, y0, x1, y1, w, h);
        set_cells(
            &mut self.lat,
            &idxs,
            Ghost(spec_line_cells(x0 as int, y0 as int, x1 as int, y1 as int, w as int, h as int)),
            Pile { grains: CLICK_HEIGHT },
        );
    }

    /// The flat address of `(x, y)`: `Some` exactly on in-range coordinates.
    pub fn grid_idx(&self, x: isize, y: isize) -> (r: Option<usize>)
        requires
            self.wf(),
        ensures
            match r {
                Some(i) => 0 <= x < self.w() && 0 <= y < self.h() && i == x + y * self.w(),
                None => !(0 <= x < self.w() && 0 <= y < self.h()),
            },
    {
        if x >= 0 && y >= 0 {
            let xu = x as usize;
            let yu = y as usize;
            if xu < self.lat.width() && yu < self.lat.height() {
                Some(self.lat.index_of(xu, yu))
            } else {
                None
            }
        } else {
            None
        }
    }

    /// Randomizes the lattice from a fresh entropy seed: a sparse scattering
    /// of small piles.  Fails only if the entropy source does, leaving the
    /// lattice untouched.
    pub fn randomize(&mut self) -> (r: Result<(), AutomataError>)
        requires
            old(self).wf(),
        ensures
            old(self).same_shape(*final(self)),
            final(self).back() == old(self).back(),
            r matches Err(e) ==> e == AutomataError::EntropyFailure && *final(self) == *old(self),
            r is Ok ==> exists|a: u64, b: u64|
                final(self).piles() == spec_sand_fill(
                    old(self).piles(),
                    crate::randomizer::Pcg32::spec_seed(a, b),
                    old(self).piles().len(),
                ).0,
    {
        let (seed_a, seed_b) = match crate::randomizer::generate_seed() {
            Ok(s) => s,
            Err(e) => {
                return Err(e);
            },
        };
        self.randomize_with_seed(seed_a, seed_b);
        proof {
            assert(self.piles() == spec_sand_fill(
                old(self).piles(),
                crate::randomizer::Pcg32::spec_seed(seed_a, seed_b),
                old(self).piles().len(),
            ).0);
        }
        Ok(())
    }

    /// Deterministically randomizes the lattice: pile `i` is seeded exactly
    /// when the unit mantissa of its deciding draw falls below the sparse
    /// 0.07 threshold, and a seeded pile's count is the next draw reduced
    /// modulo 64; all other piles keep their contents.
    #[verifier::rlimit(50)]
    pub fn randomize_with_seed(&mut self, seed_a: u64, seed_b: u64)
        requires
            old(self).wf(),
        ensures
            old(self).same_shape(*final(self)),
            final(self).back() == old(self).back(),
            final(self).piles() == spec_sand_fill(
                old(self).piles(),
                crate::randomizer::Pcg32::spec_seed(seed_a, seed_b),
                old(self).piles().len(),
            ).0,
    {
        let ghost g0 = crate::randomizer::Pcg32::spec_seed(seed_a, seed_b);
        let mut rng = crate::randomizer::Pcg32::seed(seed_a, seed_b);
        let n = self.lat.len();
        let mut i: usize = 0;
        while i < n
            invariant
                self.wf(),
                self.w() == old(self).w(),
                self.h() == old(self).h(),
                self.back() == old(self).back(),
                i <= n,
                n == self.w() * self.h(),
                old(self).piles().len() == n,
                self.piles() == spec_sand_fill(old(self).piles(), g0, i as nat).0,
                rng == spec_sand_fill(old(self).piles(), g0, i as nat).1,
            decreases n - i,
        {
            let draw = rng.next_u32();
            if crate::randomizer::unit_mantissa(draw) < RANDOM_FILL_MANTISSA {
                let grains = rng.next_u32() % 64;
                self.lat.set_at(i, Pile { grains });
            }
            i = i + 1;
        }
    }

    /// Bounds-checked write of one pile's grain count; out-of-range edits
    /// are silently ignored.
    pub fn set_grains(&mut self, x: usize, y: usize, grains: u32) -> (r: bool)
        requires
            old(self).wf(),
        ensures
            old(self).same_shape(*final(self)),
            final(self).back() == old(self).back(),
            r == (x < old(self).w() && y < old(self).h()),
            r ==> final(self).piles() == old(self).piles().update(
                x + y * old(self).w(),
                Pile { grains },
            ),
            !r ==> final(self).piles() == old(self).piles(),
    {
        self.lat.set(x, y, Pile { grains })
    }

    /// Bounds-checked read of one pile.
    pub fn get(&self, x: usize, y: usize) -> (r: Option<Pile>)
        requires
            self.wf(),
        ensures
            match r {
                Some(p) => x < self.w() && y < self.h() && p == self.piles()[x + y * self.w()],
                None => x >= self.w() || y >= self.h(),
            },
    {
        self.lat.get(x, y)
    }

    pub fn width(&self) -> (r: usize)
        ensures
            r == self.w(),
    {
        self.lat.width()
    }

    pub fn height(&self) -> (r: usize)
        ensures
            r == self.h(),
    {
        self.lat.height()
    }
}

} // verus!
