use vstd::prelude::*;

use crate::error::AutomataError;

verus! {

/// Wraps `v + d` into `[0, n)`, for `|d| <= 1` and `0 <= v < n`: the toroidal
/// neighbour coordinate along one axis.
pub open spec fn wrap_add(v: int, d: int, n: int) -> int {
    if v + d < 0 {
        v + d + n
    } else if v + d >= n {
        v + d - n
    } else {
        v + d
    }
}

/// 1 for a live cell, 0 for a dead one.
pub open spec fn b2i(b: bool) -> int {
    if b {
        1int
    } else {
        0int
    }
}

/// The flat row-major address of the toroidal neighbour of `(x, y)` at
/// offset `(dx, dy)` on a `w` by `h` lattice.
pub open spec fn spec_neighbor_of(w: int, h: int, x: int, y: int, dx: int, dy: int) -> int {
    wrap_add(x, dx, w) + wrap_add(y, dy, h) * w
}

/// A rectangular grid of cells with toroidal adjacency, stored row-major in a
/// flat buffer, together with a scratch buffer of the same size for
/// double-buffered updates.
pub struct Lattice<C> {
    width: usize,
    height: usize,
    current: Vec<C>,
    scratch: Vec<C>,
}

impl<C: Copy> Lattice<C> {
    /// Both buffers always hold exactly `width * height` cells.
    pub open spec fn wf(self) -> bool {
        &&& self.w() > 0
        &&& self.h() > 0
        &&& self.w() * self.h() <= usize::MAX
        &&& self.cells().len() == self.w() * self.h()
        &&& self.back().len() == self.w() * self.h()
    }

    pub closed spec fn w(self) -> int {
        self.width as int
    }

    pub closed spec fn h(self) -> int {
        self.height as int
    }

    /// The visible generation.
    pub closed spec fn cells(self) -> Seq<C> {
        self.current@
    }

    /// The scratch generation being built.
    pub closed spec fn back(self) -> Seq<C> {
        self.scratch@
    }

    /// Row-major address of the cell at `(x, y)`.
    pub open spec fn spec_index_of(self, x: int, y: int) -> int {
        x + y * self.w()
    }

    /// `new(width, height, fill)` builds a lattice whose cells all hold
    /// `fill`, and rejects dimensions that are zero or whose product
    /// overflows the `usize` addressing range.
    pub fn new(width: usize, height: usize, fill: C) -> (r: Result<Lattice<C>, AutomataError>)
        ensures
            match r {
                Ok(l) => {
                    &&& l.wf()
                    &&& l.w() == width
                    &&& l.h() == height
                    &&& l.cells() == Seq::new((width * height) as nat, |i: int| fill)
                    &&& l.back() == Seq::new((width * height) as nat, |i: int| fill)
                    &&& width > 0 && height > 0 && width * height <= usize::MAX
                },
                Err(e) => {
                    &&& e == AutomataError::InvalidDimensions
                    &&& (width == 0 || height == 0 || width * height > usize::MAX)
                },
            },
    {
        if width == 0 || height == 0 {
            return Err(AutomataError::InvalidDimensions);
        }
        let size = match width.checked_mul(height) {
            Some(s) => s,
            None => {
                return Err(AutomataError::InvalidDimensions);
            },
        };
        let current = filled_vec(size, fill);
        let scratch = filled_vec(size, fill);
        Ok(Lattice { width, height, current, scratch })
    }

    pub fn width(&self) -> (r: usize)
        ensures
            r == self.w(),
    {
        self.width
    }

    pub fn height(&self) -> (r: usize)
        ensures
            r == self.h(),
    {
        self.height
    }

    pub fn len(&self) -> (r: usize)
        requires
            self.wf(),
        ensures
            r == self.w() * self.h(),
    {
        self.current.len()
    }

    /// Row-major address of an in-bounds coordinate pair.
    pub fn index_of(&self, x: usize, y: usize) -> (r: usize)
        requires
            self.wf(),
            x < self.w(),
            y < self.h(),
        ensures
            r == self.spec_index_of(x as int, y as int),
            r < self.w() * self.h(),
    {
        proof {
            lemma_index_in_range(self.w(), self.h(), x as int, y as int);
        }
        x + y * self.width
    }

    /// The address of the toroidal neighbour of `(x, y)` at offset
    /// `(dx, dy)`; wraps around on both axes and always lands in range.
    pub fn neighbor_index(&self, x: usize, y: usize, dx: isize, dy: isize) -> (r: usize)
        requires
            self.wf(),
            x < self.w(),
            y < self.h(),
            -1 <= dx <= 1,
            -1 <= dy <= 1,
        ensures
            r == self.spec_index_of(
                wrap_add(x as int, dx as int, self.w()),
                wrap_add(y as int, dy as int, self.h()),
            ),
            r < self.w() * self.h(),
    {
        let nx = wrap_coord(x, dx, self.width);
        let ny = wrap_coord(y, dy, self.height);
        self.index_of(nx, ny)
    }

    /// Bounds-checked read: `Some` exactly on in-range coordinates.
    pub fn get(&self, x: usize, y: usize) -> (r: Option<C>)
        requires
            self.wf(),
        ensures
            match r {
                Some(c) => x < self.w() && y < self.h() && c == self.cells()[
                    self.spec_index_of(x as int, y as int)
                ],
                None => x >= self.w() || y >= self.h(),
            },
    {
        if x < self.width && y < self.height {
            let i = self.index_of(x, y);
            Some(self.current[i])
        } else {
            None
        }
    }

    /// Bounds-checked write: returns whether the coordinate was in range and
    /// the cell was written.
    pub fn set(&mut self, x: usize, y: usize, v: C) -> (r: bool)
        requires
            old(self).wf(),
        ensures
            final(self).wf(),
            final(self).w() == old(self).w(),
            final(self).h() == old(self).h(),
            final(self).back() == old(self).back(),
            r == (x < old(self).w() && y < old(self).h()),
            r ==> final(self).cells() == old(self).cells().update(
                old(self).spec_index_of(x as int, y as int),
                v,
            ),
            !r ==> final(self).cells() == old(self).cells(),
    {
        if x < self.width && y < self.height {
            let i = self.index_of(x, y);
            self.current.set(i, v);
            true
        } else {
            false
        }
    }

    /// Unchecked read of the visible buffer at a flat address.
    pub fn at(&self, i: usize) -> (r: C)
        requires
            self.wf(),
            i < self.w() * self.h(),
        ensures
            r == self.cells()[i as int],
    {
        self.current[i]
    }

    /// Unchecked write of the visible buffer at a flat address.
    pub fn set_at(&mut self, i: usize, v: C)
        requires
            old(self).wf(),
            i < old(self).w() * old(self).h(),
        ensures
            final(self).wf(),
            final(self).w() == old(self).w(),
            final(self).h() == old(self).h(),
            final(self).back() == old(self).back(),
            final(self).cells() == old(self).cells().update(i as int, v),
    {
        self.current.set(i, v);
    }

    /// Write into the scratch buffer at a flat address.
    pub fn set_back(&mut self, i: usize, v: C)
        requires
            old(self).wf(),
            i < old(self).w() * old(self).h(),
        ensures
            final(self).wf(),
            final(self).w() == old(self).w(),
            final(self).h() == old(self).h(),
            final(self).cells() == old(self).cells(),
            final(self).back() == old(self).back().update(i as int, v),
    {
        self.scratch.set(i, v);
    }

    /// Exchanges the visible and scratch buffers in O(1), as a single swap of
    /// ownership rather than an element copy.
    pub fn swap_buffers(&mut self)
        requires
            old(self).wf(),
        ensures
            final(self).wf(),
            final(self).w() == old(self).w(),
            final(self).h() == old(self).h(),
            final(self).cells() == old(self).back(),
            final(self).back() == old(self).cells(),
    {
        core::mem::swap(&mut self.current, &mut self.scratch);
    }

    /// Overwrites every cell of the visible buffer with `v`.
    pub fn fill(&mut self, v: C)
        requires
            old(self).wf(),
        ensures
            final(self).wf(),
            final(self).w() == old(self).w(),
            final(self).h() == old(self).h(),
            final(self).back() == old(self).back(),
            final(self).cells() == Seq::new(old(self).cells().len(), |i: int| v),
    {
        let n = self.current.len();
        let mut i: usize = 0;
        while i < n
            invariant
                self.wf(),
                self.w() == old(self).w(),
                self.h() == old(self).h(),
                self.back() == old(self).back(),
                n == self.cells().len(),
                i <= n,
                forall|j: int| 0 <= j < i ==> self.cells()[j] == v,
            decreases n - i,
        {
            self.current.set(i, v);
            i = i + 1;
        }
        proof {
            assert(self.cells() =~= Seq::new(old(self).cells().len(), |i: int| v));
        }
    }
}

/// Writes `v` into every listed cell of the visible buffer, in order.  The
/// ghost sequence names the same addresses as mathematical integers, so
/// that callers can phrase their contracts over it.
pub fn set_cells<C: Copy>(
    lat: &mut Lattice<C>,
    idxs: &Vec<usize>,
    Ghost(spec_idxs): Ghost<Seq<int>>,
    v: C,
)
    requires
        old(lat).wf(),
        spec_idxs.len() == idxs@.len(),
        forall|j: int| 0 <= j < idxs@.len() ==> #[trigger] idxs@[j] as int == spec_idxs[j],
        forall|j: int| 0 <= j < idxs@.len() ==> #[trigger] idxs@[j] < old(lat).w() * old(lat).h(),
    ensures
        final(lat).wf(),
        final(lat).w() == old(lat).w(),
        final(lat).h() == old(lat).h(),
        final(lat).back() == old(lat).back(),
        final(lat).cells().len() == old(lat).cells().len(),
        forall|i: int|
            0 <= i < old(lat).cells().len() ==> final(lat).cells()[i] == (if spec_idxs.contains(i) {
                v
            } else {
                old(lat).cells()[i]
            }),
{
    let n = idxs.len();
    let mut t: usize = 0;
    while t < n
        invariant
            lat.wf(),
            lat.w() == old(lat).w(),
            lat.h() == old(lat).h(),
            lat.back() == old(lat).back(),
            lat.cells().len() == old(lat).cells().len(),
            n == idxs@.len(),
            t <= n,
            spec_idxs.len() == idxs@.len(),
            forall|j: int| 0 <= j < idxs@.len() ==> #[trigger] idxs@[j] as int == spec_idxs[j],
            forall|j: int| 0 <= j < idxs@.len() ==> #[trigger] idxs@[j] < lat.w() * lat.h(),
            forall|i: int|
                0 <= i < old(lat).cells().len() ==> lat.cells()[i] == (if exists|j: int|
                    0 <= j < t && spec_idxs[j] == i {
                    v
                } else {
                    old(lat).cells()[i]
                }),
        decreases n - t,
    {
        let id = idxs[t];
        lat.set_at(id, v);
        proof {
            assert forall|i: int| 0 <= i < old(lat).cells().len() implies lat.cells()[i] == (
            if exists|j: int| 0 <= j < t + 1 && spec_idxs[j] == i {
                v
            } else {
                old(lat).cells()[i]
            }) by {
                if i == id as int {
                    assert(spec_idxs[t as int] == i);
                } else {
                    if exists|j: int| 0 <= j < t + 1 && spec_idxs[j] == i {
                        let j = choose|j: int| 0 <= j < t + 1 && spec_idxs[j] == i;
                        assert(j != t as int);
                        assert(exists|j2: int| 0 <= j2 < t && spec_idxs[j2] == i);
                    }
                }
            }
        }
        t = t + 1;
    }
}

/// A vector of `n` copies of `fill`.
fn filled_vec<C: Copy>(n: usize, fill: C) -> (r: Vec<C>)
    ensures
        r@ == Seq::new(n as nat, |i: int| fill),
{
    let mut v: Vec<C> = Vec::new();
    let mut i: usize = 0;
    while i < n
        invariant
            i <= n,
            v@.len() == i,
            forall|j: int| 0 <= j < i ==> v@[j] == fill,
        decreases n - i,
    {
        v.push(fill);
        i = i + 1;
    }
    proof {
        assert(v@ =~= Seq::new(n as nat, |i: int| fill));
    }
    v
}

/// Toroidal wrap of one coordinate: `v + d` taken modulo `n`.
fn wrap_coord(v: usize, d: isize, n: usize) -> (r: usize)
    requires
        v < n,
        -1 <= d <= 1,
    ensures
        r == wrap_add(v as int, d as int, n as int),
        r < n,
{
    if d < 0 {
        if v == 0 {
            n - 1
        } else {
            v - 1
        }
    } else if d > 0 {
        if v == n - 1 {
            0
        } else {
            v + 1
        }
    } else {
        v
    }
}

/// A row-major address computed from in-range coordinates is itself in
/// range.
pub proof fn lemma_index_in_range(w: int, h: int, x: int, y: int)
    requires
        0 < w,
        0 < h,
        0 <= x < w,
        0 <= y < h,
    ensures
        0 <= x + y * w < w * h,
{
    assert(y * w <= (h - 1) * w) by (nonlinear_arith)
        requires
            0 <= y <= h - 1,
            0 < w,
    ;
    assert((h - 1) * w + w == h * w) by (nonlinear_arith);
    assert(h * w == w * h) by (nonlinear_arith);
    assert(0 <= y * w) by (nonlinear_arith)
        requires
            0 <= y,
            0 < w,
    ;
}

/// `(x, y) -> x + y * w` is a bijection from the coordinate rectangle onto
/// `[0, w * h)`: distinct coordinate pairs give distinct addresses ...
pub proof fn lemma_index_injective(w: int, h: int, x0: int, y0: int, x1: int, y1: int)
    requires
        0 < w,
        0 < h,
        0 <= x0 < w,
        0 <= y0 < h,
        0 <= x1 < w,
        0 <= y1 < h,
        x0 + y0 * w == x1 + y1 * w,
    ensures
        x0 == x1 && y0 == y1,
{
    assert(y0 == y1) by (nonlinear_arith)
        requires
            0 <= x0 < w,
            0 <= x1 < w,
            x0 + y0 * w == x1 + y1 * w,
    ;
}

/// Distinct coordinate pairs sit at distinct addresses.
pub proof fn lemma_index_distinct(w: int, h: int, x0: int, y0: int, x1: int, y1: int)
    requires
        0 < w,
        0 < h,
        0 <= x0 < w,
        0 <= y0 < h,
        0 <= x1 < w,
        0 <= y1 < h,
        x0 != x1 || y0 != y1,
    ensures
        x0 + y0 * w != x1 + y1 * w,
{
    if x0 + y0 * w == x1 + y1 * w {
        lemma_index_injective(w, h, x0, y0, x1, y1);
    }
}

/// ... and every address in `[0, w * h)` is hit by exactly one coordinate
/// pair, namely `(i % w, i / w)`.
pub proof fn lemma_index_surjective(w: int, h: int, i: int)
    requires
        0 < w,
        0 < h,
        0 <= i < w * h,
    ensures
        0 <= i % w < w,
        0 <= i / w < h,
        i == (i % w) + (i / w) * w,
{
    vstd::arithmetic::div_mod::lemma_fundamental_div_mod(i, w);
    assert(w * (i / w) == (i / w) * w) by (nonlinear_arith);
    assert(0 <= i % w < w) by (nonlinear_arith)
        requires
            0 < w,
            0 <= i,
    ;
    assert(0 <= i / w < h) by (nonlinear_arith)
        requires
            0 < w,
            0 < h,
            0 <= i < w * h,
            i == w * (i / w) + i % w,
            0 <= i % w < w,
    ;
}

/// The row-major address of `(x, y)` decomposes back into exactly `x` and
/// `y`.
pub proof fn lemma_index_decompose(w: int, x: int, y: int)
    requires
        0 < w,
        0 <= x < w,
        0 <= y,
    ensures
        (x + y * w) % w == x,
        (x + y * w) / w == y,
{
    vstd::arithmetic::div_mod::lemma_fundamental_div_mod_converse(x + y * w, w, y, x);
}

/// Toroidal closure: wrapping keeps every offset coordinate in range, so a
/// neighbour address under any offset in `{-1, 0, 1}` is a valid address.
pub proof fn lemma_neighbor_index_valid(w: int, h: int, x: int, y: int, dx: int, dy: int)
    requires
        0 < w,
        0 < h,
        0 <= x < w,
        0 <= y < h,
        -1 <= dx <= 1,
        -1 <= dy <= 1,
    ensures
        0 <= wrap_add(x, dx, w) < w,
        0 <= wrap_add(y, dy, h) < h,
        0 <= wrap_add(x, dx, w) + wrap_add(y, dy, h) * w < w * h,
{
    lemma_index_in_range(w, h, wrap_add(x, dx, w), wrap_add(y, dy, h));
}

} // verus!
