//! The grid store: a rectangle of interior cells surrounded by a border of
//! padding cells two cells thick, kept in one flat row-major arena.
//!
//! Padded coordinates run over the whole arena including the border; the
//! interior cell `(x, y)` sits at padded coordinates `(x + 2, y + 2)`.
//! The padding is refreshed before every step, by toroidal wraparound or
//! by halo data received from neighboring tiles, so the same neighbor
//! lookup works identically at the seam and in the middle of the grid.

use vstd::prelude::*;

use crate::GridError;
use crate::neighborhood::NeumannNeighbors;
use crate::sim::Sim;
use crate::step::active;
use crate::step::const_padded;
use crate::step::diff_slot;
use crate::step::diffs_flat;
use crate::step::egressed_slot;
use crate::step::exchange_flows;
use crate::step::gather_at;
use crate::step::ingressed_slot;
use crate::step::lemma_cell_decompose;
use crate::step::lemma_gather_exchanged;
use crate::step::lemma_neighbor_indices;
use crate::step::lemma_slot_compose;
use crate::step::nbrs_at;
use crate::step::outflows_flat;
use crate::step::step_cell;
use crate::step::wrap_padded;

verus! {

/// A row-major index stays inside a `pw` by `ph` rectangle.
pub proof fn lemma_row_major_bounds(pw: int, ph: int, x: int, y: int)
    requires
        0 < pw,
        0 < ph,
        0 <= x < pw,
        0 <= y < ph,
    ensures
        0 <= y * pw + x < pw * ph,
        y * pw <= y * pw + x,
{
    assert(0 <= y * pw + x < pw * ph) by (nonlinear_arith)
        requires
            0 < pw,
            0 < ph,
            0 <= x < pw,
            0 <= y < ph,
    ;
}

/// A row-major index decomposes back into its coordinates.
pub proof fn lemma_row_major_decompose(pw: int, x: int, y: int)
    requires
        0 < pw,
        0 <= x < pw,
        0 <= y,
    ensures
        (y * pw + x) % pw == x,
        (y * pw + x) / pw == y,
{
    vstd::arithmetic::div_mod::lemma_fundamental_div_mod_converse(y * pw + x, pw, y, x);
}

/// Multiplication keeps order on non-negative values.
pub proof fn lemma_mul_le(a: int, b: int, c: int, d: int)
    requires
        0 <= a <= c,
        0 <= b <= d,
    ensures
        a * b <= c * d,
{
    assert(a * b <= c * d) by (nonlinear_arith)
        requires
            0 <= a <= c,
            0 <= b <= d,
    ;
}


/// A well-formed grid's padded dimensions are small enough for all the
/// index arithmetic the step performs.
pub proof fn lemma_wf_arith<S: Sim>(g: SquareGrid<S>)
    requires
        g.wf(),
    ensures
        8 * (g.pw() + g.ph()) <= usize::MAX,
        g.pw() * g.ph() <= usize::MAX,
{
    assert(8 * (g.pw() + g.ph()) <= g.pw() * g.ph() * 8 && g.pw() * g.ph() <= g.pw() * g.ph() * 8)
        by (nonlinear_arith)
        requires
            g.pw() >= 5 && g.ph() >= 5,
    ;
}

/// The state of one simulation grid: the rule, the padded cell arena, and
/// the interior dimensions.
pub struct SquareGrid<S: Sim> {
    sim: S,
    cells: Vec<S::Cell>,
    width: usize,
    height: usize,
}

impl<S: Sim> SquareGrid<S> {
    /// The simulation rule.
    pub closed spec fn s(self) -> S {
        self.sim
    }

    /// The interior width.
    pub closed spec fn w(self) -> int {
        self.width as int
    }

    /// The interior height.
    pub closed spec fn h(self) -> int {
        self.height as int
    }

    /// The padded cell arena, row-major.
    pub closed spec fn grid(self) -> Seq<S::Cell> {
        self.cells@
    }

    /// The padded width.
    pub open spec fn pw(self) -> int {
        self.w() + 4
    }

    /// The padded height.
    pub open spec fn ph(self) -> int {
        self.h() + 4
    }

    /// A well-formed grid: positive interior dimensions, an arena of
    /// exactly the padded size, and room to index every flow slot.
    pub open spec fn wf(self) -> bool {
        &&& 1 <= self.w()
        &&& 1 <= self.h()
        &&& self.grid().len() == self.pw() * self.ph()
        &&& self.pw() * self.ph() * 8 <= usize::MAX
    }

    /// The cell at padded coordinates.
    pub open spec fn at(self, x: int, y: int) -> S::Cell {
        self.grid()[y * self.pw() + x]
    }

    /// Whether padded coordinates point at an interior cell.
    pub open spec fn is_interior(self, x: int, y: int) -> bool {
        &&& 2 <= x < self.pw() - 2
        &&& 2 <= y < self.ph() - 2
    }

    /// The interior cell at interior coordinates.
    pub open spec fn interior_at(self, x: int, y: int) -> S::Cell {
        self.at(x + 2, y + 2)
    }

    /// The interior cells as one row-major sequence.
    pub open spec fn interior(self) -> Seq<S::Cell> {
        Seq::new(
            (self.w() * self.h()) as nat,
            |k: int| self.interior_at(k % self.w(), k / self.w()),
        )
    }

    /// The interior width.
    pub fn width(&self) -> (r: usize)
        ensures
            r == self.w(),
    {
        self.width
    }

    /// The interior height.
    pub fn height(&self) -> (r: usize)
        ensures
            r == self.h(),
    {
        self.height
    }

    /// The simulation rule.
    pub fn sim(&self) -> (r: &S)
        ensures
            *r == self.s(),
    {
        &self.sim
    }

    /// The arena index of padded coordinates.
    fn idx(&self, x: usize, y: usize) -> (k: usize)
        requires
            self.wf(),
            x < self.pw(),
            y < self.ph(),
        ensures
            k == y * self.pw() + x,
            k < self.grid().len(),
    {
        proof {
            assert(self.pw() + self.ph() <= self.pw() * self.ph()) by (nonlinear_arith)
                requires
                    self.pw() >= 5 && self.ph() >= 5,
            ;
            lemma_row_major_bounds(self.pw(), self.ph(), x as int, y as int);
        }
        y * (self.width + 4) + x
    }

    /// Make a new grid from `width * height` interior cells in row-major
    /// order, with the rule's padding cell filling the border.
    ///
    /// Refused when a dimension is zero or the cell count does not match.
    pub fn new(sim: S, width: usize, height: usize, cells: Vec<S::Cell>) -> (r: Result<
        SquareGrid<S>,
        GridError,
    >)
        requires
            (width + 4) * (height + 4) * 8 <= usize::MAX,
        ensures
            r is Ok <==> (width >= 1 && height >= 1 && cells@.len() == width * height),
            width == 0 || height == 0 ==> r == Err::<SquareGrid<S>, GridError>(
                GridError::InvalidDimensions,
            ),
            width >= 1 && height >= 1 && cells@.len() != width * height ==> r == Err::<
                SquareGrid<S>,
                GridError,
            >(GridError::CellCountMismatch),
            r matches Ok(g) ==> {
                &&& g.wf()
                &&& g.s() == sim
                &&& g.w() == width
                &&& g.h() == height
                &&& forall|x: int, y: int|
                    0 <= x < width && 0 <= y < height ==> g.interior_at(x, y) == cells@[y * width
                        + x]
                &&& forall|x: int, y: int|
                    0 <= x < g.pw() && 0 <= y < g.ph() && !g.is_interior(x, y) ==> g.at(x, y)
                        == sim.s_cell_padding()
            },
    {
        if width == 0 || height == 0 {
            return Err(GridError::InvalidDimensions);
        }
        proof {
            assert((width + 4) + (height + 4) <= (width + 4) * (height + 4)) by (nonlinear_arith)
                requires
                    width >= 1 && height >= 1,
            ;
            lemma_mul_le(width as int, height as int, (width + 4) as int, (height + 4) as int);
        }
        if cells.len() != width * height {
            return Err(GridError::CellCountMismatch);
        }
        let mut input = cells;
        let pw = width + 4;
        let ph = height + 4;
        let ghost input0 = input@;
        let mut arena: Vec<S::Cell> = Vec::new();
        let mut y: usize = 0;
        while y < ph
            invariant
                width >= 1,
                height >= 1,
                pw == width + 4,
                ph == height + 4,
                pw * ph * 8 <= usize::MAX,
                y <= ph,
                input0.len() == width * height,
                arena@.len() == y * pw,
                input@ =~= input0.skip(interior_count(width as int, height as int, y as int)),
                forall|j: int|
                    0 <= j < arena@.len() ==> arena@[j] == init_cell_at(
                        sim,
                        input0,
                        width as int,
                        height as int,
                        j,
                    ),
            decreases ph - y,
        {
            proof {
                lemma_row_major_bounds(pw as int, ph as int, 0, y as int);
                lemma_mul_le((y + 1) as int, pw as int, ph as int, pw as int);
            }
            let interior_row = y >= 2 && y < height + 2;
            let mut x: usize = 0;
            while x < pw
                invariant
                    width >= 1,
                    height >= 1,
                    pw == width + 4,
                    ph == height + 4,
                    pw * ph * 8 <= usize::MAX,
                    y < ph,
                    x <= pw,
                    interior_row == (2 <= y < height + 2),
                    input0.len() == width * height,
                    arena@.len() == y * pw + x,
                    input@ =~= input0.skip(
                        interior_count(width as int, height as int, y as int) + (
                        if interior_row {
                            row_progress(width as int, x as int)
                        } else {
                            0
                        }),
                    ),
                    forall|j: int|
                        0 <= j < arena@.len() ==> arena@[j] == init_cell_at(
                            sim,
                            input0,
                            width as int,
                            height as int,
                            j,
                        ),
                decreases pw - x,
            {
                let ghost j = arena@.len() as int;
                proof {
                    lemma_row_major_decompose(pw as int, x as int, y as int);
                    lemma_row_major_bounds(pw as int, ph as int, x as int, y as int);
                    if interior_row && 2 <= x < width + 2 {
                        lemma_row_major_bounds(
                            width as int,
                            height as int,
                            x as int - 2,
                            y as int - 2,
                        );
                        lemma_mul_le(
                            (y - 2) as int,
                            width as int,
                            (height - 1) as int,
                            width as int,
                        );
                    }
                }
                let ghost consumed = interior_count(width as int, height as int, y as int) + (
                if interior_row {
                    row_progress(width as int, x as int)
                } else {
                    0
                });
                if interior_row && x >= 2 && x < width + 2 {
                    proof {
                        lemma_interior_count_val(width as int, height as int, y as int);
                        assert(consumed == (y - 2) * width + (x - 2));
                        assert((height - 1) * width + width == width * height) by (nonlinear_arith);
                        assert(consumed < width * height);
                        assert(input@.len() > 0);
                        assert(input@[0] == input0[consumed]);
                    }
                    let c = input.remove(0);
                    arena.push(c);
                    proof {
                        assert(init_cell_at(sim, input0, width as int, height as int, j)
                            == input0[consumed]);
                        assert(input@ =~= input0.skip(consumed + 1));
                    }
                } else {
                    arena.push(sim.cell_padding());
                    proof {
                        assert(init_cell_at(sim, input0, width as int, height as int, j)
                            == sim.s_cell_padding());
                    }
                }
                proof {
                    assert(arena@[j] == init_cell_at(sim, input0, width as int, height as int, j));
                    assert forall|jj: int| 0 <= jj < arena@.len() implies arena@[jj]
                        == init_cell_at(sim, input0, width as int, height as int, jj) by {
                    }
                }
                x = x + 1;
            }
            proof {
                assert((y + 1) * (pw as int) == y * (pw as int) + pw) by (nonlinear_arith);
                lemma_interior_count_step(width as int, height as int, y as int);
            }
            y = y + 1;
        }
        let g = SquareGrid { sim, cells: arena, width, height };
        proof {
            assert(ph * pw == pw * ph) by (nonlinear_arith);
            assert forall|x: int, y: int| 0 <= x < width && 0 <= y < height implies g.interior_at(
                x,
                y,
            ) == input0[y * width + x] by {
                lemma_row_major_decompose(g.pw(), x + 2, y + 2);
                lemma_row_major_bounds(g.pw(), g.ph(), x + 2, y + 2);
                lemma_row_major_bounds(width as int, height as int, x, y);
            }
            assert forall|x: int, y: int|
                0 <= x < g.pw() && 0 <= y < g.ph() && !g.is_interior(x, y) implies g.at(x, y)
                == sim.s_cell_padding() by {
                lemma_row_major_decompose(g.pw(), x, y);
                lemma_row_major_bounds(g.pw(), g.ph(), x, y);
            }
        }
        Ok(g)
    }

    /// Make a new grid from a full padded arena: `(width + 4) * (height + 4)`
    /// cells in row-major order, border included.
    ///
    /// Refused when a dimension is zero or the cell count does not match.
    pub fn new_including_padding(sim: S, width: usize, height: usize, cells: Vec<S::Cell>) -> (r:
        Result<SquareGrid<S>, GridError>)
        requires
            (width + 4) * (height + 4) * 8 <= usize::MAX,
        ensures
            r is Ok <==> (width >= 1 && height >= 1 && cells@.len() == (width + 4) * (height + 4)),
            width == 0 || height == 0 ==> r == Err::<SquareGrid<S>, GridError>(
                GridError::InvalidDimensions,
            ),
            width >= 1 && height >= 1 && cells@.len() != (width + 4) * (height + 4) ==> r == Err::<
                SquareGrid<S>,
                GridError,
            >(GridError::CellCountMismatch),
            r matches Ok(g) ==> {
                &&& g.wf()
                &&& g.s() == sim
                &&& g.w() == width
                &&& g.h() == height
                &&& g.grid() == cells@
            },
    {
        if width == 0 || height == 0 {
            return Err(GridError::InvalidDimensions);
        }
        proof {
            assert((width + 4) + (height + 4) <= (width + 4) * (height + 4)) by (nonlinear_arith)
                requires
                    width >= 1 && height >= 1,
            ;
        }
        if cells.len() != (width + 4) * (height + 4) {
            return Err(GridError::CellCountMismatch);
        }
        Ok(SquareGrid { sim, cells, width, height })
    }

    /// The cell the toroidal wrap places at padded coordinates: the
    /// interior cell at the coordinates reduced modulo the interior size.
    pub open spec fn wrapped_at(self, x: int, y: int) -> S::Cell {
        self.interior_at((x - 2) % self.w(), (y - 2) % self.h())
    }

    /// Inside the interior, the toroidal wrap is the identity.
    pub proof fn lemma_wrapped_at_interior(self, x: int, y: int)
        requires
            self.wf(),
            self.is_interior(x, y),
        ensures
            self.wrapped_at(x, y) == self.at(x, y),
    {
        vstd::arithmetic::div_mod::lemma_small_mod((x - 2) as nat, self.w() as nat);
        vstd::arithmetic::div_mod::lemma_small_mod((y - 2) as nat, self.h() as nat);
    }

    /// A reference to the interior cell at interior coordinates.
    pub fn get_cell(&self, x: usize, y: usize) -> (r: &S::Cell)
        requires
            self.wf(),
            x < self.w(),
            y < self.h(),
        ensures
            *r == self.interior_at(x as int, y as int),
    {
        proof {
            lemma_wf_arith(*self);
        }
        let k = self.idx(x + 2, y + 2);
        &self.cells[k]
    }

    /// Replace the cell at padded coordinates, border cells included.
    pub(crate) fn set_padded(&mut self, x: usize, y: usize, c: S::Cell)
        requires
            old(self).wf(),
            x < old(self).pw(),
            y < old(self).ph(),
        ensures
            final(self).wf(),
            final(self).s() == old(self).s(),
            final(self).w() == old(self).w(),
            final(self).h() == old(self).h(),
            final(self).at(x as int, y as int) == c,
            forall|px: int, py: int|
                0 <= px < final(self).pw() && 0 <= py < final(self).ph() && !(px == x && py == y)
                    ==> final(self).at(px, py) == old(self).at(px, py),
    {
        proof {
            lemma_wf_arith(*old(self));
        }
        let k = self.idx(x, y);
        let slot = &mut self.cells[k];
        *slot = c;
        proof {
            let g0 = *old(self);
            assert forall|px: int, py: int|
                0 <= px < self.pw() && 0 <= py < self.ph() && !(px == x && py == y) implies self.at(
                px,
                py,
            ) == g0.at(px, py) by {
                lemma_row_major_bounds(g0.pw(), g0.ph(), px, py);
                if py * g0.pw() + px == k as int {
                    lemma_row_major_decompose(g0.pw(), px, py);
                    lemma_row_major_decompose(g0.pw(), x as int, y as int);
                }
            }
        }
    }

    /// Replace the interior cell at interior coordinates.
    pub fn set_cell(&mut self, x: usize, y: usize, c: S::Cell)
        requires
            old(self).wf(),
            x < old(self).w(),
            y < old(self).h(),
        ensures
            final(self).wf(),
            final(self).s() == old(self).s(),
            final(self).w() == old(self).w(),
            final(self).h() == old(self).h(),
            final(self).interior_at(x as int, y as int) == c,
            forall|px: int, py: int|
                0 <= px < final(self).pw() && 0 <= py < final(self).ph() && !(px == x + 2 && py == y
                    + 2) ==> final(self).at(px, py) == old(self).at(px, py),
    {
        proof {
            lemma_wf_arith(*old(self));
        }
        let k = self.idx(x + 2, y + 2);
        let slot = &mut self.cells[k];
        *slot = c;
        proof {
            let g0 = *old(self);
            assert forall|px: int, py: int|
                0 <= px < self.pw() && 0 <= py < self.ph() && !(px == x + 2 && py == y
                    + 2) implies self.at(px, py) == g0.at(px, py) by {
                lemma_row_major_bounds(g0.pw(), g0.ph(), px, py);
                if py * g0.pw() + px == k as int {
                    lemma_row_major_decompose(g0.pw(), px, py);
                    lemma_row_major_decompose(g0.pw(), x as int + 2, y as int + 2);
                }
            }
        }
    }

    /// The interior cells, row-major, as owned copies.
    pub fn cells(&self) -> (r: Vec<S::Cell>)
        requires
            self.wf(),
        ensures
            r@ == self.interior(),
    {
        let w = self.width;
        let h = self.height;
        let mut out: Vec<S::Cell> = Vec::new();
        let mut y: usize = 0;
        while y < h
            invariant
                self.wf(),
                w == self.w(),
                h == self.h(),
                y <= h,
                out@.len() == y * w,
                forall|j: int| 0 <= j < out@.len() ==> out@[j] == self.interior()[j],
            decreases h - y,
        {
            let mut x: usize = 0;
            while x < w
                invariant
                    self.wf(),
                    w == self.w(),
                    h == self.h(),
                    y < h,
                    x <= w,
                    out@.len() == y * w + x,
                    forall|j: int| 0 <= j < out@.len() ==> out@[j] == self.interior()[j],
                decreases w - x,
            {
                proof {
                    lemma_row_major_bounds(w as int, h as int, x as int, y as int);
                    lemma_row_major_decompose(w as int, x as int, y as int);
                }
                let c = self.sim.clone_cell(self.get_cell(x, y));
                out.push(c);
                x = x + 1;
            }
            proof {
                assert((y + 1) * (w as int) == y * (w as int) + w) by (nonlinear_arith);
            }
            y = y + 1;
        }
        proof {
            assert((h as int) * w == (w as int) * h) by (nonlinear_arith);
            assert(out@ =~= self.interior());
        }
        out
    }

    /// Fill the whole padding border with the rule's padding cell, leaving
    /// the interior untouched.
    pub fn fill_padding(&mut self)
        requires
            old(self).wf(),
        ensures
            final(self).wf(),
            final(self).s() == old(self).s(),
            final(self).w() == old(self).w(),
            final(self).h() == old(self).h(),
            forall|x: int, y: int|
                0 <= x < final(self).pw() && 0 <= y < final(self).ph() ==> final(self).at(x, y)
                    == (if final(self).is_interior(x, y) {
                    old(self).at(x, y)
                } else {
                    old(self).s().s_cell_padding()
                }),
    {
        let ghost g0 = *old(self);
        proof {
            lemma_wf_arith(g0);
        }
        let w = self.width;
        let h = self.height;
        let pw = w + 4;
        let ph = h + 4;
        let mut y: usize = 0;
        while y < ph
            invariant
                self.wf(),
                g0.wf(),
                self.s() == g0.s(),
                w == self.w() && h == self.h(),
                w == g0.w() && h == g0.h(),
                pw == w + 4 && ph == h + 4,
                y <= ph,
                self.grid().len() == g0.grid().len(),
                forall|j: int|
                    0 <= j < y * pw ==> self.grid()[j] == pad_fill_at(g0, j),
                forall|j: int|
                    y * pw <= j < self.grid().len() ==> self.grid()[j] == g0.grid()[j],
            decreases ph - y,
        {
            let mut x: usize = 0;
            while x < pw
                invariant
                    self.wf(),
                    g0.wf(),
                    self.s() == g0.s(),
                    w == self.w() && h == self.h(),
                    w == g0.w() && h == g0.h(),
                    pw == w + 4 && ph == h + 4,
                    y < ph,
                    x <= pw,
                    self.grid().len() == g0.grid().len(),
                    forall|j: int|
                        0 <= j < y * pw + x ==> self.grid()[j] == pad_fill_at(g0, j),
                    forall|j: int|
                        y * pw + x <= j < self.grid().len() ==> self.grid()[j] == g0.grid()[j],
                decreases pw - x,
            {
                proof {
                    lemma_row_major_bounds(pw as int, ph as int, x as int, y as int);
                    lemma_row_major_decompose(pw as int, x as int, y as int);
                }
                let interior = x >= 2 && x < w + 2 && y >= 2 && y < h + 2;
                if !interior {
                    let dst = self.idx(x, y);
                    let v = self.sim.cell_padding();
                    let slot = &mut self.cells[dst];
                    *slot = v;
                }
                x = x + 1;
            }
            proof {
                assert((y + 1) * (pw as int) == y * (pw as int) + pw) by (nonlinear_arith);
            }
            y = y + 1;
        }
        proof {
            assert((ph as int) * pw == (pw as int) * ph) by (nonlinear_arith);
            assert forall|x: int, y: int|
                0 <= x < self.pw() && 0 <= y < self.ph() implies self.at(x, y) == (
            if self.is_interior(x, y) {
                g0.at(x, y)
            } else {
                g0.s().s_cell_padding()
            }) by {
                lemma_row_major_bounds(g0.pw(), g0.ph(), x, y);
                lemma_row_major_decompose(g0.pw(), x, y);
                assert(self.grid()[y * g0.pw() + x] == pad_fill_at(g0, y * g0.pw() + x));
            }
        }
    }

    /// Refresh the whole padding border by toroidal wraparound: every
    /// padding cell becomes a copy of the interior cell at the same
    /// coordinates reduced modulo the interior size.  The interior is left
    /// untouched.
    pub fn refresh_padding(&mut self)
        requires
            old(self).wf(),
        ensures
            final(self).wf(),
            final(self).s() == old(self).s(),
            final(self).w() == old(self).w(),
            final(self).h() == old(self).h(),
            forall|x: int, y: int|
                0 <= x < final(self).pw() && 0 <= y < final(self).ph() ==> final(self).at(x, y)
                    == old(self).wrapped_at(x, y),
            forall|x: int, y: int|
                final(self).is_interior(x, y) ==> final(self).at(x, y) == old(self).at(x, y),
    {
        let ghost g0 = *old(self);
        proof {
            lemma_wf_arith(g0);
        }
        let w = self.width;
        let h = self.height;
        let pw = w + 4;
        let ph = h + 4;
        let mut y: usize = 0;
        while y < ph
            invariant
                self.wf(),
                g0.wf(),
                self.s() == g0.s(),
                w == self.w() && h == self.h(),
                w == g0.w() && h == g0.h(),
                pw == w + 4 && ph == h + 4,
                8 * (pw + ph) <= usize::MAX,
                y <= ph,
                self.grid().len() == g0.grid().len(),
                forall|j: int|
                    0 <= j < y * pw ==> self.grid()[j] == wrap_fill_at(g0, j),
                forall|j: int|
                    y * pw <= j < self.grid().len() ==> self.grid()[j] == g0.grid()[j],
            decreases ph - y,
        {
            let mut x: usize = 0;
            while x < pw
                invariant
                    self.wf(),
                    g0.wf(),
                    self.s() == g0.s(),
                    w == self.w() && h == self.h(),
                    w == g0.w() && h == g0.h(),
                    pw == w + 4 && ph == h + 4,
                    8 * (pw + ph) <= usize::MAX,
                    y < ph,
                    x <= pw,
                    self.grid().len() == g0.grid().len(),
                    forall|j: int|
                        0 <= j < y * pw + x ==> self.grid()[j] == wrap_fill_at(g0, j),
                    forall|j: int|
                        y * pw + x <= j < self.grid().len() ==> self.grid()[j] == g0.grid()[j],
                decreases pw - x,
            {
                proof {
                    lemma_row_major_bounds(pw as int, ph as int, x as int, y as int);
                    lemma_row_major_decompose(pw as int, x as int, y as int);
                }
                let interior = x >= 2 && x < w + 2 && y >= 2 && y < h + 2;
                if !interior {
                    let sx = (x + 2 * w - 2) % w;
                    let sy = (y + 2 * h - 2) % h;
                    proof {
                        vstd::arithmetic::div_mod::lemma_mod_multiples_vanish(
                            2,
                            x as int - 2,
                            w as int,
                        );
                        vstd::arithmetic::div_mod::lemma_mod_multiples_vanish(
                            2,
                            y as int - 2,
                            h as int,
                        );
                        vstd::arithmetic::div_mod::lemma_mod_bound(x as int - 2, w as int);
                        vstd::arithmetic::div_mod::lemma_mod_bound(y as int - 2, h as int);
                    }
                    let src = self.idx(sx + 2, sy + 2);
                    let dst = self.idx(x, y);
                    proof {
                        lemma_row_major_decompose(pw as int, sx as int + 2, sy as int + 2);
                        if (src as int) < y * pw + x {
                            assert(self.grid()[src as int] == wrap_fill_at(g0, src as int));
                        }
                        assert(self.grid()[src as int] == g0.grid()[src as int]);
                    }
                    let v = self.sim.clone_cell(&self.cells[src]);
                    let slot = &mut self.cells[dst];
                    *slot = v;
                }
                x = x + 1;
            }
            proof {
                assert((y + 1) * (pw as int) == y * (pw as int) + pw) by (nonlinear_arith);
            }
            y = y + 1;
        }
        proof {
            assert((ph as int) * pw == (pw as int) * ph) by (nonlinear_arith);
            assert forall|x: int, y: int|
                0 <= x < self.pw() && 0 <= y < self.ph() implies self.at(x, y) == g0.wrapped_at(
                x,
                y,
            ) by {
                lemma_row_major_bounds(g0.pw(), g0.ph(), x, y);
                lemma_row_major_decompose(g0.pw(), x, y);
                assert(self.grid()[y * g0.pw() + x] == wrap_fill_at(g0, y * g0.pw() + x));
                if g0.is_interior(x, y) {
                    g0.lemma_wrapped_at_interior(x, y);
                }
            }
            assert forall|x: int, y: int| self.is_interior(x, y) implies self.at(x, y) == g0.at(
                x,
                y,
            ) by {
                g0.lemma_wrapped_at_interior(x, y);
            }
        }
    }

    /// Run the diff pass: compute one diff per active cell from the old
    /// arena alone, with the padding diff in every other slot.
    fn compute_diffs(&self, pad: usize) -> (diffs: Vec<S::Diff>)
        requires
            self.wf(),
            1 <= pad <= 2,
        ensures
            diffs@ == diffs_flat(self.s(), self.grid(), self.pw(), self.ph(), pad as int),
    {
        proof {
            lemma_wf_arith(*self);
        }
        let pw = self.width + 4;
        let ph = self.height + 4;
        let n = pw * ph;
        let mut diffs: Vec<S::Diff> = Vec::new();
        let mut k: usize = 0;
        while k < n
            invariant
                self.wf(),
                1 <= pad <= 2,
                pw == self.pw(),
                ph == self.ph(),
                n == pw * ph,
                n * 8 <= usize::MAX,
                k <= n,
                diffs@.len() == k,
                forall|j: int|
                    0 <= j < k ==> diffs@[j] == diff_slot(
                        self.s(),
                        self.grid(),
                        pw as int,
                        ph as int,
                        pad as int,
                        j,
                    ),
            decreases n - k,
        {
            let x = k % pw;
            let y = k / pw;
            proof {
                lemma_cell_decompose(pw as int, k as int);
            }
            let d: S::Diff;
            if x >= pad && x < pw - pad && y >= pad && y < ph - pad {
                proof {
                    lemma_neighbor_indices(pw as int, ph as int, x as int, y as int);
                }
                let nb = NeumannNeighbors {
                    right: &self.cells[k + 1],
                    up_right: &self.cells[k + 1 - pw],
                    up: &self.cells[k - pw],
                    up_left: &self.cells[k - pw - 1],
                    left: &self.cells[k - 1],
                    down_left: &self.cells[k + pw - 1],
                    down: &self.cells[k + pw],
                    down_right: &self.cells[k + pw + 1],
                };
                d = self.sim.compute(&self.cells[k], nb);
                proof {
                    assert(crate::neighborhood::deref_neighbors(nb) == nbrs_at(
                        self.grid(),
                        pw as int,
                        x as int,
                        y as int,
                    ));
                }
            } else {
                d = self.sim.diff_padding();
            }
            diffs.push(d);
            k = k + 1;
        }
        proof {
            assert(diffs@ =~= diffs_flat(self.s(), self.grid(), self.pw(), self.ph(), pad as int));
        }
        diffs
    }

    /// Run the egress pass: each active cell consumes its diff, takes its
    /// new state and emits one flow per direction; every diff slot is
    /// consumed exactly once.
    fn perform_egress(&mut self, diffs: Vec<S::Diff>, pad: usize) -> (flows: Vec<S::Flow>)
        requires
            old(self).wf(),
            1 <= pad <= 2,
            diffs@ == diffs_flat(
                old(self).s(),
                old(self).grid(),
                old(self).pw(),
                old(self).ph(),
                pad as int,
            ),
        ensures
            final(self).wf(),
            final(self).s() == old(self).s(),
            final(self).w() == old(self).w(),
            final(self).h() == old(self).h(),
            forall|j: int|
                0 <= j < final(self).grid().len() ==> final(self).grid()[j] == egressed_slot(
                    old(self).s(),
                    old(self).grid(),
                    old(self).pw(),
                    old(self).ph(),
                    pad as int,
                    j,
                ),
            flows@ == outflows_flat(
                old(self).s(),
                old(self).grid(),
                old(self).pw(),
                old(self).ph(),
                pad as int,
            ),
    {
        let ghost g0 = *old(self);
        proof {
            lemma_wf_arith(g0);
        }
        let mut diffs = diffs;
        let pw = self.width + 4;
        let ph = self.height + 4;
        let n = pw * ph;
        let mut flows: Vec<S::Flow> = Vec::new();
        let mut k: usize = 0;
        while k < n
            invariant
                self.wf(),
                g0.wf(),
                1 <= pad <= 2,
                self.s() == g0.s(),
                self.w() == g0.w() && self.h() == g0.h(),
                pw == g0.pw(),
                ph == g0.ph(),
                n == pw * ph,
                n * 8 <= usize::MAX,
                k <= n,
                self.grid().len() == g0.grid().len(),
                diffs@ == diffs_flat(g0.s(), g0.grid(), pw as int, ph as int, pad as int).skip(
                    k as int,
                ),
                forall|j: int|
                    0 <= j < k ==> self.grid()[j] == egressed_slot(
                        g0.s(),
                        g0.grid(),
                        pw as int,
                        ph as int,
                        pad as int,
                        j,
                    ),
                forall|j: int| k <= j < self.grid().len() ==> self.grid()[j] == g0.grid()[j],
                flows@.len() == k * 8,
                forall|j: int|
                    0 <= j < flows@.len() ==> flows@[j] == outflows_flat(
                        g0.s(),
                        g0.grid(),
                        pw as int,
                        ph as int,
                        pad as int,
                    )[j],
            decreases n - k,
        {
            let x = k % pw;
            let y = k / pw;
            proof {
                lemma_cell_decompose(pw as int, k as int);
                assert(diffs@.len() > 0);
                lemma_slot_compose(pw as int, x as int, y as int, 0);
                lemma_slot_compose(pw as int, x as int, y as int, 1);
                lemma_slot_compose(pw as int, x as int, y as int, 2);
                lemma_slot_compose(pw as int, x as int, y as int, 3);
                lemma_slot_compose(pw as int, x as int, y as int, 4);
                lemma_slot_compose(pw as int, x as int, y as int, 5);
                lemma_slot_compose(pw as int, x as int, y as int, 6);
                lemma_slot_compose(pw as int, x as int, y as int, 7);
            }
            let d = diffs.remove(0);
            let fl: NeumannNeighbors<S::Flow>;
            if x >= pad && x < pw - pad && y >= pad && y < ph - pad {
                proof {
                    lemma_neighbor_indices(pw as int, ph as int, x as int, y as int);
                }
                let c = &mut self.cells[k];
                fl = self.sim.egress(c, d);
            } else {
                fl = NeumannNeighbors {
                    right: self.sim.flow_padding(),
                    up_right: self.sim.flow_padding(),
                    up: self.sim.flow_padding(),
                    up_left: self.sim.flow_padding(),
                    left: self.sim.flow_padding(),
                    down_left: self.sim.flow_padding(),
                    down: self.sim.flow_padding(),
                    down_right: self.sim.flow_padding(),
                };
            }
            let mut fv = fl.into_vec();
            flows.append(&mut fv);
            k = k + 1;
        }
        proof {
            assert(flows@ =~= outflows_flat(g0.s(), g0.grid(), pw as int, ph as int, pad as int));
        }
        flows
    }

    /// Run the ingress pass: each interior cell consumes its eight inbound
    /// flow slots and merges them; the flows addressed to padding cells
    /// are consumed and discarded.
    fn perform_ingress(&mut self, flows: Vec<S::Flow>)
        requires
            old(self).wf(),
            flows@.len() == old(self).pw() * old(self).ph() * 8,
        ensures
            final(self).wf(),
            final(self).s() == old(self).s(),
            final(self).w() == old(self).w(),
            final(self).h() == old(self).h(),
            forall|j: int|
                0 <= j < final(self).grid().len() ==> final(self).grid()[j] == ingressed_slot(
                    old(self).s(),
                    old(self).grid(),
                    flows@,
                    old(self).pw(),
                    old(self).ph(),
                    j,
                ),
    {
        let ghost g0 = *old(self);
        let ghost f0 = flows@;
        proof {
            lemma_wf_arith(g0);
            assert(f0.subrange(0, f0.len() as int) =~= f0);
        }
        let mut flows = flows;
        let pw = self.width + 4;
        let ph = self.height + 4;
        let n = pw * ph;
        let mut k: usize = n;
        while k > 0
            invariant
                self.wf(),
                g0.wf(),
                self.s() == g0.s(),
                self.w() == g0.w() && self.h() == g0.h(),
                pw == g0.pw(),
                ph == g0.ph(),
                n == pw * ph,
                n * 8 <= usize::MAX,
                k <= n,
                f0.len() == n * 8,
                self.grid().len() == g0.grid().len(),
                flows@ == f0.subrange(0, k as int * 8),
                forall|j: int| 0 <= j < k ==> self.grid()[j] == g0.grid()[j],
                forall|j: int|
                    k <= j < self.grid().len() ==> self.grid()[j] == ingressed_slot(
                        g0.s(),
                        g0.grid(),
                        f0,
                        pw as int,
                        ph as int,
                        j,
                    ),
            decreases k,
        {
            k = k - 1;
            let x = k % pw;
            let y = k / pw;
            proof {
                lemma_cell_decompose(pw as int, k as int);
                lemma_slot_compose(pw as int, x as int, y as int, 0);
                lemma_slot_compose(pw as int, x as int, y as int, 1);
                lemma_slot_compose(pw as int, x as int, y as int, 2);
                lemma_slot_compose(pw as int, x as int, y as int, 3);
                lemma_slot_compose(pw as int, x as int, y as int, 4);
                lemma_slot_compose(pw as int, x as int, y as int, 5);
                lemma_slot_compose(pw as int, x as int, y as int, 6);
                lemma_slot_compose(pw as int, x as int, y as int, 7);
            }
            let down_right = flows.pop().unwrap();
            let down = flows.pop().unwrap();
            let down_left = flows.pop().unwrap();
            let left = flows.pop().unwrap();
            let up_left = flows.pop().unwrap();
            let up = flows.pop().unwrap();
            let up_right = flows.pop().unwrap();
            let right = flows.pop().unwrap();
            let nb = NeumannNeighbors {
                right,
                up_right,
                up,
                up_left,
                left,
                down_left,
                down,
                down_right,
            };
            proof {
                assert(nb == gather_at(f0, pw as int, x as int, y as int));
                assert(flows@ =~= f0.subrange(0, k as int * 8));
            }
            if x >= 2 && x < pw - 2 && y >= 2 && y < ph - 2 {
                let c = &mut self.cells[k];
                self.sim.ingress(c, nb);
            }
        }
    }

    /// Run the four passes of one step over the arena as it stands:
    /// compute, egress, flow exchange, ingress.
    fn run_phases(&mut self, pad: usize)
        requires
            old(self).wf(),
            1 <= pad <= 2,
        ensures
            final(self).wf(),
            final(self).s() == old(self).s(),
            final(self).w() == old(self).w(),
            final(self).h() == old(self).h(),
            forall|x: int, y: int|
                0 <= x < final(self).pw() && 0 <= y < final(self).ph() ==> final(self).at(x, y)
                    == step_cell(
                    old(self).s(),
                    old(self).grid(),
                    old(self).pw(),
                    old(self).ph(),
                    pad as int,
                    x,
                    y,
                ),
    {
        let ghost g0 = *old(self);
        proof {
            lemma_wf_arith(g0);
        }
        let diffs = self.compute_diffs(pad);
        let mut flows = self.perform_egress(diffs, pad);
        let ghost s1 = self.grid();
        let mut tmp = self.sim.flow_padding();
        exchange_flows(&mut flows, self.width + 4, self.height + 4, &mut tmp);
        let ghost fx = flows@;
        self.perform_ingress(flows);
        proof {
            assert forall|x: int, y: int|
                0 <= x < self.pw() && 0 <= y < self.ph() implies self.at(x, y) == step_cell(
                g0.s(),
                g0.grid(),
                g0.pw(),
                g0.ph(),
                pad as int,
                x,
                y,
            ) by {
                lemma_row_major_bounds(g0.pw(), g0.ph(), x, y);
                lemma_row_major_decompose(g0.pw(), x, y);
                let k = y * g0.pw() + x;
                assert(self.grid()[k] == ingressed_slot(
                    g0.s(),
                    s1,
                    fx,
                    g0.pw(),
                    g0.ph(),
                    k,
                ));
                if active(g0.pw(), g0.ph(), 2, x, y) {
                    lemma_gather_exchanged(g0.s(), g0.grid(), g0.pw(), g0.ph(), pad as int, x, y);
                }
            }
        }
    }

    /// Advance the simulation by one step with a fixed boundary: the
    /// padding is filled with the rule's padding cell, only interior cells
    /// compute and egress, and interior cells bordering the padding
    /// receive the padding flow from outside.
    pub fn step_parallel(&mut self)
        requires
            old(self).wf(),
        ensures
            final(self).wf(),
            final(self).s() == old(self).s(),
            final(self).w() == old(self).w(),
            final(self).h() == old(self).h(),
            forall|x: int, y: int|
                0 <= x < final(self).pw() && 0 <= y < final(self).ph() ==> final(self).at(x, y)
                    == step_cell(
                    old(self).s(),
                    const_padded(old(self).s(), old(self).grid(), old(self).pw(), old(self).ph()),
                    old(self).pw(),
                    old(self).ph(),
                    2,
                    x,
                    y,
                ),
    {
        let ghost g0 = *old(self);
        self.fill_padding();
        proof {
            assert(self.grid() =~= const_padded(g0.s(), g0.grid(), g0.pw(), g0.ph())) by {
                lemma_wf_arith(g0);
                assert forall|k: int| 0 <= k < self.grid().len() implies self.grid()[k]
                    == const_padded(g0.s(), g0.grid(), g0.pw(), g0.ph())[k] by {
                    lemma_cell_decompose(g0.pw(), k);
                    let x = k % g0.pw();
                    let y = k / g0.pw();
                    assert(y < g0.ph()) by (nonlinear_arith)
                        requires
                            k < g0.pw() * g0.ph(),
                            k == y * g0.pw() + x,
                            0 <= x,
                            0 <= y,
                            0 < g0.pw(),
                    ;
                    assert(self.at(x, y) == (if self.is_interior(x, y) {
                        g0.at(x, y)
                    } else {
                        g0.s().s_cell_padding()
                    }));
                }
            }
        }
        self.run_phases(2);
    }

    /// Advance the simulation by one step on the torus: the padding is
    /// refreshed by wraparound, and the padding ring next to the interior
    /// takes part in compute and egress so that the flows crossing the
    /// seam are exactly the wrapped neighbors' flows.
    pub fn step_torus(&mut self)
        requires
            old(self).wf(),
        ensures
            final(self).wf(),
            final(self).s() == old(self).s(),
            final(self).w() == old(self).w(),
            final(self).h() == old(self).h(),
            forall|x: int, y: int|
                0 <= x < final(self).pw() && 0 <= y < final(self).ph() ==> final(self).at(x, y)
                    == step_cell(
                    old(self).s(),
                    wrap_padded(old(self).grid(), old(self).pw(), old(self).ph()),
                    old(self).pw(),
                    old(self).ph(),
                    1,
                    x,
                    y,
                ),
    {
        let ghost g0 = *old(self);
        self.refresh_padding();
        proof {
            assert(self.grid() =~= wrap_padded(g0.grid(), g0.pw(), g0.ph())) by {
                lemma_wf_arith(g0);
                assert forall|k: int| 0 <= k < self.grid().len() implies self.grid()[k]
                    == wrap_padded(g0.grid(), g0.pw(), g0.ph())[k] by {
                    lemma_cell_decompose(g0.pw(), k);
                    let x = k % g0.pw();
                    let y = k / g0.pw();
                    assert(y < g0.ph()) by (nonlinear_arith)
                        requires
                            k < g0.pw() * g0.ph(),
                            k == y * g0.pw() + x,
                            0 <= x,
                            0 <= y,
                            0 < g0.pw(),
                    ;
                    assert(self.at(x, y) == g0.wrapped_at(x, y));
                }
            }
        }
        self.run_phases(1);
    }

    /// Advance the simulation by one step with halo-sourced padding: the
    /// caller has already loaded the padding (from neighboring tiles), and
    /// the padding ring next to the interior takes part in compute and
    /// egress so that the flows crossing the tile boundary are exactly the
    /// ones the logical grid would exchange there.
    pub fn step_halo(&mut self)
        requires
            old(self).wf(),
        ensures
            final(self).wf(),
            final(self).s() == old(self).s(),
            final(self).w() == old(self).w(),
            final(self).h() == old(self).h(),
            forall|x: int, y: int|
                0 <= x < final(self).pw() && 0 <= y < final(self).ph() ==> final(self).at(x, y)
                    == step_cell(
                    old(self).s(),
                    old(self).grid(),
                    old(self).pw(),
                    old(self).ph(),
                    1,
                    x,
                    y,
                ),
    {
        self.run_phases(1);
    }

}

/// What `fill_padding` leaves at arena position `j` of a grid that started
/// as `g0`: interior cells stay, border cells become the padding cell.
pub open spec fn pad_fill_at<S: Sim>(g0: SquareGrid<S>, j: int) -> S::Cell {
    let x = j % g0.pw();
    let y = j / g0.pw();
    if g0.is_interior(x, y) {
        g0.grid()[j]
    } else {
        g0.s().s_cell_padding()
    }
}

/// What `refresh_padding` leaves at arena position `j` of a grid that
/// started as `g0`: interior cells stay, border cells become wrapped
/// copies.
pub open spec fn wrap_fill_at<S: Sim>(g0: SquareGrid<S>, j: int) -> S::Cell {
    let x = j % g0.pw();
    let y = j / g0.pw();
    if g0.is_interior(x, y) {
        g0.grid()[j]
    } else {
        g0.wrapped_at(x, y)
    }
}

/// How many interior cells a row-major scan of the padded arena has passed
/// when it reaches the start of padded row `y`.
pub open spec fn interior_count(w: int, h: int, y: int) -> int {
    if y <= 2 {
        0
    } else if y >= h + 2 {
        w * h
    } else {
        (y - 2) * w
    }
}

/// Inside the interior rows, the scan count is `(y - 2) * w`.
proof fn lemma_interior_count_val(w: int, h: int, y: int)
    requires
        1 <= w,
        1 <= h,
        2 <= y < h + 2,
    ensures
        interior_count(w, h, y) == (y - 2) * w,
{
    if y == 2 {
        assert((y - 2) * w == 0) by (nonlinear_arith)
            requires
                y == 2,
        ;
    }
}

/// Scanning one more row adds `w` inside the interior rows and nothing
/// outside them.
proof fn lemma_interior_count_step(w: int, h: int, y: int)
    requires
        1 <= w,
        1 <= h,
        0 <= y,
    ensures
        interior_count(w, h, y + 1) == interior_count(w, h, y) + if 2 <= y < h + 2 {
            w
        } else {
            0
        },
{
    if 2 <= y < h + 2 {
        lemma_interior_count_val(w, h, y);
        if y + 1 >= h + 2 {
            assert((y - 2) * w + w == w * h) by (nonlinear_arith)
                requires
                    y + 1 == h + 2,
            ;
        } else {
            lemma_interior_count_val(w, h, y + 1);
            assert((y + 1 - 2) * w == (y - 2) * w + w) by (nonlinear_arith);
        }
    }
}

/// How many interior cells a row-major scan of one interior row has passed
/// when it reaches padded column `x`.
pub open spec fn row_progress(w: int, x: int) -> int {
    if x <= 2 {
        0
    } else if x >= w + 2 {
        w
    } else {
        x - 2
    }
}

/// The cell a fresh grid holds at arena position `j`: the matching input
/// cell in the interior, the rule's padding cell on the border.
pub open spec fn init_cell_at<S: Sim>(sim: S, input: Seq<S::Cell>, w: int, h: int, j: int) -> S::Cell {
    let x = j % (w + 4);
    let y = j / (w + 4);
    if 2 <= x < w + 2 && 2 <= y < h + 2 {
        input[(y - 2) * w + (x - 2)]
    } else {
        sim.s_cell_padding()
    }
}

} // verus!

