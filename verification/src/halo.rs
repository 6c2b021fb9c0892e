//! The halo exchange coordinator's data movement: which cells a tile sends
//! to each of its eight neighbor tiles, and where received cells land in
//! the tile's own padding.
//!
//! A tile of a logical toroidal grid owes each neighbor the two-deep strip
//! of its interior facing that neighbor (edges to the four orthogonal
//! neighbors, two-by-two corners to the four diagonal ones), and fills its
//! own two-deep padding with what the neighbors send back.  The transport
//! is the caller's concern: these functions only turn grid state into flat
//! cell sequences and back, in a fixed row-major order shared by sender
//! and receiver.

use vstd::prelude::*;

use crate::GridError;
use crate::direction::Neumann;
use crate::grid::SquareGrid;
use crate::grid::lemma_row_major_bounds;
use crate::grid::lemma_row_major_decompose;
use crate::sim::Sim;

verus! {

/// The interior region a tile sends toward direction `d`, as
/// `(x0, y0, xlen, ylen)` in interior coordinates: the strip of its
/// interior nearest that side.
pub open spec fn send_region(w: int, h: int, d: Neumann) -> (int, int, int, int) {
    match d {
        Neumann::Right => (w - 2, 0, 2, h),
        Neumann::UpRight => (w - 2, 0, 2, 2),
        Neumann::Up => (0, 0, w, 2),
        Neumann::UpLeft => (0, 0, 2, 2),
        Neumann::Left => (0, 0, 2, h),
        Neumann::DownLeft => (0, h - 2, 2, 2),
        Neumann::Down => (0, h - 2, w, 2),
        Neumann::DownRight => (w - 2, h - 2, 2, 2),
    }
}

/// The padding region a tile fills with cells received from its neighbor
/// at direction `d`, as `(x0, y0, xlen, ylen)` in padded coordinates.
pub open spec fn recv_region(w: int, h: int, d: Neumann) -> (int, int, int, int) {
    match d {
        Neumann::Right => (w + 2, 2, 2, h),
        Neumann::UpRight => (w + 2, 0, 2, 2),
        Neumann::Up => (2, 0, w, 2),
        Neumann::UpLeft => (0, 0, 2, 2),
        Neumann::Left => (0, 2, 2, h),
        Neumann::DownLeft => (0, h + 2, 2, 2),
        Neumann::Down => (2, h + 2, w, 2),
        Neumann::DownRight => (w + 2, h + 2, 2, 2),
    }
}

impl<S: Sim> SquareGrid<S> {
    /// The cells this tile owes its neighbor at direction `d`, row-major.
    ///
    /// The neighbor loads them with `load_padding` from the opposite
    /// direction; both sides use the same order, so no index travels on
    /// the wire.
    pub fn edge_cells(&self, d: Neumann) -> (r: Vec<S::Cell>)
        requires
            self.wf(),
            self.w() >= 2,
            self.h() >= 2,
        ensures
            r@.len() == send_region(self.w(), self.h(), d).2 * send_region(self.w(), self.h(), d).3,
            forall|j: int|
                0 <= j < r@.len() ==> r@[j] == self.interior_at(
                    send_region(self.w(), self.h(), d).0 + j % send_region(self.w(), self.h(), d).2,
                    send_region(self.w(), self.h(), d).1 + j / send_region(self.w(), self.h(), d).2,
                ),
    {
        proof {
            crate::grid::lemma_wf_arith(*self);
            crate::grid::lemma_mul_le(self.w(), self.h(), self.pw(), self.ph());
        }
        let w = self.width();
        let h = self.height();
        let (x0, y0, xlen, ylen): (usize, usize, usize, usize) = match d {
            Neumann::Right => (w - 2, 0, 2, h),
            Neumann::UpRight => (w - 2, 0, 2, 2),
            Neumann::Up => (0, 0, w, 2),
            Neumann::UpLeft => (0, 0, 2, 2),
            Neumann::Left => (0, 0, 2, h),
            Neumann::DownLeft => (0, h - 2, 2, 2),
            Neumann::Down => (0, h - 2, w, 2),
            Neumann::DownRight => (w - 2, h - 2, 2, 2),
        };
        proof {
            crate::grid::lemma_mul_le(xlen as int, ylen as int, self.w(), self.h());
        }
        let count = xlen * ylen;
        let mut out: Vec<S::Cell> = Vec::new();
        let mut r: usize = 0;
        while r < count
            invariant
                self.wf(),
                8 * (self.pw() + self.ph()) <= usize::MAX,
                x0 + xlen <= self.w(),
                y0 + ylen <= self.h(),
                1 <= xlen,
                count == xlen * ylen,
                (x0 as int, y0 as int, xlen as int, ylen as int) == send_region(
                    self.w(),
                    self.h(),
                    d,
                ),
                r <= count,
                out@.len() == r,
                forall|j: int|
                    0 <= j < r ==> out@[j] == self.interior_at(
                        x0 + j % xlen as int,
                        y0 + j / xlen as int,
                    ),
            decreases count - r,
        {
            let jx = r % xlen;
            let jy = r / xlen;
            proof {
                crate::step::lemma_cell_decompose(xlen as int, r as int);
                assert(jy < ylen) by (nonlinear_arith)
                    requires
                        r < xlen * ylen,
                        r as int == (jy as int) * xlen + jx,
                        jx >= 0,
                        0 <= jy,
                        0 < xlen,
                ;
                lemma_row_major_bounds(xlen as int, ylen as int, jx as int, jy as int);
            }
            let c = self.sim().clone_cell(self.get_cell(x0 + jx, y0 + jy));
            out.push(c);
            r = r + 1;
        }
        out
    }

    /// Fill the padding region facing direction `d` with cells received
    /// from the neighbor tile there, row-major; every other cell stays.
    ///
    /// Refused, leaving the grid untouched, when the count is off.
    pub fn load_padding(&mut self, d: Neumann, cells: Vec<S::Cell>) -> (r: Result<(), GridError>)
        requires
            old(self).wf(),
            old(self).w() >= 2,
            old(self).h() >= 2,
        ensures
            final(self).wf(),
            final(self).s() == old(self).s(),
            final(self).w() == old(self).w(),
            final(self).h() == old(self).h(),
            r is Ok <==> cells@.len() == recv_region(old(self).w(), old(self).h(), d).2
                * recv_region(old(self).w(), old(self).h(), d).3,
            r matches Err(e) ==> e == GridError::LengthMismatch && *final(self) == *old(self),
            r is Ok ==> forall|j: int|
                0 <= j < cells@.len() ==> final(self).at(
                    recv_region(old(self).w(), old(self).h(), d).0 + j % recv_region(
                        old(self).w(),
                        old(self).h(),
                        d,
                    ).2,
                    recv_region(old(self).w(), old(self).h(), d).1 + j / recv_region(
                        old(self).w(),
                        old(self).h(),
                        d,
                    ).2,
                ) == cells@[j],
            r is Ok ==> forall|px: int, py: int|
                0 <= px < final(self).pw() && 0 <= py < final(self).ph() && !in_region(
                    recv_region(old(self).w(), old(self).h(), d),
                    px,
                    py,
                ) ==> final(self).at(px, py) == old(self).at(px, py),
    {
        let ghost g0 = *old(self);
        proof {
            crate::grid::lemma_wf_arith(g0);
        }
        let w = self.width();
        let h = self.height();
        let (x0, y0, xlen, ylen): (usize, usize, usize, usize) = match d {
            Neumann::Right => (w + 2, 2, 2, h),
            Neumann::UpRight => (w + 2, 0, 2, 2),
            Neumann::Up => (2, 0, w, 2),
            Neumann::UpLeft => (0, 0, 2, 2),
            Neumann::Left => (0, 2, 2, h),
            Neumann::DownLeft => (0, h + 2, 2, 2),
            Neumann::Down => (2, h + 2, w, 2),
            Neumann::DownRight => (w + 2, h + 2, 2, 2),
        };
        proof {
            crate::grid::lemma_mul_le(xlen as int, ylen as int, g0.pw(), g0.ph());
        }
        let count = xlen * ylen;
        if cells.len() != count {
            return Err(GridError::LengthMismatch);
        }
        let ghost v0 = cells@;
        let mut cells = cells;
        let mut r: usize = 0;
        while r < count
            invariant
                self.wf(),
                g0.wf(),
                8 * (g0.pw() + g0.ph()) <= usize::MAX,
                self.s() == g0.s(),
                self.w() == g0.w() && self.h() == g0.h(),
                w == g0.w() && h == g0.h(),
                x0 + xlen <= g0.pw(),
                y0 + ylen <= g0.ph(),
                1 <= xlen,
                count == xlen * ylen,
                (x0 as int, y0 as int, xlen as int, ylen as int) == recv_region(g0.w(), g0.h(), d),
                r <= count,
                v0.len() == count,
                cells@ =~= v0.skip(r as int),
                self.grid().len() == g0.grid().len(),
                forall|j: int|
                    0 <= j < r ==> self.at(x0 + j % xlen as int, y0 + j / xlen as int) == v0[j],
                forall|px: int, py: int|
                    0 <= px < g0.pw() && 0 <= py < g0.ph() && !(x0 <= px < x0 + xlen && y0 <= py
                        < y0 + ylen && (py - y0) * xlen + (px - x0) < r) ==> self.at(px, py)
                        == g0.at(px, py),
            decreases count - r,
        {
            let jx = r % xlen;
            let jy = r / xlen;
            proof {
                crate::step::lemma_cell_decompose(xlen as int, r as int);
                assert(jy < ylen) by (nonlinear_arith)
                    requires
                        r < xlen * ylen,
                        r as int == (jy as int) * xlen + jx,
                        jx >= 0,
                        0 <= jy,
                        0 < xlen,
                ;
                lemma_row_major_bounds(xlen as int, ylen as int, jx as int, jy as int);
                lemma_row_major_bounds(g0.pw(), g0.ph(), x0 + jx as int, y0 + jy as int);
                assert(cells@.len() > 0);
            }
            let c = cells.remove(0);
            let ghost pre = *self;
            self.set_padded(x0 + jx, y0 + jy, c);
            proof {
                assert forall|j: int|
                    0 <= j < r + 1 implies self.at(x0 + j % xlen as int, y0 + j / xlen as int)
                    == v0[j] by {
                    crate::step::lemma_cell_decompose(xlen as int, j);
                    if j < r {
                        assert(j / (xlen as int) < ylen) by (nonlinear_arith)
                            requires
                                0 <= j < xlen * ylen,
                                j == (j / (xlen as int)) * (xlen as int) + j % (xlen as int),
                                0 <= j % (xlen as int),
                                0 <= j / (xlen as int),
                                0 < xlen,
                        ;
                        assert(!(x0 + j % xlen as int == x0 + jx && y0 + j / xlen as int == y0
                            + jy));
                        assert(self.at(x0 + j % xlen as int, y0 + j / xlen as int) == pre.at(
                            x0 + j % xlen as int,
                            y0 + j / xlen as int,
                        ));
                    }
                }
                assert forall|px: int, py: int|
                    0 <= px < g0.pw() && 0 <= py < g0.ph() && !(x0 <= px < x0 + xlen && y0 <= py
                        < y0 + ylen && (py - y0) * xlen + (px - x0) < r + 1) implies self.at(px, py)
                    == g0.at(px, py) by {
                    if x0 <= px < x0 + xlen && y0 <= py < y0 + ylen {
                        lemma_row_major_decompose(xlen as int, px - x0, py - y0);
                    }
                }
            }
            r = r + 1;
        }
        Ok(())
    }
}

/// Whether padded coordinates fall inside a region.
pub open spec fn in_region(region: (int, int, int, int), px: int, py: int) -> bool {
    &&& region.0 <= px < region.0 + region.2
    &&& region.1 <= py < region.1 + region.3
}

} // verus!
