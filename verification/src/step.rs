//! The parallel step scheduler's mathematical model and its flow-exchange
//! pass.
//!
//! A step runs four passes: diff computation, egress, flow exchange and
//! ingress.  Each pass writes a set of slots that are owned by exactly one
//! cell, reading only state the pass does not write, so the result of a
//! pass is a pure function of the state before it — the order in which
//! cells are visited cannot matter.  The flow exchange moves every emitted
//! flow to the inbound slot of the neighbor it addresses, as a sequence of
//! pairwise swaps over non-overlapping two-by-two blocks, repeated four
//! times at offsets `(0,0)`, `(0,1)`, `(1,0)`, `(1,1)`: within one
//! repetition no two swaps touch the same cell, so all swaps of a
//! repetition could run in parallel.
//!
//! Flows are kept in one flat arena of `pw * ph * 8` slots: slot
//! `(y * pw + x) * 8 + d` belongs to cell `(x, y)` and direction index
//! `d`.  After egress it holds the flow the cell emits toward `d`; after
//! the exchange it holds the flow arriving from `d`.

use vstd::prelude::*;

use crate::grid::lemma_mul_le;
use crate::grid::lemma_row_major_bounds;
use crate::grid::lemma_row_major_decompose;

verus! {

/// The x-offset of the direction at index `di` of the rotation order.
pub open spec fn dx_of(di: int) -> int {
    if di == 0 {
        1
    } else if di == 1 {
        1
    } else if di == 2 {
        0
    } else if di == 3 {
        -1
    } else if di == 4 {
        -1
    } else if di == 5 {
        -1
    } else if di == 6 {
        0
    } else {
        1
    }
}

/// The y-offset of the direction at index `di` of the rotation order.
pub open spec fn dy_of(di: int) -> int {
    if di == 0 {
        0
    } else if di == 1 {
        -1
    } else if di == 2 {
        -1
    } else if di == 3 {
        -1
    } else if di == 4 {
        0
    } else if di == 5 {
        1
    } else if di == 6 {
        1
    } else {
        1
    }
}

/// The index of the opposite direction.
pub open spec fn inv_of(di: int) -> int {
    if di < 4 {
        di + 4
    } else {
        di - 4
    }
}

/// The cell x-coordinate of flow slot `j`.
pub open spec fn slot_x(pw: int, j: int) -> int {
    (j / 8) % pw
}

/// The cell y-coordinate of flow slot `j`.
pub open spec fn slot_y(pw: int, j: int) -> int {
    (j / 8) / pw
}

/// The direction index of flow slot `j`.
pub open spec fn slot_d(j: int) -> int {
    j % 8
}

/// The flow slot of cell `(x, y)` and direction index `di`.
pub open spec fn slot_of(pw: int, x: int, y: int, di: int) -> int {
    (y * pw + x) * 8 + di
}

/// Whether the exchange swaps the flow pair between cell `(x, y)` and its
/// neighbor at direction index `di`.
///
/// A pair is swapped when the neighbor lies inside the arena, except that
/// horizontal pairs in row zero and vertical pairs in column zero are left
/// alone: the block partition never reaches them, and they only ever pair
/// outermost padding cells whose flows are discarded.
pub open spec fn pair_swapped(pw: int, ph: int, x: int, y: int, di: int) -> bool {
    &&& 0 <= x + dx_of(di) < pw
    &&& 0 <= y + dy_of(di) < ph
    &&& !(dy_of(di) == 0 && y == 0)
    &&& !(dx_of(di) == 0 && x == 0)
}

/// Whether the exchange swaps flow slot `j` with its pair.
pub open spec fn pair_swapped_j(pw: int, ph: int, j: int) -> bool {
    pair_swapped(pw, ph, slot_x(pw, j), slot_y(pw, j), slot_d(j))
}

/// The slot holding the flow that answers slot `j`: the slot of the
/// neighbor the direction points at, in the opposite direction.
pub open spec fn partner_slot(pw: int, j: int) -> int {
    slot_of(
        pw,
        slot_x(pw, j) + dx_of(slot_d(j)),
        slot_y(pw, j) + dy_of(slot_d(j)),
        inv_of(slot_d(j)),
    )
}

/// Where the exchange reads the final value of slot `j` from: its partner
/// when the pair is swapped, itself otherwise.
pub open spec fn pair_target(pw: int, ph: int, j: int) -> int {
    if pair_swapped_j(pw, ph, j) {
        partner_slot(pw, j)
    } else {
        j
    }
}

/// The flow arena after the exchange: every swapped slot holds what its
/// partner held, every other slot is unchanged.
pub open spec fn exchanged<F>(f0: Seq<F>, pw: int, ph: int) -> Seq<F> {
    Seq::new(f0.len(), |j: int| f0[pair_target(pw, ph, j)])
}

/// The column of the two-by-two block whose swaps resolve slot `j`'s pair.
pub open spec fn block_x(pw: int, j: int) -> int {
    if dx_of(slot_d(j)) == 1 {
        slot_x(pw, j)
    } else {
        slot_x(pw, j) - 1
    }
}

/// The row of the two-by-two block whose swaps resolve slot `j`'s pair.
pub open spec fn block_y(pw: int, j: int) -> int {
    if dy_of(slot_d(j)) == 1 {
        slot_y(pw, j)
    } else {
        slot_y(pw, j) - 1
    }
}

/// The repetition (pass) that processes the block at `(bx, by)`: passes
/// run at offsets `(0,0)`, `(0,1)`, `(1,0)`, `(1,1)` in `(y, x)` order,
/// and a block belongs to the pass matching its coordinate parities.
pub open spec fn pass_of_block(bx: int, by: int) -> int {
    2 * (by % 2) + (bx % 2)
}

/// Whether the block at `(bx, by)` exists in a `pw` by `ph` arena.
pub open spec fn valid_block(pw: int, ph: int, bx: int, by: int) -> bool {
    0 <= bx && bx + 1 < pw && 0 <= by && by + 1 < ph
}

/// Whether slot `j`'s pair swap has already run when the scan stands at
/// pass `p`, block row `y0`, block column `x0`.
pub open spec fn done_slot(pw: int, ph: int, j: int, p: int, y0: int, x0: int) -> bool {
    &&& pair_swapped_j(pw, ph, j)
    &&& {
        let bx = block_x(pw, j);
        let by = block_y(pw, j);
        let bp = pass_of_block(bx, by);
        bp < p || (bp == p && (by < y0 || (by == y0 && bx < x0)))
    }
}

/// Swap the values at two distinct positions of a vector, using a spare
/// value as the intermediary; the spare comes back unchanged.
fn swap_slots<T>(v: &mut Vec<T>, i: usize, j: usize, tmp: &mut T)
    requires
        i < old(v)@.len(),
        j < old(v)@.len(),
        i != j,
    ensures
        final(v)@ == old(v)@.update(i as int, old(v)@[j as int]).update(
            j as int,
            old(v)@[i as int],
        ),
        *final(tmp) == *old(tmp),
{
    core::mem::swap(tmp, &mut v[i]);
    core::mem::swap(tmp, &mut v[j]);
    core::mem::swap(tmp, &mut v[i]);
    proof {
        assert(v@ =~= old(v)@.update(i as int, old(v)@[j as int]).update(
            j as int,
            old(v)@[i as int],
        ));
    }
}

/// Where a slot's value comes from after the four swaps of the block at
/// `(x0, y0)`: the eight slots the block exchanges point at each other,
/// every other slot points at itself.
pub open spec fn block_partner(pw: int, x0: int, y0: int, j: int) -> int {
    let tl = (y0 * pw + x0) * 8;
    let tr = (y0 * pw + x0 + 1) * 8;
    let bl = ((y0 + 1) * pw + x0) * 8;
    let br = ((y0 + 1) * pw + x0 + 1) * 8;
    if j == bl + 0 {
        br + 4
    } else if j == br + 4 {
        bl + 0
    } else if j == tr + 6 {
        br + 2
    } else if j == br + 2 {
        tr + 6
    } else if j == tl + 7 {
        br + 3
    } else if j == br + 3 {
        tl + 7
    } else if j == tr + 5 {
        bl + 1
    } else if j == bl + 1 {
        tr + 5
    } else {
        j
    }
}

/// Whether `j` is one of the eight slots the block at `(x0, y0)` swaps.
pub open spec fn is_block_slot(pw: int, x0: int, y0: int, j: int) -> bool {
    let tl = (y0 * pw + x0) * 8;
    let tr = (y0 * pw + x0 + 1) * 8;
    let bl = ((y0 + 1) * pw + x0) * 8;
    let br = ((y0 + 1) * pw + x0 + 1) * 8;
    j == bl + 0 || j == br + 4 || j == tr + 6 || j == br + 2 || j == tl + 7 || j == br + 3 || j
        == tr + 5 || j == bl + 1
}

/// Run the four swaps of the two-by-two block at `(x0, y0)`: the
/// horizontal pair of its bottom row, the vertical pair of its right
/// column, and its two diagonal pairs.
fn exchange_block<F>(flows: &mut Vec<F>, pw: usize, ph: usize, x0: usize, y0: usize, tmp: &mut F)
    requires
        x0 + 1 < pw,
        y0 + 1 < ph,
        old(flows)@.len() == pw * ph * 8,
        pw * ph * 8 <= usize::MAX,
    ensures
        final(flows)@.len() == old(flows)@.len(),
        forall|j: int|
            0 <= j < old(flows)@.len() ==> final(flows)@[j] == old(flows)@[block_partner(
                pw as int,
                x0 as int,
                y0 as int,
                j,
            )],
        *final(tmp) == *old(tmp),
{
    proof {
        lemma_row_major_bounds(pw as int, ph as int, x0 as int + 1, y0 as int + 1);
        lemma_row_major_bounds(pw as int, ph as int, x0 as int, y0 as int);
        assert((y0 + 1) * (pw as int) == y0 * (pw as int) + pw) by (nonlinear_arith);
        lemma_mul_le(
            (y0 + 1) * (pw as int) + x0 + 2,
            8,
            (pw as int) * ph,
            8,
        );
        assert(((y0 + 1) * (pw as int) + x0 + 2) * 8 == ((y0 + 1) * (pw as int) + x0 + 1) * 8 + 8)
            by (nonlinear_arith);
        assert(((y0 + 1) * (pw as int) + x0 + 1) * 8 == ((y0 + 1) * (pw as int) + x0) * 8 + 8)
            by (nonlinear_arith);
        assert((y0 * (pw as int) + x0 + 1) * 8 == (y0 * (pw as int) + x0) * 8 + 8)
            by (nonlinear_arith);
        assert((y0 * (pw as int) + x0 + 1) * 8 <= ((y0 + 1) * (pw as int) + x0) * 8)
            by (nonlinear_arith)
            requires
                x0 + 1 < pw,
        ;
    }
    let tl = (y0 * pw + x0) * 8;
    let tr = tl + 8;
    let bl = ((y0 + 1) * pw + x0) * 8;
    let br = bl + 8;
    let ghost f0 = flows@;
    // Left to right along the bottom row.
    swap_slots(flows, bl + 0, br + 4, tmp);
    // Top to bottom along the right column.
    swap_slots(flows, tr + 6, br + 2, tmp);
    // Across the main diagonal.
    swap_slots(flows, tl + 7, br + 3, tmp);
    // Across the other diagonal.
    swap_slots(flows, tr + 5, bl + 1, tmp);
    proof {
        assert forall|j: int| 0 <= j < f0.len() implies flows@[j] == f0[block_partner(
            pw as int,
            x0 as int,
            y0 as int,
            j,
        )] by {
        }
    }
}

/// A flow slot index splits into its cell coordinates and direction index.
pub proof fn lemma_slot_decompose(pw: int, j: int)
    requires
        0 < pw,
        0 <= j,
    ensures
        j == slot_of(pw, slot_x(pw, j), slot_y(pw, j), slot_d(j)),
        0 <= slot_d(j) < 8,
        0 <= slot_x(pw, j) < pw,
        0 <= slot_y(pw, j),
        slot_y(pw, j) * pw + slot_x(pw, j) == j / 8,
{
    vstd::arithmetic::div_mod::lemma_fundamental_div_mod(j, 8);
    vstd::arithmetic::div_mod::lemma_mod_bound(j, 8);
    vstd::arithmetic::div_mod::lemma_div_pos_is_pos(j, 8);
    let cell = j / 8;
    vstd::arithmetic::div_mod::lemma_fundamental_div_mod(cell, pw);
    vstd::arithmetic::div_mod::lemma_mod_bound(cell, pw);
    vstd::arithmetic::div_mod::lemma_div_pos_is_pos(cell, pw);
    assert(cell == slot_y(pw, j) * pw + slot_x(pw, j)) by (nonlinear_arith)
        requires
            cell == pw * (cell / pw) + cell % pw,
            slot_y(pw, j) == cell / pw,
            slot_x(pw, j) == cell % pw,
    ;
    assert(j == cell * 8 + slot_d(j)) by (nonlinear_arith)
        requires
            j == 8 * (j / 8) + j % 8,
            cell == j / 8,
            slot_d(j) == j % 8,
    ;
}

/// The coordinates and direction of a composed flow slot index are the
/// ones it was composed from.
pub proof fn lemma_slot_compose(pw: int, x: int, y: int, di: int)
    requires
        0 < pw,
        0 <= x < pw,
        0 <= y,
        0 <= di < 8,
    ensures
        slot_x(pw, slot_of(pw, x, y, di)) == x,
        slot_y(pw, slot_of(pw, x, y, di)) == y,
        slot_d(slot_of(pw, x, y, di)) == di,
{
    let cell = y * pw + x;
    lemma_row_major_bounds(pw, y + 1, x, y);
    assert(slot_of(pw, x, y, di) == 8 * cell + di) by (nonlinear_arith)
        requires
            slot_of(pw, x, y, di) == cell * 8 + di,
    ;
    vstd::arithmetic::div_mod::lemma_fundamental_div_mod_converse(slot_of(pw, x, y, di), 8, cell, di);
    lemma_row_major_decompose(pw, x, y);
}

/// A slot inside the arena belongs to a cell row inside the arena.
pub proof fn lemma_slot_y_bound(pw: int, ph: int, j: int)
    requires
        0 < pw,
        0 < ph,
        0 <= j < pw * ph * 8,
    ensures
        slot_y(pw, j) < ph,
{
    lemma_slot_decompose(pw, j);
    if slot_y(pw, j) >= ph {
        assert(false) by (nonlinear_arith)
            requires
                j < pw * ph * 8,
                j == (slot_y(pw, j) * pw + slot_x(pw, j)) * 8 + slot_d(j),
                slot_y(pw, j) >= ph,
                slot_x(pw, j) >= 0,
                slot_d(j) >= 0,
                pw > 0,
        ;
    }
}

/// Row-major cell indexing is injective.
pub proof fn lemma_row_major_injective(pw: int, x1: int, y1: int, x2: int, y2: int)
    requires
        0 < pw,
        0 <= x1 < pw,
        0 <= x2 < pw,
        0 <= y1,
        0 <= y2,
        y1 * pw + x1 == y2 * pw + x2,
    ensures
        x1 == x2,
        y1 == y2,
{
    lemma_row_major_decompose(pw, x1, y1);
    lemma_row_major_decompose(pw, x2, y2);
}

/// Adjacent integers have opposite parities.
proof fn lemma_parity_succ(x: int)
    requires
        0 <= x,
    ensures
        (x + 1) % 2 == 1 - x % 2,
{
    vstd::arithmetic::div_mod::lemma_fundamental_div_mod(x, 2);
    vstd::arithmetic::div_mod::lemma_mod_bound(x, 2);
    vstd::arithmetic::div_mod::lemma_div_pos_is_pos(x, 2);
    if x % 2 == 0 {
        vstd::arithmetic::div_mod::lemma_fundamental_div_mod_converse(x + 1, 2, x / 2, 1);
    } else {
        vstd::arithmetic::div_mod::lemma_fundamental_div_mod_converse(x + 1, 2, x / 2 + 1, 0);
    }
}

/// The slots of the block at `(x0, y0)` are exactly the slots whose pair
/// that block swaps, and within the block each such slot's partner under
/// the block's swaps is its pair partner.
proof fn lemma_block_membership(pw: int, ph: int, x0: int, y0: int, j: int)
    requires
        valid_block(pw, ph, x0, y0),
        0 <= j,
    ensures
        is_block_slot(pw, x0, y0, j) <==> (pair_swapped_j(pw, ph, j) && block_x(pw, j) == x0
            && block_y(pw, j) == y0),
        is_block_slot(pw, x0, y0, j) ==> pair_target(pw, ph, j) == block_partner(pw, x0, y0, j),
        is_block_slot(pw, x0, y0, j) ==> is_block_slot(pw, x0, y0, block_partner(pw, x0, y0, j)),
{
    lemma_slot_decompose(pw, j);
    lemma_slot_compose(pw, x0, y0, 7);
    lemma_slot_compose(pw, x0 + 1, y0, 6);
    lemma_slot_compose(pw, x0 + 1, y0, 5);
    lemma_slot_compose(pw, x0, y0 + 1, 0);
    lemma_slot_compose(pw, x0, y0 + 1, 1);
    lemma_slot_compose(pw, x0 + 1, y0 + 1, 4);
    lemma_slot_compose(pw, x0 + 1, y0 + 1, 2);
    lemma_slot_compose(pw, x0 + 1, y0 + 1, 3);
    let x = slot_x(pw, j);
    let y = slot_y(pw, j);
    let di = slot_d(j);
    if pair_swapped_j(pw, ph, j) && block_x(pw, j) == x0 && block_y(pw, j) == y0 {
        assert(is_block_slot(pw, x0, y0, j));
    }
    if is_block_slot(pw, x0, y0, j) {
        assert(pair_swapped_j(pw, ph, j) && block_x(pw, j) == x0 && block_y(pw, j) == y0);
        assert(pair_target(pw, ph, j) == block_partner(pw, x0, y0, j));
        assert(is_block_slot(pw, x0, y0, block_partner(pw, x0, y0, j)));
    }
}

/// A composed flow slot lies inside the arena.
pub proof fn lemma_slot_bounds(pw: int, ph: int, x: int, y: int, di: int)
    requires
        0 < pw,
        0 < ph,
        0 <= x < pw,
        0 <= y < ph,
        0 <= di < 8,
    ensures
        0 <= slot_of(pw, x, y, di) < pw * ph * 8,
{
    lemma_row_major_bounds(pw, ph, x, y);
    assert(0 <= (y * pw + x) * 8 + di < pw * ph * 8) by (nonlinear_arith)
        requires
            0 <= y * pw + x < pw * ph,
            0 <= di < 8,
    ;
}

/// A slot whose pair is swapped belongs to a block that exists in the
/// arena.
proof fn lemma_pair_block_valid(pw: int, ph: int, j: int)
    requires
        0 < pw,
        0 < ph,
        0 <= j < pw * ph * 8,
        pair_swapped_j(pw, ph, j),
    ensures
        valid_block(pw, ph, block_x(pw, j), block_y(pw, j)),
{
    lemma_slot_decompose(pw, j);
    lemma_slot_y_bound(pw, ph, j);
    let di = slot_d(j);
    if di == 0 {
    } else if di == 1 {
    } else if di == 2 {
    } else if di == 3 {
    } else if di == 4 {
    } else if di == 5 {
    } else if di == 6 {
    } else {
    }
}

/// A block's pass determines the parities of its coordinates.
proof fn lemma_pass_parities(bx: int, by: int, dy: int, dx: int)
    requires
        0 <= bx,
        0 <= by,
        0 <= dx <= 1,
        0 <= dy <= 1,
        pass_of_block(bx, by) == 2 * dy + dx,
    ensures
        by % 2 == dy,
        bx % 2 == dx,
{
    vstd::arithmetic::div_mod::lemma_mod_bound(bx, 2);
    vstd::arithmetic::div_mod::lemma_mod_bound(by, 2);
}

/// Before the first pass nothing is done.
proof fn lemma_done_none(pw: int, ph: int, j: int)
    requires
        0 < pw,
        0 < ph,
        0 <= j < pw * ph * 8,
    ensures
        !done_slot(pw, ph, j, 0, 0, 0),
{
    if pair_swapped_j(pw, ph, j) {
        lemma_pair_block_valid(pw, ph, j);
        vstd::arithmetic::div_mod::lemma_mod_bound(block_x(pw, j), 2);
        vstd::arithmetic::div_mod::lemma_mod_bound(block_y(pw, j), 2);
    }
}

/// After the last pass every swapped slot is done.
proof fn lemma_done_all(pw: int, ph: int, j: int)
    requires
        0 < pw,
        0 < ph,
        0 <= j < pw * ph * 8,
    ensures
        done_slot(pw, ph, j, 4, 0, 0) == pair_swapped_j(pw, ph, j),
{
    if pair_swapped_j(pw, ph, j) {
        lemma_pair_block_valid(pw, ph, j);
        vstd::arithmetic::div_mod::lemma_mod_bound(block_x(pw, j), 2);
        vstd::arithmetic::div_mod::lemma_mod_bound(block_y(pw, j), 2);
    }
}

/// Entering a pass at its starting block changes nothing about what is
/// done.
proof fn lemma_done_pass_start(pw: int, ph: int, p: int, dy: int, dx: int, j: int)
    requires
        0 < pw,
        0 < ph,
        0 <= j < pw * ph * 8,
        0 <= dx <= 1,
        0 <= dy <= 1,
        p == 2 * dy + dx,
    ensures
        done_slot(pw, ph, j, p, dy, dx) == done_slot(pw, ph, j, p, 0, 0),
{
    if pair_swapped_j(pw, ph, j) {
        lemma_pair_block_valid(pw, ph, j);
        let bx = block_x(pw, j);
        let by = block_y(pw, j);
        if pass_of_block(bx, by) == p {
            lemma_pass_parities(bx, by, dy, dx);
        }
    }
}

/// Finishing a block row of a pass marks done exactly what moving the scan
/// two rows down marks done.
proof fn lemma_done_row_step(pw: int, ph: int, p: int, dy: int, dx: int, y0: int, x0: int, j: int)
    requires
        0 < pw,
        0 < ph,
        0 <= j < pw * ph * 8,
        0 <= dx <= 1,
        0 <= dy <= 1,
        p == 2 * dy + dx,
        0 <= y0,
        y0 % 2 == dy,
        x0 + 1 >= pw,
        ensures
        done_slot(pw, ph, j, p, y0 + 2, dx) == done_slot(pw, ph, j, p, y0, x0),
{
    if pair_swapped_j(pw, ph, j) {
        lemma_pair_block_valid(pw, ph, j);
        let bx = block_x(pw, j);
        let by = block_y(pw, j);
        if pass_of_block(bx, by) == p {
            lemma_pass_parities(bx, by, dy, dx);
            if by == y0 + 1 {
                lemma_parity_succ(y0);
            }
        }
    }
}

/// Finishing the last block row of a pass marks done exactly what starting
/// the next pass marks done.
proof fn lemma_done_pass_step(pw: int, ph: int, p: int, dy: int, dx: int, y0: int, j: int)
    requires
        0 < pw,
        0 < ph,
        0 <= j < pw * ph * 8,
        0 <= dx <= 1,
        0 <= dy <= 1,
        p == 2 * dy + dx,
        0 <= y0,
        y0 + 1 >= ph,
    ensures
        done_slot(pw, ph, j, p + 1, 0, 0) == done_slot(pw, ph, j, p, y0, dx),
{
    if pair_swapped_j(pw, ph, j) {
        lemma_pair_block_valid(pw, ph, j);
        let bx = block_x(pw, j);
        let by = block_y(pw, j);
        vstd::arithmetic::div_mod::lemma_mod_bound(bx, 2);
        vstd::arithmetic::div_mod::lemma_mod_bound(by, 2);
    }
}

/// The state of the flow arena while the block scan stands at pass `p`,
/// row `y0`, column `x0`: every slot whose block the scan has passed holds
/// its pair's original flow, every other slot its own.
pub open spec fn exchange_inv<F>(
    cur: Seq<F>,
    orig: Seq<F>,
    pw: int,
    ph: int,
    p: int,
    y0: int,
    x0: int,
) -> bool {
    &&& cur.len() == orig.len()
    &&& forall|j: int|
        0 <= j < orig.len() ==> cur[j] == (if done_slot(pw, ph, j, p, y0, x0) {
            orig[pair_target(pw, ph, j)]
        } else {
            orig[j]
        })
}

/// Exchange every emitted flow with the flow its addressee emitted back:
/// afterwards, the slot of cell `c` and direction `d` holds what `c`'s
/// neighbor at `d` emitted toward the opposite direction (and, on the
/// outermost border where no block reaches, what `c` itself emitted).
///
/// Four repetitions of non-overlapping two-by-two block swaps, offset by
/// `(0,0)`, `(0,1)`, `(1,0)` and `(1,1)` in `(y, x)` order; the blocks of
/// one repetition touch disjoint cells, so nothing orders the swaps within
/// a repetition.
pub fn exchange_flows<F>(flows: &mut Vec<F>, pw: usize, ph: usize, tmp: &mut F)
    requires
        old(flows)@.len() == pw * ph * 8,
        1 <= pw,
        1 <= ph,
        pw * ph * 8 <= usize::MAX,
    ensures
        final(flows)@ == exchanged(old(flows)@, pw as int, ph as int),
        *final(tmp) == *old(tmp),
{
    let ghost orig = old(flows)@;
    let ghost tmp0 = *old(tmp);
    proof {
        assert(2 * (pw + ph) <= pw * ph * 8) by (nonlinear_arith)
            requires
                1 <= pw,
                1 <= ph,
        ;
        assert forall|j: int| 0 <= j < orig.len() implies !done_slot(
            pw as int,
            ph as int,
            j,
            0,
            0,
            0,
        ) by {
            lemma_done_none(pw as int, ph as int, j);
        }
    }
    let mut p: usize = 0;
    while p < 4
        invariant
            orig.len() == pw * ph * 8,
            pw * ph * 8 <= usize::MAX,
            2 * (pw + ph) <= usize::MAX,
            1 <= pw,
            1 <= ph,
            p <= 4,
            *tmp == tmp0,
            exchange_inv(flows@, orig, pw as int, ph as int, p as int, 0, 0),
        decreases 4 - p,
    {
        let dy = p / 2;
        let dx = p % 2;
        proof {
            vstd::arithmetic::div_mod::lemma_fundamental_div_mod(p as int, 2);
            vstd::arithmetic::div_mod::lemma_mod_bound(p as int, 2);
            assert forall|j: int| 0 <= j < orig.len() implies done_slot(
                pw as int,
                ph as int,
                j,
                p as int,
                dy as int,
                dx as int,
            ) == done_slot(pw as int, ph as int, j, p as int, 0, 0) by {
                lemma_done_pass_start(pw as int, ph as int, p as int, dy as int, dx as int, j);
            }
        }
        let mut y0 = dy;
        while y0 + 1 < ph
            invariant
                orig.len() == pw * ph * 8,
                pw * ph * 8 <= usize::MAX,
                2 * (pw + ph) <= usize::MAX,
                1 <= pw,
                1 <= ph,
                p < 4,
                dy <= 1,
                dx <= 1,
                p == 2 * dy + dx,
                dy <= y0 <= ph + 1,
                y0 % 2 == dy,
                *tmp == tmp0,
                exchange_inv(flows@, orig, pw as int, ph as int, p as int, y0 as int, dx as int),
            decreases ph + 1 - y0,
        {
            let mut x0 = dx;
            while x0 + 1 < pw
                invariant
                    orig.len() == pw * ph * 8,
                    pw * ph * 8 <= usize::MAX,
                    2 * (pw + ph) <= usize::MAX,
                    1 <= pw,
                    1 <= ph,
                    p < 4,
                    dy <= 1,
                    dx <= 1,
                    p == 2 * dy + dx,
                    dy <= y0,
                    y0 + 1 < ph,
                    y0 % 2 == dy,
                    dx <= x0 <= pw + 1,
                    x0 % 2 == dx,
                    *tmp == tmp0,
                    exchange_inv(
                        flows@,
                        orig,
                        pw as int,
                        ph as int,
                        p as int,
                        y0 as int,
                        x0 as int,
                    ),
                decreases pw + 1 - x0,
            {
                let ghost pre = flows@;
                exchange_block(flows, pw, ph, x0, y0, tmp);
                proof {
                    let pwi = pw as int;
                    let phi = ph as int;
                    let x0i = x0 as int;
                    let y0i = y0 as int;
                    let pi = p as int;
                    lemma_slot_bounds(pwi, phi, x0i, y0i, 7);
                    lemma_slot_bounds(pwi, phi, x0i + 1, y0i, 6);
                    lemma_slot_bounds(pwi, phi, x0i + 1, y0i, 5);
                    lemma_slot_bounds(pwi, phi, x0i, y0i + 1, 0);
                    lemma_slot_bounds(pwi, phi, x0i, y0i + 1, 1);
                    lemma_slot_bounds(pwi, phi, x0i + 1, y0i + 1, 4);
                    lemma_slot_bounds(pwi, phi, x0i + 1, y0i + 1, 2);
                    lemma_slot_bounds(pwi, phi, x0i + 1, y0i + 1, 3);
                    assert forall|j: int| 0 <= j < orig.len() implies flows@[j] == (
                    if done_slot(pwi, phi, j, pi, y0i, x0i + 2) {
                        orig[pair_target(pwi, phi, j)]
                    } else {
                        orig[j]
                    }) by {
                        lemma_block_membership(pwi, phi, x0i, y0i, j);
                        lemma_slot_decompose(pwi, j);
                        let bx = block_x(pwi, j);
                        let by = block_y(pwi, j);
                        if is_block_slot(pwi, x0i, y0i, j) {
                            let q = block_partner(pwi, x0i, y0i, j);
                            lemma_block_membership(pwi, phi, x0i, y0i, q);
                            assert(!done_slot(pwi, phi, j, pi, y0i, x0i));
                            assert(!done_slot(pwi, phi, q, pi, y0i, x0i));
                            assert(flows@[j] == pre[q]);
                            assert(pre[q] == orig[q]);
                        } else {
                            assert(flows@[j] == pre[j]);
                            if pair_swapped_j(pwi, phi, j) {
                                lemma_pair_block_valid(pwi, phi, j);
                                if pass_of_block(bx, by) == pi && by == y0i && x0i <= bx < x0i
                                    + 2 {
                                    lemma_pass_parities(bx, by, dy as int, dx as int);
                                    if bx == x0i + 1 {
                                        lemma_parity_succ(x0i);
                                    }
                                }
                            }
                        }
                    }
                }
                x0 = x0 + 2;
            }
            proof {
                assert forall|j: int| 0 <= j < orig.len() implies done_slot(
                    pw as int,
                    ph as int,
                    j,
                    p as int,
                    y0 as int + 2,
                    dx as int,
                ) == done_slot(pw as int, ph as int, j, p as int, y0 as int, x0 as int) by {
                    lemma_done_row_step(
                        pw as int,
                        ph as int,
                        p as int,
                        dy as int,
                        dx as int,
                        y0 as int,
                        x0 as int,
                        j,
                    );
                }
            }
            y0 = y0 + 2;
        }
        proof {
            assert forall|j: int| 0 <= j < orig.len() implies done_slot(
                pw as int,
                ph as int,
                j,
                p as int + 1,
                0,
                0,
            ) == done_slot(pw as int, ph as int, j, p as int, y0 as int, dx as int) by {
                lemma_done_pass_step(
                    pw as int,
                    ph as int,
                    p as int,
                    dy as int,
                    dx as int,
                    y0 as int,
                    j,
                );
            }
        }
        p = p + 1;
    }
    proof {
        assert forall|j: int| 0 <= j < orig.len() implies flows@[j] == exchanged(
            orig,
            pw as int,
            ph as int,
        )[j] by {
            lemma_done_all(pw as int, ph as int, j);
        }
        assert(flows@ =~= exchanged(orig, pw as int, ph as int));
    }
}

/// A cell index splits into its coordinates.
pub proof fn lemma_cell_decompose(pw: int, k: int)
    requires
        0 < pw,
        0 <= k,
    ensures
        k == (k / pw) * pw + (k % pw),
        0 <= k % pw < pw,
        0 <= k / pw,
{
    vstd::arithmetic::div_mod::lemma_fundamental_div_mod(k, pw);
    vstd::arithmetic::div_mod::lemma_mod_bound(k, pw);
    vstd::arithmetic::div_mod::lemma_div_pos_is_pos(k, pw);
    assert(k == (k / pw) * pw + (k % pw)) by (nonlinear_arith)
        requires
            k == pw * (k / pw) + k % pw,
    ;
}

/// The arena indices of a cell's eight neighbors are the cell's own index
/// shifted by at most one row and one column, and they all stay inside the
/// arena when the cell has a full window around it.
pub proof fn lemma_neighbor_indices(pw: int, ph: int, x: int, y: int)
    requires
        0 < pw,
        0 < ph,
        1 <= x < pw - 1,
        1 <= y < ph - 1,
    ensures
        (y - 1) * pw == y * pw - pw,
        (y + 1) * pw == y * pw + pw,
        pw + 1 <= y * pw + x,
        y * pw + x + pw + 1 < pw * ph,
{
    assert((y - 1) * pw == y * pw - pw && (y + 1) * pw == y * pw + pw && pw + 1 <= y * pw + x && y
        * pw + x + pw + 1 < pw * ph) by (nonlinear_arith)
        requires
            0 < pw,
            0 < ph,
            1 <= x < pw - 1,
            1 <= y < ph - 1,
    ;
}

/// The cells adjacent to `(x, y)` in a padded arena, one per direction.
pub open spec fn nbrs_at<C>(s: Seq<C>, pw: int, x: int, y: int) -> crate::neighborhood::NeumannNeighbors<C> {
    crate::neighborhood::NeumannNeighbors {
        right: s[y * pw + x + 1],
        up_right: s[(y - 1) * pw + x + 1],
        up: s[(y - 1) * pw + x],
        up_left: s[(y - 1) * pw + x - 1],
        left: s[y * pw + x - 1],
        down_left: s[(y + 1) * pw + x - 1],
        down: s[(y + 1) * pw + x],
        down_right: s[(y + 1) * pw + x + 1],
    }
}

/// Whether `(x, y)` takes part in a phase that runs on all cells further
/// than `pad` from the arena edge.
pub open spec fn active(pw: int, ph: int, pad: int, x: int, y: int) -> bool {
    &&& pad <= x < pw - pad
    &&& pad <= y < ph - pad
}

/// The diff cell `(x, y)` computes from the old arena.
pub open spec fn diff_at<S: crate::sim::Sim>(sim: S, s: Seq<S::Cell>, pw: int, x: int, y: int) -> S::Diff {
    sim.s_compute(s[y * pw + x], nbrs_at(s, pw, x, y))
}

/// What the diff pass leaves in slot `k`: the cell's computed diff where
/// the cell is active, the padding diff elsewhere.
pub open spec fn diff_slot<S: crate::sim::Sim>(
    sim: S,
    s: Seq<S::Cell>,
    pw: int,
    ph: int,
    pad: int,
    k: int,
) -> S::Diff {
    if active(pw, ph, pad, k % pw, k / pw) {
        diff_at(sim, s, pw, k % pw, k / pw)
    } else {
        sim.s_diff_padding()
    }
}

/// The whole diff arena the diff pass produces.
pub open spec fn diffs_flat<S: crate::sim::Sim>(
    sim: S,
    s: Seq<S::Cell>,
    pw: int,
    ph: int,
    pad: int,
) -> Seq<S::Diff> {
    Seq::new((pw * ph) as nat, |k: int| diff_slot(sim, s, pw, ph, pad, k))
}

/// What egress does at an active cell: its new state and its emitted
/// flows, as a function of the old arena alone.
pub open spec fn egress_pair_at<S: crate::sim::Sim>(sim: S, s: Seq<S::Cell>, pw: int, x: int, y: int) -> (
    S::Cell,
    crate::neighborhood::NeumannNeighbors<S::Flow>,
) {
    sim.s_egress(s[y * pw + x], diff_at(sim, s, pw, x, y))
}

/// The cell at `(x, y)` after the egress pass.
pub open spec fn egressed_cell<S: crate::sim::Sim>(
    sim: S,
    s: Seq<S::Cell>,
    pw: int,
    ph: int,
    pad: int,
    x: int,
    y: int,
) -> S::Cell {
    if active(pw, ph, pad, x, y) {
        egress_pair_at(sim, s, pw, x, y).0
    } else {
        s[y * pw + x]
    }
}

/// One padding flow per direction.
pub open spec fn pad_flows<S: crate::sim::Sim>(sim: S) -> crate::neighborhood::NeumannNeighbors<S::Flow> {
    crate::neighborhood::NeumannNeighbors {
        right: sim.s_flow_padding(),
        up_right: sim.s_flow_padding(),
        up: sim.s_flow_padding(),
        up_left: sim.s_flow_padding(),
        left: sim.s_flow_padding(),
        down_left: sim.s_flow_padding(),
        down: sim.s_flow_padding(),
        down_right: sim.s_flow_padding(),
    }
}

/// The flows cell `(x, y)` emits during the egress pass: its computed
/// flows where it is active, padding flows elsewhere.
pub open spec fn outflow_at<S: crate::sim::Sim>(
    sim: S,
    s: Seq<S::Cell>,
    pw: int,
    ph: int,
    pad: int,
    x: int,
    y: int,
) -> crate::neighborhood::NeumannNeighbors<S::Flow> {
    if active(pw, ph, pad, x, y) {
        egress_pair_at(sim, s, pw, x, y).1
    } else {
        pad_flows(sim)
    }
}

/// The whole flow arena the egress pass produces.
pub open spec fn outflows_flat<S: crate::sim::Sim>(
    sim: S,
    s: Seq<S::Cell>,
    pw: int,
    ph: int,
    pad: int,
) -> Seq<S::Flow> {
    Seq::new(
        (pw * ph * 8) as nat,
        |j: int| outflow_at(sim, s, pw, ph, pad, slot_x(pw, j), slot_y(pw, j)).as_seq()[slot_d(j)],
    )
}

/// The eight slots of cell `(x, y)` in a flow arena, as a container.
pub open spec fn gather_at<F>(f: Seq<F>, pw: int, x: int, y: int) -> crate::neighborhood::NeumannNeighbors<F> {
    crate::neighborhood::NeumannNeighbors {
        right: f[slot_of(pw, x, y, 0)],
        up_right: f[slot_of(pw, x, y, 1)],
        up: f[slot_of(pw, x, y, 2)],
        up_left: f[slot_of(pw, x, y, 3)],
        left: f[slot_of(pw, x, y, 4)],
        down_left: f[slot_of(pw, x, y, 5)],
        down: f[slot_of(pw, x, y, 6)],
        down_right: f[slot_of(pw, x, y, 7)],
    }
}

/// The flows that arrive at cell `(x, y)`: from each direction, what the
/// neighbor there emitted toward the opposite direction.
pub open spec fn inflows_at<S: crate::sim::Sim>(
    sim: S,
    s: Seq<S::Cell>,
    pw: int,
    ph: int,
    pad: int,
    x: int,
    y: int,
) -> crate::neighborhood::NeumannNeighbors<S::Flow> {
    crate::neighborhood::NeumannNeighbors {
        right: outflow_at(sim, s, pw, ph, pad, x + 1, y).left,
        up_right: outflow_at(sim, s, pw, ph, pad, x + 1, y - 1).down_left,
        up: outflow_at(sim, s, pw, ph, pad, x, y - 1).down,
        up_left: outflow_at(sim, s, pw, ph, pad, x - 1, y - 1).down_right,
        left: outflow_at(sim, s, pw, ph, pad, x - 1, y).right,
        down_left: outflow_at(sim, s, pw, ph, pad, x - 1, y + 1).up_right,
        down: outflow_at(sim, s, pw, ph, pad, x, y + 1).up,
        down_right: outflow_at(sim, s, pw, ph, pad, x + 1, y + 1).up_left,
    }
}

/// The cell at `(x, y)` after a whole step over a padded arena `s`:
/// egress applies each active cell's diff, and every interior cell then
/// merges the flows that arrived from its neighbors.
pub open spec fn step_cell<S: crate::sim::Sim>(
    sim: S,
    s: Seq<S::Cell>,
    pw: int,
    ph: int,
    pad: int,
    x: int,
    y: int,
) -> S::Cell {
    let mid = egressed_cell(sim, s, pw, ph, pad, x, y);
    if active(pw, ph, 2, x, y) {
        sim.s_ingress(mid, inflows_at(sim, s, pw, ph, pad, x, y))
    } else {
        mid
    }
}

/// Gathering a cell's slots out of the exchanged flow arena yields exactly
/// the flows its neighbors emitted toward it.
pub proof fn lemma_gather_exchanged<S: crate::sim::Sim>(
    sim: S,
    s: Seq<S::Cell>,
    pw: int,
    ph: int,
    pad: int,
    x: int,
    y: int,
)
    requires
        5 <= pw,
        5 <= ph,
        2 <= x < pw - 2,
        2 <= y < ph - 2,
    ensures
        gather_at(exchanged(outflows_flat(sim, s, pw, ph, pad), pw, ph), pw, x, y) == inflows_at(
            sim,
            s,
            pw,
            ph,
            pad,
            x,
            y,
        ),
{
    let f0 = outflows_flat(sim, s, pw, ph, pad);
    let fx = exchanged(f0, pw, ph);
    lemma_slot_compose(pw, x, y, 0);
    lemma_slot_bounds(pw, ph, x, y, 0);
    lemma_slot_compose(pw, x + 1, y, 4);
    lemma_slot_bounds(pw, ph, x + 1, y, 4);
    assert(fx[slot_of(pw, x, y, 0)] == outflow_at(sim, s, pw, ph, pad, x + 1, y).left);
    lemma_slot_compose(pw, x, y, 1);
    lemma_slot_bounds(pw, ph, x, y, 1);
    lemma_slot_compose(pw, x + 1, y - 1, 5);
    lemma_slot_bounds(pw, ph, x + 1, y - 1, 5);
    assert(fx[slot_of(pw, x, y, 1)] == outflow_at(sim, s, pw, ph, pad, x + 1, y - 1).down_left);
    lemma_slot_compose(pw, x, y, 2);
    lemma_slot_bounds(pw, ph, x, y, 2);
    lemma_slot_compose(pw, x, y - 1, 6);
    lemma_slot_bounds(pw, ph, x, y - 1, 6);
    assert(fx[slot_of(pw, x, y, 2)] == outflow_at(sim, s, pw, ph, pad, x, y - 1).down);
    lemma_slot_compose(pw, x, y, 3);
    lemma_slot_bounds(pw, ph, x, y, 3);
    lemma_slot_compose(pw, x - 1, y - 1, 7);
    lemma_slot_bounds(pw, ph, x - 1, y - 1, 7);
    assert(fx[slot_of(pw, x, y, 3)] == outflow_at(sim, s, pw, ph, pad, x - 1, y - 1).down_right);
    lemma_slot_compose(pw, x, y, 4);
    lemma_slot_bounds(pw, ph, x, y, 4);
    lemma_slot_compose(pw, x - 1, y, 0);
    lemma_slot_bounds(pw, ph, x - 1, y, 0);
    assert(fx[slot_of(pw, x, y, 4)] == outflow_at(sim, s, pw, ph, pad, x - 1, y).right);
    lemma_slot_compose(pw, x, y, 5);
    lemma_slot_bounds(pw, ph, x, y, 5);
    lemma_slot_compose(pw, x - 1, y + 1, 1);
    lemma_slot_bounds(pw, ph, x - 1, y + 1, 1);
    assert(fx[slot_of(pw, x, y, 5)] == outflow_at(sim, s, pw, ph, pad, x - 1, y + 1).up_right);
    lemma_slot_compose(pw, x, y, 6);
    lemma_slot_bounds(pw, ph, x, y, 6);
    lemma_slot_compose(pw, x, y + 1, 2);
    lemma_slot_bounds(pw, ph, x, y + 1, 2);
    assert(fx[slot_of(pw, x, y, 6)] == outflow_at(sim, s, pw, ph, pad, x, y + 1).up);
    lemma_slot_compose(pw, x, y, 7);
    lemma_slot_bounds(pw, ph, x, y, 7);
    lemma_slot_compose(pw, x + 1, y + 1, 3);
    lemma_slot_bounds(pw, ph, x + 1, y + 1, 3);
    assert(fx[slot_of(pw, x, y, 7)] == outflow_at(sim, s, pw, ph, pad, x + 1, y + 1).up_left);
}

/// The cell the egress pass leaves in arena slot `k`.
pub open spec fn egressed_slot<S: crate::sim::Sim>(
    sim: S,
    s: Seq<S::Cell>,
    pw: int,
    ph: int,
    pad: int,
    k: int,
) -> S::Cell {
    egressed_cell(sim, s, pw, ph, pad, k % pw, k / pw)
}

/// The cell the ingress pass leaves in arena slot `k`, given the arena
/// `s1` after egress and the exchanged flow arena `f`.
pub open spec fn ingressed_slot<S: crate::sim::Sim>(
    sim: S,
    s1: Seq<S::Cell>,
    f: Seq<S::Flow>,
    pw: int,
    ph: int,
    k: int,
) -> S::Cell {
    let x = k % pw;
    let y = k / pw;
    if active(pw, ph, 2, x, y) {
        sim.s_ingress(s1[k], gather_at(f, pw, x, y))
    } else {
        s1[k]
    }
}

/// A padded arena with its whole border replaced by the rule's padding
/// cell.
pub open spec fn const_padded<S: crate::sim::Sim>(sim: S, s: Seq<S::Cell>, pw: int, ph: int) -> Seq<
    S::Cell,
> {
    Seq::new(
        s.len(),
        |k: int|
            if active(pw, ph, 2, k % pw, k / pw) {
                s[k]
            } else {
                sim.s_cell_padding()
            },
    )
}

/// A padded arena with its whole border replaced by toroidal wraparound
/// copies of the interior.
pub open spec fn wrap_padded<C>(s: Seq<C>, pw: int, ph: int) -> Seq<C> {
    Seq::new(
        s.len(),
        |k: int|
            {
                let x = k % pw;
                let y = k / pw;
                s[(2 + (y - 2) % (ph - 4)) * pw + (2 + (x - 2) % (pw - 4))]
            },
    )
}

/// The interior cells of a padded arena, row-major.
pub open spec fn interior_of<C>(s: Seq<C>, pw: int, ph: int) -> Seq<C> {
    Seq::new(
        ((pw - 4) * (ph - 4)) as nat,
        |j: int| s[(2 + j / (pw - 4)) * pw + (2 + j % (pw - 4))],
    )
}

} // verus!
