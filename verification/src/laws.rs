//! The laws the step pipeline obeys: order independence of a phase, the
//! flow round trip, seam-free toroidal wrapping, and the equivalence of a
//! halo-loaded tile step with the step of the logical grid it belongs to.

use vstd::prelude::*;

use crate::direction::Neumann;
use crate::direction::spec_inv;
use crate::neighborhood::NeumannNeighbors;
use crate::sim::Sim;
use crate::grid::lemma_row_major_bounds;
use crate::grid::lemma_row_major_decompose;
use crate::halo::recv_region;
use crate::halo::send_region;
use crate::step::active;
use crate::step::diff_slot;
use crate::step::diffs_flat;
use crate::step::inflows_at;
use crate::step::interior_of;
use crate::step::nbrs_at;
use crate::step::outflow_at;
use crate::step::step_cell;
use crate::step::wrap_padded;

verus! {

/// Write `f(p)` to slot `p` of `init` for every `p` in `order`, in that
/// order.  This models one phase of the scheduler: each visit of a cell
/// writes exactly that cell's slot with a value read off the fixed old
/// state, so the visits may happen in any order.
pub open spec fn scatter<V>(init: Seq<V>, order: Seq<int>, f: spec_fn(int) -> V) -> Seq<V>
    decreases order.len(),
{
    if order.len() == 0 {
        init
    } else {
        scatter(init, order.drop_last(), f).update(order.last(), f(order.last()))
    }
}

/// After a scatter, every visited slot holds its own value and every other
/// slot is untouched — regardless of the visit order.
pub proof fn lemma_scatter_pointwise<V>(init: Seq<V>, order: Seq<int>, f: spec_fn(int) -> V)
    requires
        forall|i: int| 0 <= i < order.len() ==> 0 <= #[trigger] order[i] < init.len(),
    ensures
        scatter(init, order, f).len() == init.len(),
        forall|k: int|
            0 <= k < init.len() ==> scatter(init, order, f)[k] == (if order.contains(k) {
                f(k)
            } else {
                init[k]
            }),
    decreases order.len(),
{
    if order.len() == 0 {
    } else {
        let pre = order.drop_last();
        lemma_scatter_pointwise(init, pre, f);
        assert forall|k: int| 0 <= k < init.len() implies scatter(init, order, f)[k] == (
        if order.contains(k) {
            f(k)
        } else {
            init[k]
        }) by {
            if k == order.last() {
                assert(order.contains(k));
            } else {
                if order.contains(k) {
                    let i = choose|i: int| 0 <= i < order.len() && order[i] == k;
                    assert(pre[i] == k);
                    assert(pre.contains(k));
                }
                if pre.contains(k) {
                    let i = choose|i: int| 0 <= i < pre.len() && pre[i] == k;
                    assert(order[i] == k);
                    assert(order.contains(k));
                }
            }
        }
    }
}

/// Order independence: two phase runs over the same set of cells, in any
/// two visitation orders, leave the state identical.
pub proof fn lemma_phase_order_independent<V>(
    init: Seq<V>,
    order1: Seq<int>,
    order2: Seq<int>,
    f: spec_fn(int) -> V,
)
    requires
        forall|i: int| 0 <= i < order1.len() ==> 0 <= #[trigger] order1[i] < init.len(),
        forall|i: int| 0 <= i < order2.len() ==> 0 <= #[trigger] order2[i] < init.len(),
        order1.to_set() == order2.to_set(),
    ensures
        scatter(init, order1, f) == scatter(init, order2, f),
{
    lemma_scatter_pointwise(init, order1, f);
    lemma_scatter_pointwise(init, order2, f);
    assert forall|k: int| #[trigger] order1.contains(k) implies order2.contains(k) by {
        assert(order1.to_set().contains(k));
    }
    assert forall|k: int| #[trigger] order2.contains(k) implies order1.contains(k) by {
        assert(order2.to_set().contains(k));
    }
    assert(scatter(init, order1, f) =~= scatter(init, order2, f));
}

/// The diff pass as a scatter: visiting every slot of the arena once, in
/// any order, writing each cell's diff, produces exactly the diff arena of
/// the step — the phase's result does not depend on the visitation order.
pub proof fn lemma_compute_phase_order_independent<S: Sim>(
    sim: S,
    s: Seq<S::Cell>,
    pw: int,
    ph: int,
    pad: int,
    init: Seq<S::Diff>,
    order: Seq<int>,
)
    requires
        0 < pw,
        0 < ph,
        init.len() == pw * ph,
        forall|i: int| 0 <= i < order.len() ==> 0 <= #[trigger] order[i] < pw * ph,
        forall|k: int| 0 <= k < pw * ph ==> order.contains(k),
    ensures
        scatter(init, order, |k: int| diff_slot(sim, s, pw, ph, pad, k)) == diffs_flat(
            sim,
            s,
            pw,
            ph,
            pad,
        ),
{
    let f = |k: int| diff_slot(sim, s, pw, ph, pad, k);
    lemma_scatter_pointwise(init, order, f);
    assert(scatter(init, order, f) =~= diffs_flat(sim, s, pw, ph, pad));
}

/// The egress pass as a scatter: visiting every cell once, in any order,
/// writing each cell's egressed state, produces exactly the arena the step
/// uses — egress does not depend on the visitation order either.  (Each
/// visit also writes the cell's own eight flow slots; writes to disjoint
/// slots commute the same way.)
pub proof fn lemma_egress_phase_order_independent<S: Sim>(
    sim: S,
    s: Seq<S::Cell>,
    pw: int,
    ph: int,
    pad: int,
    init: Seq<S::Cell>,
    order: Seq<int>,
)
    requires
        0 < pw,
        0 < ph,
        init.len() == pw * ph,
        forall|i: int| 0 <= i < order.len() ==> 0 <= #[trigger] order[i] < pw * ph,
        forall|k: int| 0 <= k < pw * ph ==> order.contains(k),
    ensures
        scatter(init, order, |k: int| crate::step::egressed_slot(sim, s, pw, ph, pad, k))
            == Seq::new(
            (pw * ph) as nat,
            |k: int| crate::step::egressed_slot(sim, s, pw, ph, pad, k),
        ),
{
    let f = |k: int| crate::step::egressed_slot(sim, s, pw, ph, pad, k);
    lemma_scatter_pointwise(init, order, f);
    assert(scatter(init, order, f) =~= Seq::new((pw * ph) as nat, f));
}

/// The ingress pass as a scatter: visiting every cell once, in any order,
/// merging each interior cell's arrived flows, produces exactly the final
/// arena of the step — no phase of the pipeline depends on the visitation
/// order.
pub proof fn lemma_ingress_phase_order_independent<S: Sim>(
    sim: S,
    s1: Seq<S::Cell>,
    f: Seq<S::Flow>,
    pw: int,
    ph: int,
    order: Seq<int>,
)
    requires
        0 < pw,
        0 < ph,
        s1.len() == pw * ph,
        forall|i: int| 0 <= i < order.len() ==> 0 <= #[trigger] order[i] < pw * ph,
        forall|k: int| 0 <= k < pw * ph ==> order.contains(k),
    ensures
        scatter(s1, order, |k: int| crate::step::ingressed_slot(sim, s1, f, pw, ph, k))
            == Seq::new((pw * ph) as nat, |k: int| crate::step::ingressed_slot(sim, s1, f, pw, ph, k)),
{
    let g = |k: int| crate::step::ingressed_slot(sim, s1, f, pw, ph, k);
    lemma_scatter_pointwise(s1, order, g);
    assert(scatter(s1, order, g) =~= Seq::new((pw * ph) as nat, g));
}

/// Flow round trip: the flow a cell emits toward `d` is exactly the flow
/// its neighbor at `d` receives from the direction opposite to `d`.
pub proof fn lemma_flow_round_trip<S: Sim>(
    sim: S,
    s: Seq<S::Cell>,
    pw: int,
    ph: int,
    pad: int,
    x: int,
    y: int,
    d: Neumann,
)
    ensures
        inflows_at(
            sim,
            s,
            pw,
            ph,
            pad,
            x + d.spec_delta().0,
            y + d.spec_delta().1,
        ).spec_index(spec_inv(d)) == outflow_at(sim, s, pw, ph, pad, x, y).spec_index(d),
{
}

/// The cell of a toroidal interior grid at any integer coordinates,
/// reduced modulo the grid size.
pub open spec fn mod_cell<C>(g: Seq<C>, w: int, h: int, x: int, y: int) -> C {
    g[(y % h) * w + (x % w)]
}

/// The neighborhood of a toroidal grid cell, by direct modulo lookup.
pub open spec fn mod_nbrs<C>(g: Seq<C>, w: int, h: int, x: int, y: int) -> NeumannNeighbors<C> {
    NeumannNeighbors {
        right: mod_cell(g, w, h, x + 1, y),
        up_right: mod_cell(g, w, h, x + 1, y - 1),
        up: mod_cell(g, w, h, x, y - 1),
        up_left: mod_cell(g, w, h, x - 1, y - 1),
        left: mod_cell(g, w, h, x - 1, y),
        down_left: mod_cell(g, w, h, x - 1, y + 1),
        down: mod_cell(g, w, h, x, y + 1),
        down_right: mod_cell(g, w, h, x + 1, y + 1),
    }
}

/// What egress does at a toroidal grid cell, by direct modulo lookup.
pub open spec fn mod_egress<S: Sim>(sim: S, g: Seq<S::Cell>, w: int, h: int, x: int, y: int) -> (
    S::Cell,
    NeumannNeighbors<S::Flow>,
) {
    sim.s_egress(
        mod_cell(g, w, h, x, y),
        sim.s_compute(mod_cell(g, w, h, x, y), mod_nbrs(g, w, h, x, y)),
    )
}

/// The flows arriving at a toroidal grid cell, by direct modulo lookup.
pub open spec fn mod_inflows<S: Sim>(
    sim: S,
    g: Seq<S::Cell>,
    w: int,
    h: int,
    x: int,
    y: int,
) -> NeumannNeighbors<S::Flow> {
    NeumannNeighbors {
        right: mod_egress(sim, g, w, h, x + 1, y).1.left,
        up_right: mod_egress(sim, g, w, h, x + 1, y - 1).1.down_left,
        up: mod_egress(sim, g, w, h, x, y - 1).1.down,
        up_left: mod_egress(sim, g, w, h, x - 1, y - 1).1.down_right,
        left: mod_egress(sim, g, w, h, x - 1, y).1.right,
        down_left: mod_egress(sim, g, w, h, x - 1, y + 1).1.up_right,
        down: mod_egress(sim, g, w, h, x, y + 1).1.up,
        down_right: mod_egress(sim, g, w, h, x + 1, y + 1).1.up_left,
    }
}

/// One whole step of a toroidal interior grid at a cell, computed with
/// direct modulo-indexed neighbor lookup and no padding at all: the
/// reference semantics that the padded pipeline must match.
pub open spec fn mod_step_cell<S: Sim>(
    sim: S,
    g: Seq<S::Cell>,
    w: int,
    h: int,
    x: int,
    y: int,
) -> S::Cell {
    sim.s_ingress(mod_egress(sim, g, w, h, x, y).0, mod_inflows(sim, g, w, h, x, y))
}

/// The padded arena of one tile of a logical toroidal grid: the tile's
/// interior is the `tw` by `th` block of the grid at origin `(ox, oy)`,
/// and its two-deep padding holds the toroidal neighbors of that block —
/// exactly what a completed halo exchange leaves in the tile.
pub open spec fn tile_view<C>(
    g: Seq<C>,
    w: int,
    h: int,
    ox: int,
    oy: int,
    tw: int,
    th: int,
) -> Seq<C> {
    Seq::new(
        ((tw + 4) * (th + 4)) as nat,
        |k: int| mod_cell(g, w, h, ox + k % (tw + 4) - 2, oy + k / (tw + 4) - 2),
    )
}

/// A grid arena whose slot `k` is a function of its coordinates has the
/// neighborhood given by that function, around any cell with a full
/// window.
proof fn lemma_grid_fn_window<C>(
    s: Seq<C>,
    pw: int,
    ph: int,
    f: spec_fn(int, int) -> C,
    x: int,
    y: int,
)
    requires
        0 < pw,
        0 < ph,
        s.len() == pw * ph,
        forall|k: int| 0 <= k < s.len() ==> s[k] == f(k % pw, k / pw),
        1 <= x < pw - 1,
        1 <= y < ph - 1,
    ensures
        s[y * pw + x] == f(x, y),
        nbrs_at(s, pw, x, y) == (NeumannNeighbors {
            right: f(x + 1, y),
            up_right: f(x + 1, y - 1),
            up: f(x, y - 1),
            up_left: f(x - 1, y - 1),
            left: f(x - 1, y),
            down_left: f(x - 1, y + 1),
            down: f(x, y + 1),
            down_right: f(x + 1, y + 1),
        }),
{
    let ghost coords: Seq<(int, int)> = seq![
        (x, y),
        (x + 1, y),
        (x + 1, y - 1),
        (x, y - 1),
        (x - 1, y - 1),
        (x - 1, y),
        (x - 1, y + 1),
        (x, y + 1),
        (x + 1, y + 1),
    ];
    assert forall|i: int| 0 <= i < coords.len() implies s[coords[i].1 * pw + coords[i].0] == f(
        coords[i].0,
        coords[i].1,
    ) by {
        lemma_row_major_bounds(pw, ph, coords[i].0, coords[i].1);
        lemma_row_major_decompose(pw, coords[i].0, coords[i].1);
    }
    assert(s[y * pw + x] == f(x, y)) by {
        assert(coords[0] == (x, y));
    }
    assert(s[y * pw + (x + 1)] == f(x + 1, y)) by {
        assert(coords[1] == (x + 1, y));
    }
    assert(s[(y - 1) * pw + (x + 1)] == f(x + 1, y - 1)) by {
        assert(coords[2] == (x + 1, y - 1));
    }
    assert(s[(y - 1) * pw + x] == f(x, y - 1)) by {
        assert(coords[3] == (x, y - 1));
    }
    assert(s[(y - 1) * pw + (x - 1)] == f(x - 1, y - 1)) by {
        assert(coords[4] == (x - 1, y - 1));
    }
    assert(s[y * pw + (x - 1)] == f(x - 1, y)) by {
        assert(coords[5] == (x - 1, y));
    }
    assert(s[(y + 1) * pw + (x - 1)] == f(x - 1, y + 1)) by {
        assert(coords[6] == (x - 1, y + 1));
    }
    assert(s[(y + 1) * pw + x] == f(x, y + 1)) by {
        assert(coords[7] == (x, y + 1));
    }
    assert(s[(y + 1) * pw + (x + 1)] == f(x + 1, y + 1)) by {
        assert(coords[8] == (x + 1, y + 1));
    }
}

/// Halo equivalence: a tile whose padding holds the toroidal neighbors of
/// its block — the state a completed halo exchange establishes — steps
/// every one of its interior cells to exactly the value the logical grid's
/// toroidal step gives that cell.  Running a region as one tile or as many
/// therefore produces the same states, step after step: after each step
/// the next halo exchange re-establishes the premise and this law applies
/// again.
pub proof fn lemma_halo_equivalence<S: Sim>(
    sim: S,
    g: Seq<S::Cell>,
    w: int,
    h: int,
    ox: int,
    oy: int,
    tw: int,
    th: int,
    x: int,
    y: int,
)
    requires
        1 <= w,
        1 <= h,
        1 <= tw,
        1 <= th,
        g.len() == w * h,
        0 <= x < tw,
        0 <= y < th,
    ensures
        step_cell(sim, tile_view(g, w, h, ox, oy, tw, th), tw + 4, th + 4, 1, x + 2, y + 2)
            == mod_step_cell(sim, g, w, h, ox + x, oy + y),
{
    let tv = tile_view(g, w, h, ox, oy, tw, th);
    let pw = tw + 4;
    let ph = th + 4;
    let f = |a: int, b: int| mod_cell(g, w, h, ox + a - 2, oy + b - 2);
    assert forall|k: int| 0 <= k < tv.len() implies tv[k] == f(k % pw, k / pw) by {
    }
    let px = x + 2;
    let py = y + 2;
    assert forall|a: int, b: int| 1 <= a < pw - 1 && 1 <= b < ph - 1 implies #[trigger] crate::step::egress_pair_at(
        sim,
        tv,
        pw,
        a,
        b,
    ) == mod_egress(sim, g, w, h, ox + a - 2, oy + b - 2) by {
        lemma_grid_fn_window(tv, pw, ph, f, a, b);
        assert(nbrs_at(tv, pw, a, b) == mod_nbrs(g, w, h, ox + a - 2, oy + b - 2));
    }
    assert(active(pw, ph, 2, px, py));
    assert(active(pw, ph, 1, px, py));
    assert(crate::step::egressed_cell(sim, tv, pw, ph, 1, px, py) == mod_egress(
        sim,
        g,
        w,
        h,
        ox + x,
        oy + y,
    ).0);
    assert(inflows_at(sim, tv, pw, ph, 1, px, py) == mod_inflows(sim, g, w, h, ox + x, oy + y));
}

/// Toroidal wrap correctness: refreshing the padding by wraparound and
/// running the padded pipeline gives every interior cell exactly the value
/// that direct modulo-indexed neighbor lookup gives it — the seam behaves
/// like every other part of the torus.
pub proof fn lemma_toroidal_wrap<S: Sim>(sim: S, s: Seq<S::Cell>, pw: int, ph: int, x: int, y: int)
    requires
        5 <= pw,
        5 <= ph,
        s.len() == pw * ph,
        0 <= x < pw - 4,
        0 <= y < ph - 4,
    ensures
        step_cell(sim, wrap_padded(s, pw, ph), pw, ph, 1, x + 2, y + 2) == mod_step_cell(
            sim,
            interior_of(s, pw, ph),
            pw - 4,
            ph - 4,
            x,
            y,
        ),
{
    let w = pw - 4;
    let h = ph - 4;
    let g = interior_of(s, pw, ph);
    assert(wrap_padded(s, pw, ph) =~= tile_view(g, w, h, 0, 0, w, h)) by {
        assert((w + 4) * (h + 4) == pw * ph);
        assert forall|k: int| 0 <= k < pw * ph implies wrap_padded(s, pw, ph)[k] == tile_view(
            g,
            w,
            h,
            0,
            0,
            w,
            h,
        )[k] by {
            let a = k % pw;
            let b = k / pw;
            let mx = (a - 2) % w;
            let my = (b - 2) % h;
            vstd::arithmetic::div_mod::lemma_mod_bound(a - 2, w);
            vstd::arithmetic::div_mod::lemma_mod_bound(b - 2, h);
            lemma_row_major_bounds(w, h, mx, my);
            lemma_row_major_decompose(w, mx, my);
        }
    }
    lemma_halo_equivalence(sim, g, w, h, 0, 0, w, h, x, y);
}

/// The cell at position `j` of the strip a neighbor tile sends toward
/// this tile: position `j` of its `edge_cells` facing back, when its
/// interior is the logical block at its origin.
pub open spec fn sent_cell<C>(
    g: Seq<C>,
    w: int,
    h: int,
    nox: int,
    noy: int,
    ntw: int,
    nth: int,
    d: Neumann,
    j: int,
) -> C {
    let sr = send_region(ntw, nth, spec_inv(d));
    mod_cell(g, w, h, nox + sr.0 + j % sr.2, noy + sr.1 + j / sr.2)
}

/// The cell this tile's padding needs at position `j` of the region facing
/// `d`: the logical grid's toroidal cell under the padded coordinates that
/// `load_padding` fills with position `j`.
pub open spec fn needed_cell<C>(
    g: Seq<C>,
    w: int,
    h: int,
    ox: int,
    oy: int,
    tw: int,
    th: int,
    d: Neumann,
    j: int,
) -> C {
    let rr = recv_region(tw, th, d);
    mod_cell(g, w, h, ox + rr.0 + j % rr.2 - 2, oy + rr.1 + j / rr.2 - 2)
}

/// Two toroidal coordinates that differ by multiples of the grid size name
/// the same cell.
proof fn lemma_mod_cell_congruent<C>(g: Seq<C>, w: int, h: int, x1: int, y1: int, x2: int, y2: int)
    requires
        1 <= w,
        1 <= h,
        (x1 - x2) % w == 0,
        (y1 - y2) % h == 0,
    ensures
        mod_cell(g, w, h, x1, y1) == mod_cell(g, w, h, x2, y2),
{
    vstd::arithmetic::div_mod::lemma_mod_equivalence(x1, x2, w);
    vstd::arithmetic::div_mod::lemma_mod_equivalence(y1, y2, h);
}

/// The halo strips pair up: what a neighbor tile sends back toward this
/// tile is, position by position, exactly what this tile's padding region
/// facing that neighbor needs.  Together with the contracts of
/// `edge_cells` and `load_padding`, a tile whose eight neighbors hold
/// their logical blocks ends the exchange holding the toroidal
/// surroundings of its own block — the premise of the halo equivalence
/// law.
pub proof fn lemma_halo_strips_agree<C>(
    g: Seq<C>,
    w: int,
    h: int,
    ox: int,
    oy: int,
    tw: int,
    th: int,
    nox: int,
    noy: int,
    ntw: int,
    nth: int,
    d: Neumann,
    j: int,
)
    requires
        1 <= w,
        1 <= h,
        2 <= tw,
        2 <= th,
        2 <= ntw,
        2 <= nth,
        d.spec_delta().0 == 1 ==> (nox - (ox + tw)) % w == 0,
        d.spec_delta().0 == -1 ==> (nox + ntw - ox) % w == 0,
        d.spec_delta().0 == 0 ==> (nox - ox) % w == 0 && ntw == tw,
        d.spec_delta().1 == 1 ==> (noy - (oy + th)) % h == 0,
        d.spec_delta().1 == -1 ==> (noy + nth - oy) % h == 0,
        d.spec_delta().1 == 0 ==> (noy - oy) % h == 0 && nth == th,
        0 <= j,
    ensures
        send_region(ntw, nth, spec_inv(d)).2 == recv_region(tw, th, d).2,
        send_region(ntw, nth, spec_inv(d)).3 == recv_region(tw, th, d).3,
        sent_cell(g, w, h, nox, noy, ntw, nth, d, j) == needed_cell(g, w, h, ox, oy, tw, th, d, j),
{
    let sr = send_region(ntw, nth, spec_inv(d));
    let rr = recv_region(tw, th, d);
    lemma_mod_cell_congruent(
        g,
        w,
        h,
        nox + sr.0 + j % sr.2,
        noy + sr.1 + j / sr.2,
        ox + rr.0 + j % rr.2 - 2,
        oy + rr.1 + j / rr.2 - 2,
    );
}

/// A grid's interior sequence is the interior of its padded arena.
pub proof fn lemma_interior_of_grid<S: Sim>(g: crate::grid::SquareGrid<S>)
    requires
        g.wf(),
    ensures
        interior_of(g.grid(), g.pw(), g.ph()) == g.interior(),
{
    assert(interior_of(g.grid(), g.pw(), g.ph()) =~= g.interior());
}

/// Toroidal wrap correctness, stated against `step_torus` itself: a grid
/// that stepped on the torus holds, in every interior cell, exactly what
/// direct modulo-indexed neighbor lookup computes from the old interior —
/// there is no seam artifact at the border.
pub proof fn lemma_step_torus_matches_modulo<S: Sim>(
    pre: crate::grid::SquareGrid<S>,
    post: crate::grid::SquareGrid<S>,
    x: int,
    y: int,
)
    requires
        pre.wf(),
        post.w() == pre.w(),
        post.h() == pre.h(),
        forall|px: int, py: int|
            0 <= px < post.pw() && 0 <= py < post.ph() ==> post.at(px, py) == step_cell(
                pre.s(),
                wrap_padded(pre.grid(), pre.pw(), pre.ph()),
                pre.pw(),
                pre.ph(),
                1,
                px,
                py,
            ),
        0 <= x < pre.w(),
        0 <= y < pre.h(),
    ensures
        post.interior_at(x, y) == mod_step_cell(pre.s(), pre.interior(), pre.w(), pre.h(), x, y),
{
    lemma_interior_of_grid(pre);
    lemma_toroidal_wrap(pre.s(), pre.grid(), pre.pw(), pre.ph(), x, y);
}

} // verus!
