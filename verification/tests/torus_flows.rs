//! A simulation with meaningful flows: every cell emits its old value
//! tagged with the emitting direction, and every cell replaces itself with
//! the sum of what arrived.  The expected results are computed here by
//! direct modulo-indexed lookup, so a wrong wrap at the seam, a flow
//! delivered to the wrong neighbor, or a flow arriving under the wrong
//! direction all make these tests fail.

use gridsim::Direction;
use gridsim::Neumann;
use gridsim::NeumannNeighbors;
use gridsim::Sim;
use gridsim::SquareGrid;

/// Tags each outgoing flow with its emitter's value and direction.
struct Tag;

/// The marker used as the padding flow; it must never reach a torus cell.
const PAD_FLOW: u64 = 1 << 40;

impl Sim for Tag {
    type Cell = u64;
    type Diff = u64;
    type Flow = u64;

    fn compute(&self, cell: &u64, _neighbors: NeumannNeighbors<&u64>) -> u64 {
        *cell
    }

    fn egress(&self, _cell: &mut u64, diff: u64) -> NeumannNeighbors<u64> {
        NeumannNeighbors::new(|d: Neumann| diff * 16 + d.index() as u64)
    }

    fn ingress(&self, cell: &mut u64, flows: NeumannNeighbors<u64>) {
        let mut sum: u64 = 0;
        for f in flows.into_vec() {
            sum += f;
        }
        *cell = sum;
    }

    fn cell_padding(&self) -> u64 {
        0
    }

    fn diff_padding(&self) -> u64 {
        0
    }

    fn flow_padding(&self) -> u64 {
        PAD_FLOW
    }

    fn clone_cell(&self, cell: &u64) -> u64 {
        *cell
    }
}

/// What a torus step must produce at `(x, y)`, by direct modulo lookup:
/// from each direction `d`, the neighbor there sends its value tagged with
/// the direction it emitted toward, which is the opposite of `d`.
fn expected_torus(v: &[u64], w: usize, h: usize, x: usize, y: usize) -> u64 {
    let mut sum: u64 = 0;
    for d in Neumann::directions() {
        let (dx, dy) = d.delta();
        let nx = (x as isize + dx).rem_euclid(w as isize) as usize;
        let ny = (y as isize + dy).rem_euclid(h as isize) as usize;
        sum += v[ny * w + nx] * 16 + d.inv().index() as u64;
    }
    sum
}

#[test]
fn torus_step_matches_modulo_lookup() {
    let w = 3;
    let h = 3;
    let v: Vec<u64> = (1..=9).collect();
    let mut grid = SquareGrid::new(Tag, w, h, v.clone()).unwrap();
    grid.step_torus();
    let out = grid.cells();
    for y in 0..h {
        for x in 0..w {
            assert_eq!(out[y * w + x], expected_torus(&v, w, h, x, y), "cell ({}, {})", x, y);
            // No padding flow may leak onto the torus.
            assert!(out[y * w + x] < PAD_FLOW);
        }
    }
}

#[test]
fn torus_step_matches_modulo_lookup_rectangular() {
    let w = 4;
    let h = 2;
    let v: Vec<u64> = (10..18).collect();
    let mut grid = SquareGrid::new(Tag, w, h, v.clone()).unwrap();
    grid.step_torus();
    let out = grid.cells();
    for y in 0..h {
        for x in 0..w {
            assert_eq!(out[y * w + x], expected_torus(&v, w, h, x, y), "cell ({}, {})", x, y);
        }
    }
}

#[test]
fn one_cell_torus_receives_only_itself() {
    let mut grid = SquareGrid::new(Tag, 1, 1, vec![7]).unwrap();
    grid.step_torus();
    // All eight neighbors are the cell itself; the direction tags of the
    // eight inverse directions sum to 0 + 1 + ... + 7.
    assert_eq!(grid.cells(), vec![8 * (7 * 16) + 28]);
}

#[test]
fn bounded_step_receives_padding_flow_from_outside() {
    // On a bounded one-cell grid the only arrivals are padding flows.
    let mut grid = SquareGrid::new(Tag, 1, 1, vec![7]).unwrap();
    grid.step_parallel();
    assert_eq!(grid.cells(), vec![8 * PAD_FLOW]);
}

#[test]
fn set_and_get_cells() {
    let mut grid = SquareGrid::new(Tag, 2, 2, vec![1, 2, 3, 4]).unwrap();
    assert_eq!(*grid.get_cell(1, 0), 2);
    grid.set_cell(1, 0, 9);
    assert_eq!(*grid.get_cell(1, 0), 9);
    assert_eq!(grid.cells(), vec![1, 9, 3, 4]);
    assert_eq!(grid.width(), 2);
    assert_eq!(grid.height(), 2);
}

#[test]
fn edge_cells_are_the_facing_interior_strips() {
    // 3 wide, 2 tall, values row-major 1..=6.
    let grid = SquareGrid::new(Tag, 3, 2, vec![1, 2, 3, 4, 5, 6]).unwrap();
    // The right neighbor needs the two rightmost columns, row-major.
    assert_eq!(grid.edge_cells(Neumann::Right), vec![2, 3, 5, 6]);
    assert_eq!(grid.edge_cells(Neumann::Left), vec![1, 2, 4, 5]);
    // The upper neighbor needs the two topmost rows, which is everything.
    assert_eq!(grid.edge_cells(Neumann::Up), vec![1, 2, 3, 4, 5, 6]);
    assert_eq!(grid.edge_cells(Neumann::UpRight), vec![2, 3, 5, 6]);
    assert_eq!(grid.edge_cells(Neumann::DownLeft), vec![1, 2, 4, 5]);
}

#[test]
fn grid_from_padded_arena() {
    // A one-cell interior handed over with its whole padded arena.
    let mut arena = vec![0u64; 25];
    arena[2 * 5 + 2] = 42;
    let grid = SquareGrid::new_including_padding(Tag, 1, 1, arena).unwrap();
    assert_eq!(grid.cells(), vec![42]);
    assert!(SquareGrid::new_including_padding(Tag, 1, 1, vec![0u64; 24]).is_err());
    assert!(SquareGrid::new_including_padding(Tag, 0, 1, vec![]).is_err());
}
