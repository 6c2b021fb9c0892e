//! Conway's Game of Life on the grid engine: the blinker oscillator, the
//! smallest legal grid, and a region run as one tile against the same
//! region run as two halo-exchanging tiles.

use gridsim::Direction;
use gridsim::Neumann;
use gridsim::NeumannNeighbors;
use gridsim::Sim;
use gridsim::SquareGrid;

/// Conway's Game of Life.
#[derive(Debug)]
pub struct Gol;

impl Sim for Gol {
    type Cell = bool;
    type Diff = bool;
    type Flow = ();

    fn compute(&self, cell: &bool, neighbors: NeumannNeighbors<&bool>) -> bool {
        let n = neighbors.copied().into_vec().into_iter().filter(|&c| c).count()
            + if *cell { 1 } else { 0 };
        if *cell {
            (3..=4).contains(&n)
        } else {
            n == 3
        }
    }

    fn egress(&self, cell: &mut bool, diff: bool) -> NeumannNeighbors<()> {
        *cell = diff;
        NeumannNeighbors::new(|_| ())
    }

    fn ingress(&self, _cell: &mut bool, _flows: NeumannNeighbors<()>) {}

    fn cell_padding(&self) -> bool {
        false
    }

    fn diff_padding(&self) -> bool {
        false
    }

    fn flow_padding(&self) {}

    fn clone_cell(&self, cell: &bool) -> bool {
        *cell
    }
}

fn grid_from<F: Fn(usize, usize) -> bool>(w: usize, h: usize, f: F) -> SquareGrid<Gol> {
    let mut cells = Vec::new();
    for y in 0..h {
        for x in 0..w {
            cells.push(f(x, y));
        }
    }
    SquareGrid::new(Gol, w, h, cells).unwrap()
}

fn expect<F: Fn(usize, usize) -> bool>(grid: &SquareGrid<Gol>, w: usize, h: usize, f: F) {
    let cells = grid.cells();
    for y in 0..h {
        for x in 0..w {
            assert_eq!(cells[y * w + x], f(x, y), "cell ({}, {})", x, y);
        }
    }
}

#[test]
fn gol_blinker() {
    let mut grid = grid_from(5, 5, |x, y| y == 2 && x >= 1 && x <= 3);
    grid.step_parallel();
    expect(&grid, 5, 5, |x, y| x == 2 && y >= 1 && y <= 3);
    grid.step_parallel();
    expect(&grid, 5, 5, |x, y| y == 2 && x >= 1 && x <= 3);
}

#[test]
fn gol_blinker_on_torus() {
    // Away from the border, the torus behaves like the bounded grid.
    let mut grid = grid_from(5, 5, |x, y| y == 2 && x >= 1 && x <= 3);
    grid.step_torus();
    expect(&grid, 5, 5, |x, y| x == 2 && y >= 1 && y <= 3);
    grid.step_torus();
    expect(&grid, 5, 5, |x, y| y == 2 && x >= 1 && x <= 3);
}

#[test]
fn smallest_grid_is_well_defined() {
    // A one-by-one interior: every neighbor comes from the padding.
    let mut bounded = grid_from(1, 1, |_, _| true);
    bounded.step_parallel();
    // All padding neighbors are dead, so a lone live cell dies.
    expect(&bounded, 1, 1, |_, _| false);

    let mut torus = grid_from(1, 1, |_, _| true);
    torus.step_torus();
    // On a one-cell torus, every neighbor is the cell itself: nine live
    // cells in the window, so the cell dies of overcrowding.
    expect(&torus, 1, 1, |_, _| false);
}

#[test]
fn dimension_and_count_errors() {
    assert!(SquareGrid::new(Gol, 0, 3, vec![]).is_err());
    assert!(SquareGrid::new(Gol, 3, 0, vec![]).is_err());
    assert!(SquareGrid::new(Gol, 2, 2, vec![true, false, true]).is_err());
    assert!(SquareGrid::new(Gol, 2, 2, vec![true, false, true, false]).is_ok());
}

/// Run one halo exchange between two tiles of a logical grid laid out as
/// two columns of one torus row: every horizontal (and diagonal) neighbor
/// of a tile is the other tile, every vertical neighbor is itself.
fn exchange_two_tiles(a: &mut SquareGrid<Gol>, b: &mut SquareGrid<Gol>) {
    // Send before receive: collect every outgoing strip of both tiles
    // first, then load them.
    let dirs = Neumann::directions();
    let mut a_out = Vec::new();
    let mut b_out = Vec::new();
    for d in &dirs {
        a_out.push(a.edge_cells(*d));
        b_out.push(b.edge_cells(*d));
    }
    for d in &dirs {
        let from = d.inv().index();
        let (dx, _) = d.delta();
        if dx != 0 {
            a.load_padding(*d, b_out[from].clone()).unwrap();
            b.load_padding(*d, a_out[from].clone()).unwrap();
        } else {
            a.load_padding(*d, a_out[from].clone()).unwrap();
            b.load_padding(*d, b_out[from].clone()).unwrap();
        }
    }
}

#[test]
fn two_tiles_match_single_torus() {
    // A pattern that crosses the tile boundary between columns 1 and 2.
    let pattern = |x: usize, y: usize| (y == 1 && (1..=3).contains(&x)) || (x == 3 && y == 3);
    let mut whole = grid_from(4, 4, pattern);
    let mut left = grid_from(2, 4, |x, y| pattern(x, y));
    let mut right = grid_from(2, 4, |x, y| pattern(x + 2, y));

    for _ in 0..3 {
        whole.step_torus();
        exchange_two_tiles(&mut left, &mut right);
        left.step_halo();
        right.step_halo();

        let w = whole.cells();
        for y in 0..4 {
            for x in 0..4 {
                let tile_cell = if x < 2 {
                    *left.get_cell(x, y)
                } else {
                    *right.get_cell(x - 2, y)
                };
                assert_eq!(w[y * 4 + x], tile_cell, "cell ({}, {})", x, y);
            }
        }
    }
}

#[test]
fn load_padding_rejects_wrong_count() {
    let mut grid = grid_from(3, 3, |_, _| false);
    let err = grid.load_padding(Neumann::Left, vec![true; 5]);
    assert_eq!(err, Err(gridsim::GridError::LengthMismatch));
    // The left padding wants two columns of the interior height.
    assert!(grid.load_padding(Neumann::Left, vec![true; 6]).is_ok());
}
