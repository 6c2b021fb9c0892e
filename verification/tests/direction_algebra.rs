//! Direction and neighborhood behavior on concrete values.

use gridsim::Direction;
use gridsim::MooreDirection;
use gridsim::MooreNeighbors;
use gridsim::Neumann;
use gridsim::NeumannNeighbors;
use gridsim::Sim;

/// A minimal simulation rule: cells count, diffs echo, flows are unit.
struct Echo;

impl Sim for Echo {
    type Cell = u32;
    type Diff = u32;
    type Flow = ();

    fn compute(&self, cell: &u32, neighbors: NeumannNeighbors<&u32>) -> u32 {
        cell.wrapping_add(*neighbors.right)
    }

    fn egress(&self, cell: &mut u32, diff: u32) -> NeumannNeighbors<()> {
        *cell = diff;
        NeumannNeighbors {
            right: (),
            up_right: (),
            up: (),
            up_left: (),
            left: (),
            down_left: (),
            down: (),
            down_right: (),
        }
    }

    fn ingress(&self, _cell: &mut u32, _flows: NeumannNeighbors<()>) {}

    fn cell_padding(&self) -> u32 {
        0
    }

    fn diff_padding(&self) -> u32 {
        0
    }

    fn flow_padding(&self) {}

    fn clone_cell(&self, cell: &u32) -> u32 {
        *cell
    }
}

#[test]
fn moore_inv_is_involution() {
    for d in MooreDirection::directions() {
        assert_eq!(d.inv().inv(), d);
    }
    assert_eq!(MooreDirection::Right.inv(), MooreDirection::Left);
    assert_eq!(MooreDirection::Up.inv(), MooreDirection::Down);
}

#[test]
fn neumann_inv_is_involution() {
    for d in Neumann::directions() {
        assert_eq!(d.inv().inv(), d);
    }
    assert_eq!(Neumann::Right.inv(), Neumann::Left);
    assert_eq!(Neumann::UpRight.inv(), Neumann::DownLeft);
    assert_eq!(Neumann::Up.inv(), Neumann::Down);
    assert_eq!(Neumann::UpLeft.inv(), Neumann::DownRight);
}

#[test]
fn turns_cancel() {
    for d in Neumann::directions() {
        assert_eq!(d.turn_clockwise().turn_counterclockwise(), d);
        assert_eq!(d.turn_counterclockwise().turn_clockwise(), d);
    }
    for d in MooreDirection::directions() {
        assert_eq!(d.turn_clockwise().turn_counterclockwise(), d);
        assert_eq!(d.turn_counterclockwise().turn_clockwise(), d);
    }
    assert_eq!(Neumann::Right.turn_counterclockwise(), Neumann::UpRight);
    assert_eq!(Neumann::Right.turn_clockwise(), Neumann::DownRight);
}

#[test]
fn totals_are_even() {
    assert_eq!(MooreDirection::total(), 4);
    assert_eq!(Neumann::total(), 8);
    assert_eq!(MooreDirection::total() % 2, 0);
    assert_eq!(Neumann::total() % 2, 0);
}

#[test]
fn delta_sums_are_zero() {
    let mut sx: isize = 0;
    let mut sy: isize = 0;
    for d in Neumann::directions() {
        let (dx, dy) = d.delta();
        sx += dx;
        sy += dy;
    }
    assert_eq!((sx, sy), (0, 0));
    let mut mx: isize = 0;
    let mut my: isize = 0;
    for d in MooreDirection::directions() {
        let (dx, dy) = d.delta();
        mx += dx;
        my += dy;
    }
    assert_eq!((mx, my), (0, 0));
}

#[test]
fn neighbors_index_and_swap() {
    let mut a = MooreNeighbors { right: 1, up: 2, left: 3, down: 4 };
    let b = a.as_ref();
    assert_eq!(*b.right, 1);
    let mut c = MooreNeighbors { right: 10, up: 20, left: 30, down: 40 };
    // Swap what faces Right in `a` with what faces Left in `c`.
    a.swap_adjacent(&mut c, MooreDirection::Right);
    assert_eq!(a.right, 30);
    assert_eq!(c.left, 1);
    assert_eq!(*a.get(MooreDirection::Up), 2);
    a.set(MooreDirection::Up, 7);
    assert_eq!(a.up, 7);
}

#[test]
fn neighbors_from_vec_requires_exact_count() {
    let n = MooreNeighbors::from_vec(vec![1, 2, 3, 4]).unwrap();
    assert_eq!((n.right, n.up, n.left, n.down), (1, 2, 3, 4));
    assert!(MooreNeighbors::from_vec(vec![1, 2, 3]).is_err());
    assert!(MooreNeighbors::from_vec(vec![1, 2, 3, 4, 5]).is_err());
    let m = NeumannNeighbors::from_vec(vec![0, 1, 2, 3, 4, 5, 6, 7]).unwrap();
    assert_eq!(m.right, 0);
    assert_eq!(m.down_right, 7);
    assert!(NeumannNeighbors::<i32>::from_vec(vec![]).is_err());
    assert_eq!(m.into_vec(), vec![0, 1, 2, 3, 4, 5, 6, 7]);
}

#[test]
fn pull_based_construction() {
    let n = NeumannNeighbors::new(|d: Neumann| d.index());
    assert_eq!(n.right, 0);
    assert_eq!(n.up, 2);
    assert_eq!(n.down_right, 7);
    let m = MooreNeighbors::new(|d: MooreDirection| d.index() * 10);
    assert_eq!(m.down, 30);
}

#[test]
fn echo_sim_compiles_against_trait() {
    let s = Echo;
    let cell: u32 = 5;
    let nine: u32 = 9;
    let n = NeumannNeighbors {
        right: &nine,
        up_right: &nine,
        up: &nine,
        up_left: &nine,
        left: &nine,
        down_left: &nine,
        down: &nine,
        down_right: &nine,
    };
    let d = s.compute(&cell, n);
    assert_eq!(d, 14);
    let mut c: u32 = 5;
    s.egress(&mut c, d);
    assert_eq!(c, 14);
}

#[test]
fn neumann_swap_and_pairs() {
    let mut a = NeumannNeighbors {
        right: 1,
        up_right: 2,
        up: 3,
        up_left: 4,
        left: 5,
        down_left: 6,
        down: 7,
        down_right: 8,
    };
    let mut b = NeumannNeighbors {
        right: 10,
        up_right: 11,
        up: 12,
        up_left: 13,
        left: 14,
        down_left: 15,
        down: 16,
        down_right: 17,
    };
    // What faces up-right in `a` trades places with what faces down-left
    // in `b`.
    a.swap_adjacent(&mut b, Neumann::UpRight);
    assert_eq!(a.up_right, 15);
    assert_eq!(b.down_left, 2);
    let pairs = a.into_pairs();
    assert_eq!(pairs.len(), 8);
    assert_eq!(pairs[0], (Neumann::Right, 1));
    assert_eq!(pairs[5], (Neumann::DownLeft, 6));
}
