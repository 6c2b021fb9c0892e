//! Direction sets: evenly sized, rotation-ordered collections of relative
//! neighbor offsets, with the index arithmetic for inversion and rotation.

use vstd::prelude::*;

verus! {

/// A set of directions.
///
/// Directions are numbered `0 .. count()` in a consistent counter-clockwise
/// rotation order, and the set has an even number of members, so that the
/// opposite of a direction sits exactly half a turn away.  The numbering is
/// a bijection between the directions and `0 .. count()`; the proof
/// obligations below state this once per implementation, and the provided
/// operations `inv`, `turn_clockwise` and `turn_counterclockwise` are then
/// correct for every implementation.
pub trait Direction: Sized + Copy {
    /// How many directions the set has.
    spec fn count() -> nat;

    /// The position of this direction in the rotation order.
    spec fn to_index(self) -> nat;

    /// The direction at a position of the rotation order.
    spec fn from_index(n: nat) -> Self;

    /// The set is even in size and has at least two members.
    proof fn lemma_count_even()
        ensures
            Self::count() >= 2,
            Self::count() % 2 == 0,
    ;

    /// Numbering is surjective onto `0 .. count()`.
    proof fn lemma_from_to(n: nat)
        requires
            n < Self::count(),
        ensures
            Self::from_index(n).to_index() == n,
    ;

    /// Numbering is injective: every direction sits at its own index.
    proof fn lemma_to_from(self)
        ensures
            self.to_index() < Self::count(),
            Self::from_index(self.to_index()) == self,
    ;

    /// The total number of directions.
    fn total() -> (n: usize)
        ensures
            n == Self::count(),
    ;

    /// The position of this direction in the rotation order.
    fn index(self) -> (n: usize)
        ensures
            n == self.to_index(),
    ;

    /// The direction at a position of the rotation order.
    fn from_usize(n: usize) -> (d: Self)
        requires
            n < Self::count(),
        ensures
            d == Self::from_index(n as nat),
    ;

    /// The opposite direction, half a turn away.
    fn inv(self) -> (r: Self)
        ensures
            r == Self::from_index(
                (((self.to_index() + Self::count() / 2) as int) % (Self::count() as int)) as nat,
            ),
    {
        proof {
            Self::lemma_count_even();
            self.lemma_to_from();
        }
        let total = Self::total();
        let half = total / 2;
        let n = self.index();
        let m = if n >= half {
            n - half
        } else {
            n + half
        };
        proof {
            lemma_index_add_mod(self.to_index() as int, half as int, total as int);
            Self::lemma_from_to(m as nat);
        }
        Self::from_usize(m)
    }

    /// The next direction clockwise (one step back in the rotation order).
    fn turn_clockwise(self) -> (r: Self)
        ensures
            r == Self::from_index(
                (((self.to_index() + Self::count() - 1) as int) % (Self::count() as int)) as nat,
            ),
    {
        proof {
            Self::lemma_count_even();
            self.lemma_to_from();
        }
        let total = Self::total();
        let n = self.index();
        let m = if n == 0 {
            total - 1
        } else {
            n - 1
        };
        proof {
            lemma_index_add_mod(self.to_index() as int, total as int - 1, total as int);
            Self::lemma_from_to(m as nat);
        }
        Self::from_usize(m)
    }

    /// The next direction counter-clockwise (one step forward in the order).
    fn turn_counterclockwise(self) -> (r: Self)
        ensures
            r == Self::from_index(
                (((self.to_index() + 1) as int) % (Self::count() as int)) as nat,
            ),
    {
        proof {
            Self::lemma_count_even();
            self.lemma_to_from();
        }
        let total = Self::total();
        let n = self.index();
        let m = if n + 1 == total {
            0
        } else {
            n + 1
        };
        proof {
            lemma_index_add_mod(self.to_index() as int, 1, total as int);
            Self::lemma_from_to(m as nat);
        }
        Self::from_usize(m)
    }

    /// All directions, in rotation order.
    fn directions() -> (v: Vec<Self>)
        ensures
            v@.len() == Self::count(),
            forall|k: int| 0 <= k < v@.len() ==> v@[k] == Self::from_index(k as nat),
    {
        proof {
            Self::lemma_count_even();
        }
        let total = Self::total();
        let mut v: Vec<Self> = Vec::new();
        let mut k: usize = 0;
        while k < total
            invariant
                k <= total,
                total == Self::count(),
                v@.len() == k,
                forall|j: int| 0 <= j < k ==> v@[j] == Self::from_index(j as nat),
            decreases total - k,
        {
            v.push(Self::from_usize(k));
            k = k + 1;
        }
        v
    }
}

/// The direction `k` rotation steps counter-clockwise from `d`.
pub open spec fn dir_add<D: Direction>(d: D, k: int) -> D {
    D::from_index(((d.to_index() + k) % (D::count() as int)) as nat)
}

/// The opposite of `d`: half a turn away.
pub open spec fn spec_inv<D: Direction>(d: D) -> D {
    dir_add(d, D::count() as int / 2)
}

/// One rotation step clockwise from `d`.
pub open spec fn spec_turn_clockwise<D: Direction>(d: D) -> D {
    dir_add(d, D::count() as int - 1)
}

/// One rotation step counter-clockwise from `d`.
pub open spec fn spec_turn_counterclockwise<D: Direction>(d: D) -> D {
    dir_add(d, 1)
}

/// For an index `i` below `c` and a step `k` below `c`, the rotated index
/// `(i + k) % c` is `i + k` when that stays below `c` and wraps by exactly
/// one multiple of `c` otherwise.
proof fn lemma_index_add_mod(i: int, k: int, c: int)
    requires
        0 < c,
        0 <= i < c,
        0 <= k < c,
    ensures
        (i + k) % c == if i + k < c {
            i + k
        } else {
            i + k - c
        },
{
    if i + k < c {
        assert((i + k) % c == i + k) by {
            vstd::arithmetic::div_mod::lemma_small_mod((i + k) as nat, c as nat);
        };
    } else {
        assert((i + k) % c == (i + k - c) % c) by {
            vstd::arithmetic::div_mod::lemma_mod_sub_multiples_vanish(i + k, c);
        };
        assert((i + k - c) % c == i + k - c) by {
            vstd::arithmetic::div_mod::lemma_small_mod((i + k - c) as nat, c as nat);
        };
    }
}

/// Inversion is an involution: the opposite of the opposite of a direction
/// is the direction itself.
pub proof fn lemma_inv_involution<D: Direction>(d: D)
    ensures
        spec_inv(spec_inv(d)) == d,
{
    D::lemma_count_even();
    d.lemma_to_from();
    let c = D::count() as int;
    let h = c / 2;
    let i = d.to_index() as int;
    lemma_index_add_mod(i, h, c);
    let m = if i + h < c { i + h } else { i + h - c };
    D::lemma_from_to(m as nat);
    lemma_index_add_mod(m, h, c);
    D::lemma_from_to(i as nat);
}

/// Turning clockwise undoes turning counter-clockwise, and the other way
/// around.
pub proof fn lemma_turn_roundtrip<D: Direction>(d: D)
    ensures
        spec_turn_clockwise(spec_turn_counterclockwise(d)) == d,
        spec_turn_counterclockwise(spec_turn_clockwise(d)) == d,
{
    D::lemma_count_even();
    d.lemma_to_from();
    let c = D::count() as int;
    let i = d.to_index() as int;
    lemma_index_add_mod(i, 1, c);
    let m1 = if i + 1 < c { i + 1 } else { i + 1 - c };
    D::lemma_from_to(m1 as nat);
    lemma_index_add_mod(m1, c - 1, c);
    lemma_index_add_mod(i, c - 1, c);
    let m2 = if i + c - 1 < c { i + c - 1 } else { i - 1 };
    D::lemma_from_to(m2 as nat);
    lemma_index_add_mod(m2, 1, c);
    D::lemma_from_to(i as nat);
}

/// The number of directions is even.
pub proof fn lemma_total_even<D: Direction>()
    ensures
        D::count() % 2 == 0,
{
    D::lemma_count_even();
}

/// The four orthogonal directions, in counter-clockwise rotation order.
#[derive(Clone, Copy, Debug, PartialEq, Eq, Structural)]
pub enum MooreDirection {
    Right,
    Up,
    Left,
    Down,
}

impl MooreDirection {
    /// The grid offset of this direction, as `(dx, dy)` with `y` growing
    /// downward.
    pub open spec fn spec_delta(self) -> (int, int) {
        match self {
            MooreDirection::Right => (1, 0),
            MooreDirection::Up => (0, -1),
            MooreDirection::Left => (-1, 0),
            MooreDirection::Down => (0, 1),
        }
    }

    /// The grid offset of this direction.
    pub fn delta(self) -> (r: (isize, isize))
        ensures
            r.0 as int == self.spec_delta().0,
            r.1 as int == self.spec_delta().1,
    {
        match self {
            MooreDirection::Right => (1, 0),
            MooreDirection::Up => (0, -1),
            MooreDirection::Left => (-1, 0),
            MooreDirection::Down => (0, 1),
        }
    }
}

impl Direction for MooreDirection {
    open spec fn count() -> nat {
        4
    }

    open spec fn to_index(self) -> nat {
        match self {
            MooreDirection::Right => 0,
            MooreDirection::Up => 1,
            MooreDirection::Left => 2,
            MooreDirection::Down => 3,
        }
    }

    open spec fn from_index(n: nat) -> Self {
        if n == 0 {
            MooreDirection::Right
        } else if n == 1 {
            MooreDirection::Up
        } else if n == 2 {
            MooreDirection::Left
        } else {
            MooreDirection::Down
        }
    }

    proof fn lemma_count_even() {
    }

    proof fn lemma_from_to(n: nat) {
    }

    proof fn lemma_to_from(self) {
    }

    fn total() -> (n: usize) {
        4
    }

    fn index(self) -> (n: usize) {
        match self {
            MooreDirection::Right => 0,
            MooreDirection::Up => 1,
            MooreDirection::Left => 2,
            MooreDirection::Down => 3,
        }
    }

    fn from_usize(n: usize) -> (d: Self) {
        if n == 0 {
            MooreDirection::Right
        } else if n == 1 {
            MooreDirection::Up
        } else if n == 2 {
            MooreDirection::Left
        } else {
            MooreDirection::Down
        }
    }
}

/// The sum of the four orthogonal direction offsets.
pub open spec fn moore_delta_sum() -> (int, int) {
    let r = MooreDirection::Right.spec_delta();
    let u = MooreDirection::Up.spec_delta();
    let l = MooreDirection::Left.spec_delta();
    let d = MooreDirection::Down.spec_delta();
    (r.0 + u.0 + l.0 + d.0, r.1 + u.1 + l.1 + d.1)
}

/// The four orthogonal direction offsets cancel out.
pub proof fn lemma_moore_delta_sum_zero()
    ensures
        moore_delta_sum() == (0int, 0int),
{
}

/// The eight directions of the full neighborhood (edges and corners), in
/// counter-clockwise rotation order.
#[derive(Clone, Copy, Debug, PartialEq, Eq, Structural)]
pub enum Neumann {
    Right,
    UpRight,
    Up,
    UpLeft,
    Left,
    DownLeft,
    Down,
    DownRight,
}

impl Neumann {
    /// The grid offset of this direction, as `(dx, dy)` with `y` growing
    /// downward.
    pub open spec fn spec_delta(self) -> (int, int) {
        match self {
            Neumann::Right => (1, 0),
            Neumann::UpRight => (1, -1),
            Neumann::Up => (0, -1),
            Neumann::UpLeft => (-1, -1),
            Neumann::Left => (-1, 0),
            Neumann::DownLeft => (-1, 1),
            Neumann::Down => (0, 1),
            Neumann::DownRight => (1, 1),
        }
    }

    /// The grid offset of this direction.
    pub fn delta(self) -> (r: (isize, isize))
        ensures
            r.0 as int == self.spec_delta().0,
            r.1 as int == self.spec_delta().1,
    {
        match self {
            Neumann::Right => (1, 0),
            Neumann::UpRight => (1, -1),
            Neumann::Up => (0, -1),
            Neumann::UpLeft => (-1, -1),
            Neumann::Left => (-1, 0),
            Neumann::DownLeft => (-1, 1),
            Neumann::Down => (0, 1),
            Neumann::DownRight => (1, 1),
        }
    }
}

impl Direction for Neumann {
    open spec fn count() -> nat {
        8
    }

    open spec fn to_index(self) -> nat {
        match self {
            Neumann::Right => 0,
            Neumann::UpRight => 1,
            Neumann::Up => 2,
            Neumann::UpLeft => 3,
            Neumann::Left => 4,
            Neumann::DownLeft => 5,
            Neumann::Down => 6,
            Neumann::DownRight => 7,
        }
    }

    open spec fn from_index(n: nat) -> Self {
        if n == 0 {
            Neumann::Right
        } else if n == 1 {
            Neumann::UpRight
        } else if n == 2 {
            Neumann::Up
        } else if n == 3 {
            Neumann::UpLeft
        } else if n == 4 {
            Neumann::Left
        } else if n == 5 {
            Neumann::DownLeft
        } else if n == 6 {
            Neumann::Down
        } else {
            Neumann::DownRight
        }
    }

    proof fn lemma_count_even() {
    }

    proof fn lemma_from_to(n: nat) {
    }

    proof fn lemma_to_from(self) {
    }

    fn total() -> (n: usize) {
        8
    }

    fn index(self) -> (n: usize) {
        match self {
            Neumann::Right => 0,
            Neumann::UpRight => 1,
            Neumann::Up => 2,
            Neumann::UpLeft => 3,
            Neumann::Left => 4,
            Neumann::DownLeft => 5,
            Neumann::Down => 6,
            Neumann::DownRight => 7,
        }
    }

    fn from_usize(n: usize) -> (d: Self) {
        if n == 0 {
            Neumann::Right
        } else if n == 1 {
            Neumann::UpRight
        } else if n == 2 {
            Neumann::Up
        } else if n == 3 {
            Neumann::UpLeft
        } else if n == 4 {
            Neumann::Left
        } else if n == 5 {
            Neumann::DownLeft
        } else if n == 6 {
            Neumann::Down
        } else {
            Neumann::DownRight
        }
    }
}

/// The sum of the eight neighborhood direction offsets.
pub open spec fn neumann_delta_sum() -> (int, int) {
    let s0 = Neumann::Right.spec_delta();
    let s1 = Neumann::UpRight.spec_delta();
    let s2 = Neumann::Up.spec_delta();
    let s3 = Neumann::UpLeft.spec_delta();
    let s4 = Neumann::Left.spec_delta();
    let s5 = Neumann::DownLeft.spec_delta();
    let s6 = Neumann::Down.spec_delta();
    let s7 = Neumann::DownRight.spec_delta();
    (
        s0.0 + s1.0 + s2.0 + s3.0 + s4.0 + s5.0 + s6.0 + s7.0,
        s0.1 + s1.1 + s2.1 + s3.1 + s4.1 + s5.1 + s6.1 + s7.1,
    )
}

/// The eight neighborhood direction offsets cancel out.
pub proof fn lemma_neumann_delta_sum_zero()
    ensures
        neumann_delta_sum() == (0int, 0int),
{
}

/// A direction and its opposite point exactly away from each other on the
/// grid: their offsets cancel.
pub proof fn lemma_neumann_inv_delta(d: Neumann)
    ensures
        spec_inv(d).spec_delta().0 == -d.spec_delta().0,
        spec_inv(d).spec_delta().1 == -d.spec_delta().1,
{
    d.lemma_to_from();
    lemma_index_add_mod(d.to_index() as int, 4, 8);
    Neumann::lemma_from_to(((d.to_index() + 4) % 8) as nat);
}

} // verus!
