//! Per-direction containers: a fixed slot for every direction of a
//! direction set, indexable by direction and convertible to and from flat
//! sequences in canonical rotation order.

use vstd::prelude::*;

use crate::direction::MooreDirection;
use crate::direction::Neumann;
use crate::direction::spec_inv;
use crate::GridError;

verus! {

/// One value for each of the four orthogonal directions.
#[derive(Clone, Copy, Debug)]
pub struct MooreNeighbors<T> {
    pub right: T,
    pub up: T,
    pub left: T,
    pub down: T,
}

impl<T> MooreNeighbors<T> {
    /// The value in direction `d`.
    pub open spec fn spec_index(self, d: MooreDirection) -> T {
        match d {
            MooreDirection::Right => self.right,
            MooreDirection::Up => self.up,
            MooreDirection::Left => self.left,
            MooreDirection::Down => self.down,
        }
    }

    /// This container with the value in direction `d` replaced by `v`.
    pub open spec fn spec_update(self, d: MooreDirection, v: T) -> Self {
        match d {
            MooreDirection::Right => MooreNeighbors { right: v, ..self },
            MooreDirection::Up => MooreNeighbors { up: v, ..self },
            MooreDirection::Left => MooreNeighbors { left: v, ..self },
            MooreDirection::Down => MooreNeighbors { down: v, ..self },
        }
    }

    /// Build a container by pulling one value per direction from `f`.
    pub fn new<F: Fn(MooreDirection) -> T>(f: F) -> (r: Self)
        requires
            forall|d: MooreDirection| call_requires(f, (d,)),
        ensures
            call_ensures(f, (MooreDirection::Right,), r.right),
            call_ensures(f, (MooreDirection::Up,), r.up),
            call_ensures(f, (MooreDirection::Left,), r.left),
            call_ensures(f, (MooreDirection::Down,), r.down),
    {
        let right = f(MooreDirection::Right);
        let up = f(MooreDirection::Up);
        let left = f(MooreDirection::Left);
        let down = f(MooreDirection::Down);
        MooreNeighbors { right, up, left, down }
    }

    /// A container of references to the values of this one.
    pub fn as_ref(&self) -> (r: MooreNeighbors<&T>)
        ensures
            *r.right == self.right,
            *r.up == self.up,
            *r.left == self.left,
            *r.down == self.down,
    {
        MooreNeighbors { right: &self.right, up: &self.up, left: &self.left, down: &self.down }
    }

    /// A reference to the value in direction `d`.
    pub fn get(&self, d: MooreDirection) -> (r: &T)
        ensures
            *r == self.spec_index(d),
    {
        match d {
            MooreDirection::Right => &self.right,
            MooreDirection::Up => &self.up,
            MooreDirection::Left => &self.left,
            MooreDirection::Down => &self.down,
        }
    }

    /// Replace the value in direction `d` with `v`.
    pub fn set(&mut self, d: MooreDirection, v: T)
        ensures
            *final(self) == old(self).spec_update(d, v),
    {
        match d {
            MooreDirection::Right => self.right = v,
            MooreDirection::Up => self.up = v,
            MooreDirection::Left => self.left = v,
            MooreDirection::Down => self.down = v,
        }
    }

    /// Swap the value facing `d` in this container with the value facing
    /// the opposite direction in `other`.
    pub fn swap_adjacent(&mut self, other: &mut Self, d: MooreDirection)
        ensures
            *final(self) == old(self).spec_update(d, old(other).spec_index(spec_inv(d))),
            *final(other) == old(other).spec_update(spec_inv(d), old(self).spec_index(d)),
    {
        match d {
            MooreDirection::Right => core::mem::swap(&mut self.right, &mut other.left),
            MooreDirection::Up => core::mem::swap(&mut self.up, &mut other.down),
            MooreDirection::Left => core::mem::swap(&mut self.left, &mut other.right),
            MooreDirection::Down => core::mem::swap(&mut self.down, &mut other.up),
        }
    }

    /// Build a container from exactly four values in canonical rotation
    /// order; refused when the count is off.
    pub fn from_vec(v: Vec<T>) -> (r: Result<Self, GridError>)
        ensures
            r is Ok <==> v@.len() == 4,
            r matches Ok(n) ==> n.right == v@[0] && n.up == v@[1] && n.left == v@[2] && n.down
                == v@[3],
            r matches Err(e) ==> e == GridError::LengthMismatch,
    {
        let mut v = v;
        if v.len() != 4 {
            return Err(GridError::LengthMismatch);
        }
        let down = v.pop().unwrap();
        let left = v.pop().unwrap();
        let up = v.pop().unwrap();
        let right = v.pop().unwrap();
        Ok(MooreNeighbors { right, up, left, down })
    }

    /// The four values in canonical rotation order.
    pub fn into_vec(self) -> (v: Vec<T>)
        ensures
            v@ == seq![self.right, self.up, self.left, self.down],
    {
        let mut v: Vec<T> = Vec::new();
        v.push(self.right);
        v.push(self.up);
        v.push(self.left);
        v.push(self.down);
        proof {
            assert(v@ =~= seq![self.right, self.up, self.left, self.down]);
        }
        v
    }

    /// The four values, each paired with its direction, in canonical
    /// rotation order.
    pub fn into_pairs(self) -> (v: Vec<(MooreDirection, T)>)
        ensures
            v@ == seq![
                (MooreDirection::Right, self.right),
                (MooreDirection::Up, self.up),
                (MooreDirection::Left, self.left),
                (MooreDirection::Down, self.down),
            ],
    {
        let mut v: Vec<(MooreDirection, T)> = Vec::new();
        v.push((MooreDirection::Right, self.right));
        v.push((MooreDirection::Up, self.up));
        v.push((MooreDirection::Left, self.left));
        v.push((MooreDirection::Down, self.down));
        proof {
            assert(v@ =~= seq![
                (MooreDirection::Right, self.right),
                (MooreDirection::Up, self.up),
                (MooreDirection::Left, self.left),
                (MooreDirection::Down, self.down),
            ]);
        }
        v
    }
}

impl<'a, T: Copy> MooreNeighbors<&'a T> {
    /// A container of owned copies of the referenced values.
    pub fn copied(self) -> (r: MooreNeighbors<T>)
        ensures
            r.right == *self.right,
            r.up == *self.up,
            r.left == *self.left,
            r.down == *self.down,
    {
        MooreNeighbors { right: *self.right, up: *self.up, left: *self.left, down: *self.down }
    }
}

/// One value for each of the eight neighborhood directions.
#[derive(Clone, Copy, Debug)]
pub struct NeumannNeighbors<T> {
    pub right: T,
    pub up_right: T,
    pub up: T,
    pub up_left: T,
    pub left: T,
    pub down_left: T,
    pub down: T,
    pub down_right: T,
}

impl<T> NeumannNeighbors<T> {
    /// The value in direction `d`.
    pub open spec fn spec_index(self, d: Neumann) -> T {
        match d {
            Neumann::Right => self.right,
            Neumann::UpRight => self.up_right,
            Neumann::Up => self.up,
            Neumann::UpLeft => self.up_left,
            Neumann::Left => self.left,
            Neumann::DownLeft => self.down_left,
            Neumann::Down => self.down,
            Neumann::DownRight => self.down_right,
        }
    }

    /// This container with the value in direction `d` replaced by `v`.
    pub open spec fn spec_update(self, d: Neumann, v: T) -> Self {
        match d {
            Neumann::Right => NeumannNeighbors { right: v, ..self },
            Neumann::UpRight => NeumannNeighbors { up_right: v, ..self },
            Neumann::Up => NeumannNeighbors { up: v, ..self },
            Neumann::UpLeft => NeumannNeighbors { up_left: v, ..self },
            Neumann::Left => NeumannNeighbors { left: v, ..self },
            Neumann::DownLeft => NeumannNeighbors { down_left: v, ..self },
            Neumann::Down => NeumannNeighbors { down: v, ..self },
            Neumann::DownRight => NeumannNeighbors { down_right: v, ..self },
        }
    }

    /// The values as a sequence in canonical rotation order.
    pub open spec fn as_seq(self) -> Seq<T> {
        seq![
            self.right,
            self.up_right,
            self.up,
            self.up_left,
            self.left,
            self.down_left,
            self.down,
            self.down_right,
        ]
    }

    /// Build a container by pulling one value per direction from `f`.
    pub fn new<F: Fn(Neumann) -> T>(f: F) -> (r: Self)
        requires
            forall|d: Neumann| call_requires(f, (d,)),
        ensures
            call_ensures(f, (Neumann::Right,), r.right),
            call_ensures(f, (Neumann::UpRight,), r.up_right),
            call_ensures(f, (Neumann::Up,), r.up),
            call_ensures(f, (Neumann::UpLeft,), r.up_left),
            call_ensures(f, (Neumann::Left,), r.left),
            call_ensures(f, (Neumann::DownLeft,), r.down_left),
            call_ensures(f, (Neumann::Down,), r.down),
            call_ensures(f, (Neumann::DownRight,), r.down_right),
    {
        let right = f(Neumann::Right);
        let up_right = f(Neumann::UpRight);
        let up = f(Neumann::Up);
        let up_left = f(Neumann::UpLeft);
        let left = f(Neumann::Left);
        let down_left = f(Neumann::DownLeft);
        let down = f(Neumann::Down);
        let down_right = f(Neumann::DownRight);
        NeumannNeighbors { right, up_right, up, up_left, left, down_left, down, down_right }
    }

    /// A container of references to the values of this one.
    pub fn as_ref(&self) -> (r: NeumannNeighbors<&T>)
        ensures
            *r.right == self.right,
            *r.up_right == self.up_right,
            *r.up == self.up,
            *r.up_left == self.up_left,
            *r.left == self.left,
            *r.down_left == self.down_left,
            *r.down == self.down,
            *r.down_right == self.down_right,
    {
        NeumannNeighbors {
            right: &self.right,
            up_right: &self.up_right,
            up: &self.up,
            up_left: &self.up_left,
            left: &self.left,
            down_left: &self.down_left,
            down: &self.down,
            down_right: &self.down_right,
        }
    }

    /// A reference to the value in direction `d`.
    pub fn get(&self, d: Neumann) -> (r: &T)
        ensures
            *r == self.spec_index(d),
    {
        match d {
            Neumann::Right => &self.right,
            Neumann::UpRight => &self.up_right,
            Neumann::Up => &self.up,
            Neumann::UpLeft => &self.up_left,
            Neumann::Left => &self.left,
            Neumann::DownLeft => &self.down_left,
            Neumann::Down => &self.down,
            Neumann::DownRight => &self.down_right,
        }
    }

    /// Replace the value in direction `d` with `v`.
    pub fn set(&mut self, d: Neumann, v: T)
        ensures
            *final(self) == old(self).spec_update(d, v),
    {
        match d {
            Neumann::Right => self.right = v,
            Neumann::UpRight => self.up_right = v,
            Neumann::Up => self.up = v,
            Neumann::UpLeft => self.up_left = v,
            Neumann::Left => self.left = v,
            Neumann::DownLeft => self.down_left = v,
            Neumann::Down => self.down = v,
            Neumann::DownRight => self.down_right = v,
        }
    }

    /// Swap the value facing `d` in this container with the value facing
    /// the opposite direction in `other`.
    pub fn swap_adjacent(&mut self, other: &mut Self, d: Neumann)
        ensures
            *final(self) == old(self).spec_update(d, old(other).spec_index(spec_inv(d))),
            *final(other) == old(other).spec_update(spec_inv(d), old(self).spec_index(d)),
    {
        match d {
            Neumann::Right => core::mem::swap(&mut self.right, &mut other.left),
            Neumann::UpRight => core::mem::swap(&mut self.up_right, &mut other.down_left),
            Neumann::Up => core::mem::swap(&mut self.up, &mut other.down),
            Neumann::UpLeft => core::mem::swap(&mut self.up_left, &mut other.down_right),
            Neumann::Left => core::mem::swap(&mut self.left, &mut other.right),
            Neumann::DownLeft => core::mem::swap(&mut self.down_left, &mut other.up_right),
            Neumann::Down => core::mem::swap(&mut self.down, &mut other.up),
            Neumann::DownRight => core::mem::swap(&mut self.down_right, &mut other.up_left),
        }
    }

    /// Build a container from exactly eight values in canonical rotation
    /// order; refused when the count is off.
    pub fn from_vec(v: Vec<T>) -> (r: Result<Self, GridError>)
        ensures
            r is Ok <==> v@.len() == 8,
            r matches Ok(n) ==> n.as_seq() =~= v@,
            r matches Err(e) ==> e == GridError::LengthMismatch,
    {
        let mut v = v;
        if v.len() != 8 {
            return Err(GridError::LengthMismatch);
        }
        let down_right = v.pop().unwrap();
        let down = v.pop().unwrap();
        let down_left = v.pop().unwrap();
        let left = v.pop().unwrap();
        let up_left = v.pop().unwrap();
        let up = v.pop().unwrap();
        let up_right = v.pop().unwrap();
        let right = v.pop().unwrap();
        Ok(NeumannNeighbors { right, up_right, up, up_left, left, down_left, down, down_right })
    }

    /// The eight values in canonical rotation order.
    pub fn into_vec(self) -> (v: Vec<T>)
        ensures
            v@ =~= self.as_seq(),
    {
        let mut v: Vec<T> = Vec::new();
        v.push(self.right);
        v.push(self.up_right);
        v.push(self.up);
        v.push(self.up_left);
        v.push(self.left);
        v.push(self.down_left);
        v.push(self.down);
        v.push(self.down_right);
        v
    }

    /// The eight values, each paired with its direction, in canonical
    /// rotation order.
    pub fn into_pairs(self) -> (v: Vec<(Neumann, T)>)
        ensures
            v@.len() == 8,
            forall|k: int|
                0 <= k < 8 ==> v@[k] == (
                <Neumann as crate::direction::Direction>::from_index(k as nat),
                self.as_seq()[k],
                ),
    {
        let mut v: Vec<(Neumann, T)> = Vec::new();
        v.push((Neumann::Right, self.right));
        v.push((Neumann::UpRight, self.up_right));
        v.push((Neumann::Up, self.up));
        v.push((Neumann::UpLeft, self.up_left));
        v.push((Neumann::Left, self.left));
        v.push((Neumann::DownLeft, self.down_left));
        v.push((Neumann::Down, self.down));
        v.push((Neumann::DownRight, self.down_right));
        v
    }
}

/// The values behind a container of references, as owned spec values.
pub open spec fn deref_neighbors<T>(n: NeumannNeighbors<&T>) -> NeumannNeighbors<T> {
    NeumannNeighbors {
        right: *n.right,
        up_right: *n.up_right,
        up: *n.up,
        up_left: *n.up_left,
        left: *n.left,
        down_left: *n.down_left,
        down: *n.down,
        down_right: *n.down_right,
    }
}

impl<'a, T: Copy> NeumannNeighbors<&'a T> {
    /// A container of owned copies of the referenced values.
    pub fn copied(self) -> (r: NeumannNeighbors<T>)
        ensures
            r.right == *self.right,
            r.up_right == *self.up_right,
            r.up == *self.up,
            r.up_left == *self.up_left,
            r.left == *self.left,
            r.down_left == *self.down_left,
            r.down == *self.down,
            r.down_right == *self.down_right,
    {
        NeumannNeighbors {
            right: *self.right,
            up_right: *self.up_right,
            up: *self.up,
            up_left: *self.up_left,
            left: *self.left,
            down_left: *self.down_left,
            down: *self.down,
            down_right: *self.down_right,
        }
    }
}

} // verus!
