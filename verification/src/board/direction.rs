use vstd::prelude::*;

verus! {

/// A unit step on the grid: north `(0, 1)`, east `(1, 0)`, south `(0, -1)` or
/// west `(-1, 0)`.  The two fields are the x and y components.
#[derive(Clone, Copy, PartialEq, Eq, Structural, Debug)]
pub struct Direction(pub i8, pub i8);

/// Whether `(dx, dy)` is one of the four unit vectors.
pub open spec fn is_unit_vec(dx: int, dy: int) -> bool {
    ||| dx == 0 && dy == 1
    ||| dx == 1 && dy == 0
    ||| dx == 0 && dy == -1
    ||| dx == -1 && dy == 0
}

/// The x component of the direction a quarter turn clockwise from `(dx, dy)`:
/// north turns to east, east to south, south to west, west to north.
pub open spec fn perp_dx(dx: int, dy: int) -> int {
    if dx == 0 && dy == 1 {
        1
    } else if dx == 1 && dy == 0 {
        0
    } else if dx == 0 && dy == -1 {
        -1
    } else {
        0
    }
}

/// The y component of the direction a quarter turn clockwise from `(dx, dy)`.
pub open spec fn perp_dy(dx: int, dy: int) -> int {
    if dx == 0 && dy == 1 {
        0
    } else if dx == 1 && dy == 0 {
        -1
    } else if dx == 0 && dy == -1 {
        0
    } else {
        1
    }
}

impl Direction {
    pub open spec fn is_unit(self) -> bool {
        is_unit_vec(self.0 as int, self.1 as int)
    }

    /// One of the four unit directions, chosen at random.
    pub fn rand() -> (r: Direction)
        ensures
            r.is_unit(),
    {
        let index = crate::player::random_below(4);
        match index {
            0 => Direction(0, 1),
            1 => Direction(1, 0),
            2 => Direction(0, -1),
            3 => Direction(-1, 0),
            _ => Direction(0, 1),
        }
    }

    /// The four unit directions, in the fixed order north, east, south, west.
    /// Every enumeration of directions in the solver walks this order, which
    /// makes the search deterministic.
    pub fn values() -> (r: [Direction; 4])
        ensures
            r@ =~= seq![
                Direction(0i8, 1i8),
                Direction(1i8, 0i8),
                Direction(0i8, -1i8),
                Direction(-1i8, 0i8),
            ],
    {
        [Direction(0, 1), Direction(1, 0), Direction(0, -1), Direction(-1, 0)]
    }

    /// The same step walked backwards.
    pub fn opposite(&self) -> (r: Direction)
        requires
            self.is_unit(),
        ensures
            r.0 as int == -(self.0 as int),
            r.1 as int == -(self.1 as int),
            r.is_unit(),
    {
        let Direction(x, y) = *self;
        Direction(-x, -y)
    }

    /// The direction a quarter turn clockwise from this one.
    pub fn perpendicular(&self) -> (r: Direction)
        requires
            self.is_unit(),
        ensures
            r.0 as int == perp_dx(self.0 as int, self.1 as int),
            r.1 as int == perp_dy(self.0 as int, self.1 as int),
            r.is_unit(),
    {
        let Direction(x, y) = *self;
        let right_angle = match (x, y) {
            (0, 1) => Direction(1, 0),
            (1, 0) => Direction(0, -1),
            (0, -1) => Direction(-1, 0),
            (-1, 0) => Direction(0, 1),
            _ => Direction(0, 1),
        };
        right_angle
    }
}

} // verus!
