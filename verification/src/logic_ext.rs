//! Geometry of the grid: directions, teams, coordinates, and the two measures the
//! expression language is built on (Manhattan distance and the four-sector direction).

use vstd::prelude::*;

verus! {

/// One of the four cardinal directions of the grid.
#[derive(Debug, Copy, Clone, PartialEq, Eq, Structural)]
pub enum Direction {
    North,
    East,
    South,
    West,
}

/// The two sides of a match.
#[derive(Debug, Copy, Clone, PartialEq, Eq, Structural)]
pub enum Team {
    Red,
    Blue,
}

/// A cell of the grid: column first, row second.
#[derive(Debug, Copy, Clone, PartialEq, Eq, Structural)]
pub struct Coords(pub usize, pub usize);

pub open spec fn abs_diff(a: int, b: int) -> nat {
    if a >= b {
        (a - b) as nat
    } else {
        (b - a) as nat
    }
}

/// Sum of the absolute coordinate differences.
pub open spec fn manhattan(a: Coords, b: Coords) -> nat {
    abs_diff(a.0 as int, b.0 as int) + abs_diff(a.1 as int, b.1 as int)
}

/// The direction assigned to a displacement `(dx, dy)`, where `dx` and `dy` are the
/// column and row of the origin minus those of the target.
///
/// The plane is cut by the two diagonals into four quarter-planes.  The quarter around
/// the positive `dy` axis is open (the diagonals do not belong to it) and maps to West;
/// the quarters around the positive and negative `dx` axes are closed and map to South
/// and North; what is left, the open quarter around the negative `dy` axis, maps to
/// East.  A zero displacement maps to West.
pub open spec fn sector(dx: int, dy: int) -> Direction {
    if (dx == 0 && dy == 0) || (abs_diff(dx, 0) < dy) {
        Direction::West
    } else if dx > 0 && abs_diff(dy, 0) <= dx {
        Direction::South
    } else if dx < 0 && abs_diff(dy, 0) <= -dx {
        Direction::North
    } else {
        Direction::East
    }
}

pub trait TeamExt: Sized {
    spec fn opposite_spec(self) -> Self;

    /// The other side.
    fn opposite(self) -> (other: Self)
        ensures
            other == self.opposite_spec(),
    ;
}

impl TeamExt for Team {
    open spec fn opposite_spec(self) -> Team {
        match self {
            Team::Red => Team::Blue,
            Team::Blue => Team::Red,
        }
    }

    fn opposite(self) -> (other: Team) {
        match self {
            Team::Red => Team::Blue,
            Team::Blue => Team::Red,
        }
    }
}

pub trait CoordsExt: Sized {
    spec fn distance_spec(self, other: Self) -> nat;

    spec fn direction_spec(self, to: Self) -> Direction;

    /// Manhattan distance between two cells.
    fn distance(self, other: Self) -> (d: usize)
        requires
            self.distance_spec(other) <= usize::MAX,
        ensures
            d == self.distance_spec(other),
    ;

    /// The direction in which `to` lies, seen from `self`.
    fn direction(self, to: Self) -> (dir: Direction)
        ensures
            dir == self.direction_spec(to),
    ;
}

impl CoordsExt for Coords {
    open spec fn distance_spec(self, other: Coords) -> nat {
        manhattan(self, other)
    }

    open spec fn direction_spec(self, to: Coords) -> Direction {
        sector(self.0 - to.0, self.1 - to.1)
    }

    fn distance(self, other: Coords) -> (d: usize) {
        let horizontal: usize = if self.0 >= other.0 {
            self.0 - other.0
        } else {
            other.0 - self.0
        };
        let vertical: usize = if self.1 >= other.1 {
            self.1 - other.1
        } else {
            other.1 - self.1
        };
        horizontal + vertical
    }

    fn direction(self, to: Coords) -> (dir: Direction) {
        let right: bool = self.0 >= to.0;
        let horizontal: usize = if right {
            self.0 - to.0
        } else {
            to.0 - self.0
        };
        let below: bool = self.1 >= to.1;
        let vertical: usize = if below {
            self.1 - to.1
        } else {
            to.1 - self.1
        };
        if horizontal == 0 && vertical == 0 {
            Direction::West
        } else if below && horizontal < vertical {
            Direction::West
        } else if right && vertical <= horizontal {
            Direction::South
        } else if !right && vertical <= horizontal {
            Direction::North
        } else {
            Direction::East
        }
    }
}

} // verus!
