use vstd::prelude::*;

use crate::board::direction::Direction;
use crate::board::position::Position;
use crate::player::{Combination, Points};
use crate::tile::{clone_tiles, Tile};

verus! {

pub type Moves = Vec<Move>;

/// A proposed placement: a combination anchored at `position`, one tile per
/// step along `direction`, not yet validated or scored.
#[derive(Clone, Debug)]
pub struct PartialMove {
    pub combination: Combination,
    pub position: Position,
    pub direction: Direction,
}

/// The mathematical value of a proposed placement: the run of tiles, its
/// anchor cell and its step, all as plain integers and sequences.
pub ghost struct SpecPlacement {
    pub comb: Seq<Tile>,
    pub px: int,
    pub py: int,
    pub dx: int,
    pub dy: int,
}

/// The mathematical value of a validated move: a placement and its points.
pub ghost struct SpecMove {
    pub place: SpecPlacement,
    pub points: int,
}

impl View for PartialMove {
    type V = SpecPlacement;

    open spec fn view(&self) -> SpecPlacement {
        SpecPlacement {
            comb: self.combination@,
            px: self.position.x as int,
            py: self.position.y as int,
            dx: self.direction.0 as int,
            dy: self.direction.1 as int,
        }
    }
}

impl PartialMove {
    /// Pairs this placement with the points it was scored at.
    pub fn into_move(&self, points: Points) -> (r: Move)
        ensures
            r.combination@ == self.combination@,
            r.position == self.position,
            r.direction == self.direction,
            r.points == points,
    {
        let PartialMove { combination, position, direction } = self;

        Move { combination: clone_tiles(combination), position: *position, direction: *direction, points }
    }
}

/// A validated placement together with the points it awards.
#[derive(Clone, PartialEq, Eq, Debug)]
pub struct Move {
    pub combination: Combination,
    pub position: Position,
    pub direction: Direction,
    pub points: Points,
}

impl View for Move {
    type V = SpecMove;

    open spec fn view(&self) -> SpecMove {
        SpecMove {
            place: SpecPlacement {
                comb: self.combination@,
                px: self.position.x as int,
                py: self.position.y as int,
                dx: self.direction.0 as int,
                dy: self.direction.1 as int,
            },
            points: self.points as int,
        }
    }
}

impl Move {
    /// Splits this move back into the bare placement and its points.
    pub fn into_partial(&self) -> (r: (PartialMove, Points))
        ensures
            r.0.combination@ == self.combination@,
            r.0.position == self.position,
            r.0.direction == self.direction,
            r.1 == self.points,
    {
        let Move { combination, position, direction, points } = self;

        (
            PartialMove {
                combination: clone_tiles(combination),
                position: *position,
                direction: *direction,
            },
            *points,
        )
    }
}

} // verus!
