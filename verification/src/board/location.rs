use vstd::prelude::*;

use crate::board::position::Position;
use crate::tile::Tile;

verus! {

/// A tile placed on the board: which tile sits on which cell.  Immutable once
/// created; the board only ever appends new ones.
#[derive(Clone, Copy, PartialEq, Eq, Structural, Debug)]
pub struct Location {
    pub position: Position,
    pub tile: Tile,
}

} // verus!
