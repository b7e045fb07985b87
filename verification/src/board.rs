pub mod direction;
pub mod location;
pub mod mov;
pub mod position;

use vstd::prelude::*;

use crate::board::direction::Direction;
use crate::board::location::Location;
use crate::board::mov::PartialMove;
use crate::board::position::{on_grid, Position};
use crate::tile::{Tile, Tiles};

verus! {

/// What a lookup at integer coordinates finds: the first placed tile whose
/// position matches, in the order the tiles were added.  Coordinates outside
/// the `i8` grid never match, since every stored position is an `i8` pair.
pub open spec fn cell_at(b: Seq<Location>, x: int, y: int) -> Option<Tile>
    decreases b.len(),
{
    if b.len() == 0 {
        None
    } else if b[0].position.x as int == x && b[0].position.y as int == y {
        Some(b[0].tile)
    } else {
        cell_at(b.drop_first(), x, y)
    }
}

/// The run of placed tiles met when stepping from `(x, y)` by `(dx, dy)`,
/// nearest first, stopping at the first empty cell.  `fuel` only bounds the
/// recursion: a unit-step walk leaves the `i8` grid after at most 256 steps
/// and finds nothing there, so any fuel of 300 or more yields the whole run.
pub open spec fn ray_tiles(b: Seq<Location>, x: int, y: int, dx: int, dy: int, fuel: nat) -> Seq<Tile>
    decreases fuel,
{
    if fuel == 0 {
        Seq::empty()
    } else {
        match cell_at(b, x + dx, y + dy) {
            None => Seq::empty(),
            Some(t) => seq![t] + ray_tiles(b, x + dx, y + dy, dx, dy, (fuel - 1) as nat),
        }
    }
}

/// The full run met when stepping from `(x, y)` by a unit vector `(dx, dy)`.
pub open spec fn spec_ray(b: Seq<Location>, x: int, y: int, dx: int, dy: int) -> Seq<Tile> {
    ray_tiles(b, x, y, dx, dy, 300)
}

/// The locations a combination occupies when anchored at `(px, py)` and laid
/// one tile per step along `(dx, dy)`.
pub open spec fn placed_locations(comb: Seq<Tile>, px: int, py: int, dx: int, dy: int) -> Seq<Location> {
    Seq::new(
        comb.len(),
        |k: int| Location {
            position: Position { x: (px + dx * k) as i8, y: (py + dy * k) as i8 },
            tile: comb[k],
        },
    )
}

/// If no location up to index `i` sits at `(x, y)`, the lookup is decided by
/// the rest of the sequence.
proof fn lemma_cell_at_skip(b: Seq<Location>, x: int, y: int, i: int)
    requires
        0 <= i <= b.len(),
        forall|j: int| 0 <= j < i ==> !(b[j].position.x as int == x && b[j].position.y as int == y),
    ensures
        cell_at(b, x, y) == cell_at(b.skip(i), x, y),
    decreases i,
{
    if i > 0 {
        lemma_cell_at_skip(b.drop_first(), x, y, i - 1);
        assert(b.drop_first().skip(i - 1) =~= b.skip(i));
    } else {
        assert(b.skip(0) =~= b);
    }
}

/// A lookup at coordinates where some location sits finds a tile.
pub proof fn lemma_cell_at_occupied(b: Seq<Location>, x: int, y: int, i: int)
    requires
        0 <= i < b.len(),
        b[i].position.x as int == x,
        b[i].position.y as int == y,
    ensures
        cell_at(b, x, y) is Some,
    decreases b.len(),
{
    if !(b[0].position.x as int == x && b[0].position.y as int == y) {
        lemma_cell_at_occupied(b.drop_first(), x, y, i - 1);
    }
}

/// A lookup off the `i8` grid finds nothing.
pub proof fn lemma_cell_off_grid(b: Seq<Location>, x: int, y: int)
    requires
        !on_grid(x, y),
    ensures
        cell_at(b, x, y) is None,
    decreases b.len(),
{
    if b.len() > 0 {
        lemma_cell_off_grid(b.drop_first(), x, y);
    }
}

/// A ray holds at most as many tiles as its fuel allows.
pub proof fn lemma_ray_len(b: Seq<Location>, x: int, y: int, dx: int, dy: int, fuel: nat)
    ensures
        ray_tiles(b, x, y, dx, dy, fuel).len() <= fuel,
    decreases fuel,
{
    if fuel > 0 && cell_at(b, x + dx, y + dy) is Some {
        lemma_ray_len(b, x + dx, y + dy, dx, dy, (fuel - 1) as nat);
    }
}

/// The playing surface: a sparse, append-only collection of placed tiles.
/// Nothing is ever removed or overwritten.  The board itself does not reject
/// a second tile on an occupied cell; the move validator refuses any such
/// placement before it is committed, and lookups read the earliest tile.
#[derive(Clone)]
pub struct Board {
    tiles: Vec<Location>,
}

impl View for Board {
    type V = Seq<Location>;

    closed spec fn view(&self) -> Seq<Location> {
        self.tiles@
    }
}

impl Board {
    /// Constructs a new, empty board to play on.
    pub fn new() -> (r: Board)
        ensures
            r@ =~= Seq::<Location>::empty(),
    {
        Board { tiles: Vec::new() }
    }

    /// Returns all tiles on the board, in the order they were placed.
    pub fn tiles(&self) -> (r: &Vec<Location>)
        ensures
            r@ == self@,
    {
        &self.tiles
    }

    /// Appends a tile to the board.  Upstream validation is trusted to have
    /// checked that the cell is free.
    pub fn add_tile(&mut self, location: Location)
        ensures
            final(self)@ == old(self)@.push(location),
    {
        self.tiles.push(location);
    }

    /// Places every tile of a validated move: the combination's tiles land one
    /// per step from the move's position along its direction.
    pub fn add_tiles(&mut self, partial_move: &PartialMove)
        requires
            partial_move.direction.is_unit(),
            forall|k: int|
                0 <= k < partial_move.combination@.len() ==> #[trigger] on_grid(
                    partial_move.position.x as int + partial_move.direction.0 as int * k,
                    partial_move.position.y as int + partial_move.direction.1 as int * k,
                ),
        ensures
            final(self)@ == old(self)@ + placed_locations(
                partial_move.combination@,
                partial_move.position.x as int,
                partial_move.position.y as int,
                partial_move.direction.0 as int,
                partial_move.direction.1 as int,
            ),
    {
        let ghost px = partial_move.position.x as int;
        let ghost py = partial_move.position.y as int;
        let ghost dx = partial_move.direction.0 as int;
        let ghost dy = partial_move.direction.1 as int;
        let ghost placed = placed_locations(partial_move.combination@, px, py, dx, dy);

        let combination = &partial_move.combination;
        let position = partial_move.position;
        let direction = partial_move.direction;

        proof {
            // More than 256 steps along a unit vector would leave the grid.
            if combination@.len() > 256 {
                assert(!on_grid(px + dx * 256, py + dy * 256));
            }
        }

        for index in 0..combination.len()
            invariant
                combination@.len() <= 256,
                direction.is_unit(),
                px == position.x as int && py == position.y as int,
                dx == direction.0 as int && dy == direction.1 as int,
                placed == placed_locations(combination@, px, py, dx, dy),
                forall|k: int| 0 <= k < combination@.len() ==> #[trigger] on_grid(px + dx * k, py + dy * k),
                self@ =~= old(self)@ + placed.subrange(0, index as int),
        {
            let step = index as i32;
            let x = position.x as i32 + direction.0 as i32 * step;
            let y = position.y as i32 + direction.1 as i32 * step;
            assert(x == px + dx * index && y == py + dy * index);
            assert(on_grid(x as int, y as int));
            let location = Location {
                tile: combination[index],
                position: Position { x: x as i8, y: y as i8 },
            };
            assert(location == placed[index as int]);
            self.add_tile(location);
            proof {
                assert(placed.subrange(0, index + 1) =~= placed.subrange(0, index as int).push(
                    placed[index as int],
                ));
            }
        }
        proof {
            assert(placed.subrange(0, combination@.len() as int) =~= placed);
        }
    }

    /// Searches for a tile at `(x, y)`.  Returns the earliest tile placed
    /// there, or `None` for a free cell.
    pub fn get(&self, x: i8, y: i8) -> (r: Option<Tile>)
        ensures
            r == cell_at(self@, x as int, y as int),
    {
        self.get_cell(x as i32, y as i32)
    }

    /// The same lookup over wider coordinates, so that callers can probe a
    /// neighbour of a grid-edge cell without leaving `i32`.
    pub(crate) fn get_cell(&self, x: i32, y: i32) -> (r: Option<Tile>)
        ensures
            r == cell_at(self@, x as int, y as int),
    {
        for i in 0..self.tiles.len()
            invariant
                forall|j: int|
                    0 <= j < i ==> !(self@[j].position.x as int == x as int
                        && self@[j].position.y as int == y as int),
        {
            let location = &self.tiles[i];
            if location.position.x as i32 == x && location.position.y as i32 == y {
                proof {
                    lemma_cell_at_skip(self@, x as int, y as int, i as int);
                }
                return Some(location.tile);
            }
        }
        proof {
            lemma_cell_at_skip(self@, x as int, y as int, self@.len() as int);
            assert(self@.skip(self@.len() as int) =~= Seq::<Location>::empty());
        }
        None
    }

    /// Returns the tiles next to `position` along `direction`, nearest first,
    /// up to the first empty cell.
    pub fn get_tiles(&self, position: Position, direction: Direction) -> (r: Tiles)
        requires
            direction.is_unit(),
        ensures
            r@ == spec_ray(self@, position.x as int, position.y as int, direction.0 as int,
                direction.1 as int),
    {
        self.ray(position.x as i32, position.y as i32, direction.0, direction.1, 300)
    }

    /// Walks the ray one cell at a time, mirroring `ray_tiles` step for step.
    fn ray(&self, x: i32, y: i32, dx: i8, dy: i8, fuel: u32) -> (r: Tiles)
        requires
            fuel <= 300,
            -428 + fuel as int <= x as int <= 428 - fuel as int,
            -428 + fuel as int <= y as int <= 428 - fuel as int,
            -1 <= dx as int <= 1,
            -1 <= dy as int <= 1,
        ensures
            r@ == ray_tiles(self@, x as int, y as int, dx as int, dy as int, fuel as nat),
        decreases fuel,
    {
        if fuel == 0 {
            return Vec::new();
        }
        let nx = x + dx as i32;
        let ny = y + dy as i32;
        match self.get_cell(nx, ny) {
            None => Vec::new(),
            Some(t) => {
                let mut rest = self.ray(nx, ny, dx, dy, fuel - 1);
                rest.insert(0, t);
                proof {
                    assert(rest@ =~= seq![t] + ray_tiles(self@, nx as int, ny as int, dx as int,
                        dy as int, (fuel - 1) as nat));
                }
                rest
            },
        }
    }
}

} // verus!
