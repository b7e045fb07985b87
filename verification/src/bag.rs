use vstd::prelude::*;

use crate::tile::{Color, Shape, Tile, COLORS_NUMBER, SHAPES_NUMBER, SHAPES_REPETITION};

verus! {

/// 6 shapes * 6 colors * 3 copies = 108 tiles in a full bag.
pub const BAG_SIZE: usize = 108;

/// The color of the tile at `index` in a freshly built bag: the deck runs
/// through the colors in blocks of 18 tiles each.
pub open spec fn spec_tile_color(index: int) -> Color {
    let c = (index / 18) % 6;
    if c == 0 {
        Color::Red
    } else if c == 1 {
        Color::Orange
    } else if c == 2 {
        Color::Yellow
    } else if c == 3 {
        Color::Green
    } else if c == 4 {
        Color::Blue
    } else {
        Color::Purple
    }
}

/// The shape of the tile at `index` in a freshly built bag: within a color
/// block the shapes cycle in runs of 3 identical tiles.
pub open spec fn spec_tile_shape(index: int) -> Shape {
    let s = (index / 3) % 6;
    if s == 0 {
        Shape::Square
    } else if s == 1 {
        Shape::Circle
    } else if s == 2 {
        Shape::Diamond
    } else if s == 3 {
        Shape::Club
    } else if s == 4 {
        Shape::Star
    } else {
        Shape::Cross
    }
}

/// The pool tiles are drawn from.  It starts full and sorted; draws remove
/// tiles by index, and replaced tiles may be appended back.
#[derive(Debug)]
pub struct Bag {
    tiles: Vec<Tile>,
}

impl View for Bag {
    type V = Seq<Tile>;

    closed spec fn view(&self) -> Seq<Tile> {
        self.tiles@
    }
}

impl Bag {
    /// Constructs a new filled bag with 108 tiles, sorted by color then shape.
    pub fn new() -> (r: Bag)
        ensures
            r@.len() == BAG_SIZE,
            forall|i: int| 0 <= i < r@.len() ==> r@[i] == (Tile {
                color: spec_tile_color(i),
                shape: spec_tile_shape(i),
            }),
    {
        let mut tiles = Vec::new();

        for index in 0..BAG_SIZE
            invariant
                tiles@.len() == index,
                forall|i: int| 0 <= i < index ==> tiles@[i] == (Tile {
                    color: spec_tile_color(i),
                    shape: spec_tile_shape(i),
                }),
        {
            tiles.push(Tile { color: get_tile_color(index), shape: get_tile_shape(index) });
        }

        Bag { tiles }
    }

    /// Returns all tiles left in the bag.
    pub fn tiles(&self) -> (r: &Vec<Tile>)
        ensures
            r@ == self@,
    {
        &self.tiles
    }

    /// Removes and returns the tile at position `index` within the bag, or
    /// `None` when the bag holds no such position.
    pub fn remove(&mut self, index: usize) -> (r: Option<Tile>)
        ensures
            index < old(self)@.len() ==> {
                &&& r == Some(old(self)@[index as int])
                &&& final(self)@ == old(self)@.remove(index as int)
            },
            index >= old(self)@.len() ==> r is None && final(self)@ == old(self)@,
    {
        if index < self.tiles.len() {
            Some(self.tiles.remove(index))
        } else {
            None
        }
    }

    /// Appends tiles back into the bag, as when a hand is replaced.
    pub fn add(&mut self, tiles: Vec<Tile>)
        ensures
            final(self)@ == old(self)@ + tiles@,
    {
        let mut tiles = tiles;
        let ghost added = tiles@;
        for i in 0..tiles.len()
            invariant
                tiles@ == added,
                self@ =~= old(self)@ + added.subrange(0, i as int),
        {
            self.tiles.push(tiles[i]);
            proof {
                assert(added.subrange(0, i + 1) =~= added.subrange(0, i as int).push(added[i as int]));
            }
        }
        proof {
            assert(added.subrange(0, added.len() as int) =~= added);
        }
    }
}

/// The color a fresh bag gives the tile at `index`.
fn get_tile_color(index: usize) -> (r: Color)
    ensures
        r == spec_tile_color(index as int),
{
    match (index / (COLORS_NUMBER * SHAPES_REPETITION)) % COLORS_NUMBER {
        0 => Color::Red,
        1 => Color::Orange,
        2 => Color::Yellow,
        3 => Color::Green,
        4 => Color::Blue,
        _ => Color::Purple,
    }
}

/// The shape a fresh bag gives the tile at `index`.
fn get_tile_shape(index: usize) -> (r: Shape)
    ensures
        r == spec_tile_shape(index as int),
{
    match (index / SHAPES_REPETITION) % SHAPES_NUMBER {
        0 => Shape::Square,
        1 => Shape::Circle,
        2 => Shape::Diamond,
        3 => Shape::Club,
        4 => Shape::Star,
        _ => Shape::Cross,
    }
}

} // verus!
