use vstd::prelude::*;

verus! {

/// How many distinct colors exist.
pub const COLORS_NUMBER: usize = 6;
/// How many distinct shapes exist.
pub const SHAPES_NUMBER: usize = 6;
/// How many copies of each (color, shape) pair one deck holds.
pub const SHAPES_REPETITION: usize = 3;

/// A game piece: a color and a shape, nothing more.  Two physical tiles with
/// the same attributes are indistinguishable values.
#[derive(Clone, Copy, PartialEq, Eq, Structural, Debug)]
pub struct Tile {
    pub color: Color,
    pub shape: Shape,
}

pub type Tiles = Vec<Tile>;

/// A fresh vector holding the same tiles.  Tiles are plain values, so this is
/// the whole meaning of cloning a hand, a combination or a line.
pub fn clone_tiles(tiles: &Vec<Tile>) -> (r: Vec<Tile>)
    ensures
        r@ == tiles@,
{
    let mut out: Vec<Tile> = Vec::new();
    for i in 0..tiles.len()
        invariant
            out@ =~= tiles@.subrange(0, i as int),
    {
        out.push(tiles[i]);
    }
    proof {
        assert(out@ =~= tiles@);
    }
    out
}

#[derive(Clone, Copy, PartialEq, Eq, Structural, Debug)]
pub enum Color {
    Red,
    Orange,
    Yellow,
    Green,
    Blue,
    Purple,
}

#[derive(Clone, Copy, PartialEq, Eq, Structural, Debug)]
pub enum Shape {
    Square,
    Circle,
    Diamond,
    Club,
    Star,
    Cross,
}

} // verus!
