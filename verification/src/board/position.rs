use vstd::prelude::*;

verus! {

/// A cell of the playing grid.  The grid is the full square of `i8`
/// coordinates; a scan that would leave it simply finds nothing there.
#[derive(Clone, Copy, PartialEq, Eq, Structural, Debug)]
pub struct Position {
    pub x: i8,
    pub y: i8,
}

/// Whether integer coordinates name a cell of the `i8` grid.
pub open spec fn on_grid(x: int, y: int) -> bool {
    &&& i8::MIN <= x <= i8::MAX
    &&& i8::MIN <= y <= i8::MAX
}

} // verus!
