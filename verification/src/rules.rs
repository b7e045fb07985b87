use vstd::prelude::*;

use crate::board::direction::{is_unit_vec, perp_dx, perp_dy};
use crate::board::location::Location;
use crate::board::mov::{Move, PartialMove, SpecPlacement};
use crate::board::position::{on_grid, Position};
use crate::board::{cell_at, ray_tiles, spec_ray, Board};
use crate::player::Points;
use crate::tile::{Tile, Tiles};

verus! {

/// The atomic matching rule: two tiles combine when they share exactly one of
/// {color, shape}.  A tile never matches a tile with its own two attributes.
pub open spec fn tiles_match(a: Tile, b: Tile) -> bool {
    &&& (a.color == b.color || a.shape == b.shape)
    &&& !(a.color == b.color && a.shape == b.shape)
}

/// Every pair of tiles within the line combines, not just adjacent ones.  A
/// line of one tile holds no pair, so it is always valid.
pub open spec fn line_ok(line: Seq<Tile>) -> bool {
    forall|i: int, j: int| 0 <= i < j < line.len() ==> tiles_match(line[i], line[j])
}

/// A grid cell that exists and holds no tile.
pub open spec fn free_cell(b: Seq<Location>, x: int, y: int) -> bool {
    &&& on_grid(x, y)
    &&& cell_at(b, x, y) is None
}

/// Every cell the placement would cover is a free cell of the grid.
pub open spec fn spec_placeable(b: Seq<Location>, m: SpecPlacement) -> bool {
    forall|k: int| 0 <= k < m.comb.len() ==> #[trigger] free_cell(b, m.px + m.dx * k, m.py + m.dy * k)
}

/// The one line the placement extends: the run already behind its anchor,
/// then the combination, then the run already past its last tile.
pub open spec fn spec_main_line(b: Seq<Location>, m: SpecPlacement) -> Seq<Tile> {
    spec_ray(b, m.px, m.py, -m.dx, -m.dy) + m.comb + spec_ray(
        b,
        m.px + m.dx * (m.comb.len() - 1),
        m.py + m.dy * (m.comb.len() - 1),
        m.dx,
        m.dy,
    )
}

/// The perpendicular line through the placement's `k`-th tile: the runs on
/// both sides of its cell with the tile itself between them.
pub open spec fn spec_cross_line(b: Seq<Location>, m: SpecPlacement, k: int) -> Seq<Tile> {
    let cx = m.px + m.dx * k;
    let cy = m.py + m.dy * k;
    let qx = perp_dx(m.dx, m.dy);
    let qy = perp_dy(m.dx, m.dy);
    spec_ray(b, cx, cy, -qx, -qy) + seq![m.comb[k]] + spec_ray(b, cx, cy, qx, qy)
}

/// Whether the `k`-th tile has any perpendicular neighbour.  Only such a tile
/// forms a cross line that scores.
pub open spec fn cross_active(b: Seq<Location>, m: SpecPlacement, k: int) -> bool {
    spec_cross_line(b, m, k).len() > 1
}

/// A legal move: every covered cell is free, and the main line as well as
/// every cross line stays pairwise matchable.  (A cross line of a single tile
/// holds no pair, so quantifying over all of them adds nothing for inactive
/// tiles.)
pub open spec fn spec_move_ok(b: Seq<Location>, m: SpecPlacement) -> bool {
    &&& spec_placeable(b, m)
    &&& line_ok(spec_main_line(b, m))
    &&& forall|k: int| 0 <= k < m.comb.len() ==> line_ok(#[trigger] spec_cross_line(b, m, k))
}

/// What one line is worth: its tile count, doubled to 12 when it reaches the
/// full 6 tiles.
pub open spec fn line_points(line: Seq<Tile>) -> int {
    if line.len() == 6 {
        12
    } else {
        line.len() as int
    }
}

/// The points of the cross lines of tiles `k` and onward; a tile with no
/// perpendicular neighbour contributes nothing.
pub open spec fn cross_points_from(b: Seq<Location>, m: SpecPlacement, k: int) -> int
    decreases m.comb.len() - k,
{
    if k < 0 || k >= m.comb.len() {
        0
    } else {
        (if cross_active(b, m, k) {
            line_points(spec_cross_line(b, m, k))
        } else {
            0
        }) + cross_points_from(b, m, k + 1)
    }
}

/// What a legal move awards: the main line plus every active cross line.
pub open spec fn spec_move_points(b: Seq<Location>, m: SpecPlacement) -> int {
    line_points(spec_main_line(b, m)) + cross_points_from(b, m, 0)
}

/// Matching is symmetric: the rule reads the same from either tile.
pub proof fn lemma_matching_symmetric(a: Tile, b: Tile)
    ensures
        tiles_match(a, b) == tiles_match(b, a),
{
}

/// Matching is irreflexive: a tile never combines with an identical tile.
pub proof fn lemma_matching_irreflexive(a: Tile)
    ensures
        !tiles_match(a, a),
{
}

/// A full line of exactly 6 tiles earns double its length, 12 points, not 7.
pub proof fn lemma_full_line_bonus(line: Seq<Tile>)
    requires
        line.len() == 6,
    ensures
        line_points(line) == 12,
{
}

/// A placement one of whose target cells already holds a board tile is never
/// a legal move, so the validator refuses it.
pub proof fn lemma_occupied_cell_rejected(b: Seq<Location>, m: SpecPlacement, k: int, i: int)
    requires
        0 <= k < m.comb.len(),
        0 <= i < b.len(),
        b[i].position.x as int == m.px + m.dx * k,
        b[i].position.y as int == m.py + m.dy * k,
    ensures
        !spec_move_ok(b, m),
{
    crate::board::lemma_cell_at_occupied(b, m.px + m.dx * k, m.py + m.dy * k, i);
    assert(!free_cell(b, m.px + m.dx * k, m.py + m.dy * k));
}

/// Placing any single tile anywhere on an empty board is legal and scores
/// exactly 1 point: it forms a main line of one tile and no cross line.
pub proof fn lemma_first_move_scores_one(m: SpecPlacement)
    requires
        m.comb.len() == 1,
        on_grid(m.px, m.py),
        is_unit_vec(m.dx, m.dy),
    ensures
        spec_move_ok(Seq::<Location>::empty(), m),
        spec_move_points(Seq::<Location>::empty(), m) == 1,
{
    let b = Seq::<Location>::empty();
    assert forall|x: int, y: int, dx: int, dy: int, fuel: nat|
        ray_tiles(b, x, y, dx, dy, fuel).len() == 0 by {
        assert(cell_at(b, x + dx, y + dy) is None);
    }
    assert(spec_main_line(b, m) =~= m.comb);
    assert(spec_cross_line(b, m, 0) =~= seq![m.comb[0]]);
    assert forall|k: int| 0 <= k < m.comb.len() implies line_ok(#[trigger] spec_cross_line(b, m, k)) by {
        assert(spec_cross_line(b, m, k).len() == 1);
    }
    assert forall|k: int| 0 <= k < m.comb.len() implies #[trigger] free_cell(b, m.px + m.dx * k,
        m.py + m.dy * k) by {
        assert(k == 0);
        assert(m.px + m.dx * 0 == m.px && m.py + m.dy * 0 == m.py);
    }
    assert(cross_points_from(b, m, 0) == 0) by {
        assert(!cross_active(b, m, 0));
        assert(cross_points_from(b, m, 1) == 0);
    }
    assert(line_points(spec_main_line(b, m)) == 1);
}


/// The points of the cross lines from tile `k` on are non-negative and at
/// most 700 for each remaining tile.
proof fn lemma_cross_points_range(b: Seq<Location>, m: SpecPlacement, k: int)
    ensures
        0 <= cross_points_from(b, m, k),
        k >= 0 ==> cross_points_from(b, m, k) <= 700 * (if m.comb.len() - k >= 0 {
            m.comb.len() - k
        } else {
            0
        }),
        k < 0 ==> cross_points_from(b, m, k) == 0,
    decreases m.comb.len() - k,
{
    if 0 <= k < m.comb.len() {
        lemma_cross_points_range(b, m, k + 1);
        crate::board::lemma_ray_len(b, m.px + m.dx * k, m.py + m.dy * k, -perp_dx(m.dx, m.dy),
            -perp_dy(m.dx, m.dy), 300);
        crate::board::lemma_ray_len(b, m.px + m.dx * k, m.py + m.dy * k, perp_dx(m.dx, m.dy),
            perp_dy(m.dx, m.dy), 300);
        assert(spec_cross_line(b, m, k).len() <= 601);
    }
}

/// A placement that fits on the grid holds at most 256 tiles, and a legal
/// move awards between 1 and 400000 points.
pub proof fn lemma_move_points_bounds(b: Seq<Location>, m: SpecPlacement)
    requires
        m.comb.len() >= 1,
        is_unit_vec(m.dx, m.dy),
        spec_placeable(b, m),
    ensures
        m.comb.len() <= 256,
        1 <= spec_move_points(b, m) <= 400000,
{
    assert(free_cell(b, m.px + m.dx * 0, m.py + m.dy * 0));
    assert(on_grid(m.px, m.py));
    if m.comb.len() > 256 {
        assert(free_cell(b, m.px + m.dx * 256, m.py + m.dy * 256));
        assert(false);
    }
    lemma_cross_points_range(b, m, 0);
    crate::board::lemma_ray_len(b, m.px, m.py, -m.dx, -m.dy, 300);
    crate::board::lemma_ray_len(b, m.px + m.dx * (m.comb.len() - 1), m.py + m.dy * (m.comb.len()
        - 1), m.dx, m.dy, 300);
    assert(1 <= spec_main_line(b, m).len() <= 857);
    assert(1 <= line_points(spec_main_line(b, m)) <= 857);
}

/// Validates combination between two tiles.
///
/// To be valid, a combination must have either the same color or the same
/// shape but not both at the same time.
pub fn validate_tiles(tile0: &Tile, tile1: &Tile) -> (r: bool)
    ensures
        r == tiles_match(*tile0, *tile1),
{
    let is_combinable = tile0.color == tile1.color || tile0.shape == tile1.shape;
    let is_same_tile = tile0.color == tile1.color && tile0.shape == tile1.shape;

    is_combinable && !is_same_tile
}

/// Checks one line: every tile against every later tile.
fn validate_alignement(alignement: &Tiles) -> (r: bool)
    ensures
        r == line_ok(alignement@),
{
    let n = alignement.len();
    for i in 0..n
        invariant
            n == alignement@.len(),
            forall|a: int, b: int| 0 <= a < i && a < b < n ==> tiles_match(alignement@[a], alignement@[b]),
    {
        for j in (i + 1)..n
            invariant
                i < n == alignement@.len(),
                forall|a: int, b: int| 0 <= a < i && a < b < n ==> tiles_match(alignement@[a], alignement@[b]),
                forall|b: int| i < b < j ==> tiles_match(alignement@[i as int], alignement@[b]),
        {
            if !validate_tiles(&alignement[i], &alignement[j]) {
                assert(!line_ok(alignement@));
                return false;
            }
        }
    }
    true
}

/// Validates a list of alignements of tiles: every line must keep every pair
/// of its tiles combinable.
pub fn validate_alignements(alignements: &Vec<Tiles>) -> (r: bool)
    ensures
        r == forall|l: int| 0 <= l < alignements@.len() ==> line_ok(alignements@[l]@),
{
    let n = alignements.len();
    for l in 0..n
        invariant
            n == alignements@.len(),
            forall|m: int| 0 <= m < l ==> line_ok(alignements@[m]@),
    {
        if !validate_alignement(&alignements[l]) {
            return false;
        }
    }
    true
}

/// What one line is worth, as executable arithmetic.
fn line_points_exec(alignement: &Tiles) -> (r: i32)
    requires
        alignement@.len() <= 100000,
    ensures
        r as int == line_points(alignement@),
{
    let length = alignement.len() as i32;
    if length == 6 {
        12
    } else {
        length
    }
}

/// Validates a `partial_move` and returns how many points it gives.
/// Returns a `Move`, i.e. `partial_move` + `points`.
///
/// First it checks that there is free space to place it.  Then it builds
/// every alignement created by the move and validates them all: the move is
/// legal exactly when `spec_move_ok` holds, and its points are then exactly
/// `spec_move_points`.
pub fn validate_partial_move(board: &Board, partial_move: PartialMove) -> (r: Option<Move>)
    requires
        partial_move.combination@.len() >= 1,
        partial_move.direction.is_unit(),
    ensures
        match r {
            Some(made) => {
                &&& spec_move_ok(board@, partial_move@)
                &&& made.combination@ == partial_move.combination@
                &&& made.position == partial_move.position
                &&& made.direction == partial_move.direction
                &&& made.points as int == spec_move_points(board@, partial_move@)
            },
            None => !spec_move_ok(board@, partial_move@),
        },
{
    let ghost b = board@;
    let ghost m = partial_move@;

    let combination = &partial_move.combination;
    let position = partial_move.position;
    let direction = partial_move.direction;
    let len = combination.len();

    // First validate that the combination can be placed from this `position`
    // in this `direction`: every covered cell must be a free cell of the grid.
    let mut k: usize = 0;
    while k < len
        invariant
            b == board@,
            m == partial_move@,
            len == m.comb.len() >= 1,
            position == partial_move.position,
            direction == partial_move.direction,
            direction.is_unit(),
            k <= len,
            forall|j: int| 0 <= j < k ==> #[trigger] free_cell(b, m.px + m.dx * j, m.py + m.dy * j),
        decreases len - k,
    {
        proof {
            // 257 free cells in a row would walk off the grid.
            if k > 256 {
                assert(free_cell(b, m.px + m.dx * 256, m.py + m.dy * 256));
                assert(false);
            }
        }
        proof {
            assert(m.dx == 0 || m.dx == 1 || m.dx == -1);
            assert(m.dy == 0 || m.dy == 1 || m.dy == -1);
        }
        let x = position.x as i32 + direction.0 as i32 * (k as i32);
        let y = position.y as i32 + direction.1 as i32 * (k as i32);
        assert(x as int == m.px + m.dx * k && y as int == m.py + m.dy * k);
        if x < -128 || x > 127 || y < -128 || y > 127 {
            proof {
                assert(!free_cell(b, m.px + m.dx * (k as int), m.py + m.dy * (k as int)));
            }
            return None;
        }
        if board.get_cell(x, y).is_some() {
            proof {
                assert(!free_cell(b, m.px + m.dx * (k as int), m.py + m.dy * (k as int)));
            }
            return None;
        }
        k = k + 1;
    }
    proof {
        if len > 256 {
            assert(free_cell(b, m.px + m.dx * 256, m.py + m.dy * 256));
            assert(false);
        }
    }

    // Build the main alignement, which follows the move's direction.
    let opposite = direction.opposite();
    let before = board.get_tiles(position, opposite);

    let last_step = (len - 1) as i32;
    proof {
        assert(m.dx == 0 || m.dx == 1 || m.dx == -1);
        assert(m.dy == 0 || m.dy == 1 || m.dy == -1);
    }
    let lx = position.x as i32 + direction.0 as i32 * last_step;
    let ly = position.y as i32 + direction.1 as i32 * last_step;
    assert(lx as int == m.px + m.dx * (len - 1) && ly as int == m.py + m.dy * (len - 1));
    assert(free_cell(b, m.px + m.dx * (len - 1), m.py + m.dy * (len - 1)));
    let last_position = Position { x: lx as i8, y: ly as i8 };
    let after = board.get_tiles(last_position, direction);

    let mut main_alignement = before;
    let mut middle = crate::tile::clone_tiles(combination);
    main_alignement.append(&mut middle);
    let mut after = after;
    main_alignement.append(&mut after);
    proof {
        assert(main_alignement@ =~= spec_main_line(b, m));
        crate::board::lemma_ray_len(b, m.px, m.py, -m.dx, -m.dy, 300);
        crate::board::lemma_ray_len(b, m.px + m.dx * (len - 1), m.py + m.dy * (len - 1), m.dx,
            m.dy, 300);
        assert(main_alignement@.len() <= 300 + len + 300);
    }

    if !validate_alignement(&main_alignement) {
        return None;
    }

    // For every tile of the combination, build and check its perpendicular
    // alignement, accumulating the points of the active ones.
    let perpendicular = direction.perpendicular();
    let perpendicular_opposite = perpendicular.opposite();

    let mut cross_points: i32 = 0;
    let mut k: usize = 0;
    while k < len
        invariant
            b == board@,
            m == partial_move@,
            len == m.comb.len(),
            1 <= len <= 256,
            position == partial_move.position,
            direction == partial_move.direction,
            direction.is_unit(),
            perpendicular.0 as int == perp_dx(m.dx, m.dy),
            perpendicular.1 as int == perp_dy(m.dx, m.dy),
            perpendicular_opposite.0 as int == -perp_dx(m.dx, m.dy),
            perpendicular_opposite.1 as int == -perp_dy(m.dx, m.dy),
            perpendicular.is_unit() && perpendicular_opposite.is_unit(),
            partial_move.combination@ == m.comb,
            combination@ == m.comb,
            k <= len,
            spec_placeable(b, m),
            forall|j: int| 0 <= j < k ==> line_ok(#[trigger] spec_cross_line(b, m, j)),
            cross_points as int == cross_points_from(b, m, 0) - cross_points_from(b, m, k as int),
            0 <= cross_points as int <= 700 * k,
        decreases len - k,
    {
        proof {
            assert(k < len <= 256);
            assert(-1 <= direction.0 as int <= 1 && -1 <= direction.1 as int <= 1);
            assert(m.dx == direction.0 as int && m.dy == direction.1 as int);
            assert(-256 <= m.dx * (k as int) <= 256 && -256 <= m.dy * (k as int) <= 256)
                by (nonlinear_arith)
                requires
                    -1 <= m.dx <= 1,
                    -1 <= m.dy <= 1,
                    0 <= k as int <= 256,
            ;
        }
        let x = position.x as i32 + direction.0 as i32 * (k as i32);
        let y = position.y as i32 + direction.1 as i32 * (k as i32);
        assert(x as int == m.px + m.dx * k && y as int == m.py + m.dy * k);
        assert(free_cell(b, m.px + m.dx * (k as int), m.py + m.dy * (k as int)));
        let tile_position = Position { x: x as i8, y: y as i8 };

        let cross_before = board.get_tiles(tile_position, perpendicular_opposite);
        let cross_after = board.get_tiles(tile_position, perpendicular);

        let mut alignement = cross_before;
        alignement.push(combination[k]);
        let mut cross_after = cross_after;
        alignement.append(&mut cross_after);
        proof {
            assert(alignement@ =~= spec_cross_line(b, m, k as int));
            crate::board::lemma_ray_len(b, m.px + m.dx * k, m.py + m.dy * k, -perp_dx(m.dx, m.dy),
                -perp_dy(m.dx, m.dy), 300);
            crate::board::lemma_ray_len(b, m.px + m.dx * k, m.py + m.dy * k, perp_dx(m.dx, m.dy),
                perp_dy(m.dx, m.dy), 300);
            assert(alignement@.len() <= 601);
        }

        if alignement.len() > 1 {
            // The tile is aligned with something: this cross line must hold
            // and it scores.
            if !validate_alignement(&alignement) {
                return None;
            }
            let line = line_points_exec(&alignement);
            proof {
                assert(0 <= line as int <= 601);
                assert(cross_points_from(b, m, k as int) == line_points(spec_cross_line(b, m,
                    k as int)) + cross_points_from(b, m, k as int + 1));
            }
            cross_points = cross_points + line;
        } else {
            proof {
                assert(!cross_active(b, m, k as int));
                assert(cross_points_from(b, m, k as int) == cross_points_from(b, m, k as int + 1));
                assert(line_ok(spec_cross_line(b, m, k as int)));
            }
        }
        k = k + 1;
    }
    proof {
        assert(cross_points_from(b, m, len as int) == 0);
        assert(cross_points as int == cross_points_from(b, m, 0));
    }

    let main_points = line_points_exec(&main_alignement);
    let points: Points = main_points + cross_points;
    proof {
        assert(points as int == spec_move_points(b, m));
    }

    Some(partial_move.into_move(points))
}

} // verus!
