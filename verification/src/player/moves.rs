use vstd::prelude::*;

use crate::board::direction::{is_unit_vec, Direction};
use crate::board::location::Location;
use crate::board::mov::{Move, Moves, PartialMove, SpecMove, SpecPlacement};
use crate::board::position::{on_grid, Position};
use crate::board::{cell_at, Board};
use crate::player::Combination;
use crate::rules::{
    free_cell, spec_move_ok, spec_move_points, tiles_match, validate_partial_move,
};
use crate::tile::{clone_tiles, Tile};

verus! {

/// The placements and views of a sequence of validated moves.
pub open spec fn views_of(moves: Seq<Move>) -> Seq<SpecMove> {
    moves.map_values(|mv: Move| mv@)
}

/// The move a legal placement turns into: the placement with its points.
pub open spec fn spec_validated_move(b: Seq<Location>, m: SpecPlacement) -> SpecMove {
    SpecMove { place: m, points: spec_move_points(b, m) }
}

/// What validating one placement contributes to the search: one move when the
/// placement is legal, nothing otherwise.
pub open spec fn spec_move_candidates(b: Seq<Location>, m: SpecPlacement) -> Seq<SpecMove> {
    if spec_move_ok(b, m) {
        seq![spec_validated_move(b, m)]
    } else {
        Seq::empty()
    }
}

/// The candidates for one free cell when the combination has more than one
/// tile: it may extend in any of the four directions, tried in the fixed
/// north, east, south, west order.
pub open spec fn spec_all_direction_moves(b: Seq<Location>, comb: Seq<Tile>, px: int, py: int) -> Seq<
    SpecMove,
> {
    spec_move_candidates(b, SpecPlacement { comb, px, py, dx: 0, dy: 1 })
        + spec_move_candidates(b, SpecPlacement { comb, px, py, dx: 1, dy: 0 })
        + spec_move_candidates(b, SpecPlacement { comb, px, py, dx: 0, dy: -1 })
        + spec_move_candidates(b, SpecPlacement { comb, px, py, dx: -1, dy: 0 })
}

/// The candidates anchored at the free cell `(px, py)` found next to the
/// board tile at `(lpx, lpy)`.  A single tile extends nowhere, so only the
/// direction it was discovered along is tried; a longer combination may run
/// any of the four ways.
pub open spec fn spec_pos_moves(
    b: Seq<Location>,
    comb: Seq<Tile>,
    lpx: int,
    lpy: int,
    px: int,
    py: int,
) -> Seq<SpecMove> {
    if comb.len() == 1 {
        spec_move_candidates(b, SpecPlacement { comb, px, py, dx: px - lpx, dy: py - lpy })
    } else {
        spec_all_direction_moves(b, comb, px, py)
    }
}

/// The candidates reached through the neighbour of `(lpx, lpy)` one step
/// along `(dx, dy)`: none when that cell already holds a tile.
pub open spec fn spec_neighbor_moves(
    b: Seq<Location>,
    comb: Seq<Tile>,
    lpx: int,
    lpy: int,
    dx: int,
    dy: int,
) -> Seq<SpecMove> {
    if cell_at(b, lpx + dx, lpy + dy) is Some {
        Seq::empty()
    } else {
        spec_pos_moves(b, comb, lpx, lpy, lpx + dx, lpy + dy)
    }
}

/// Every candidate found around one board tile, walking its four neighbours
/// in the north, east, south, west order.
pub open spec fn spec_location_moves(b: Seq<Location>, comb: Seq<Tile>, lpx: int, lpy: int) -> Seq<
    SpecMove,
> {
    spec_neighbor_moves(b, comb, lpx, lpy, 0, 1) + spec_neighbor_moves(b, comb, lpx, lpy, 1, 0)
        + spec_neighbor_moves(b, comb, lpx, lpy, 0, -1) + spec_neighbor_moves(
        b,
        comb,
        lpx,
        lpy,
        -1,
        0,
    )
}

/// Every candidate the combination has on the board, walking the board tiles
/// from index `i` on.  A board tile whose own tile does not match the
/// combination's first tile is skipped outright: no line through it could
/// hold both.
pub open spec fn spec_combination_moves_from(b: Seq<Location>, comb: Seq<Tile>, i: int) -> Seq<
    SpecMove,
>
    decreases b.len() - i,
{
    if i < 0 || i >= b.len() {
        Seq::empty()
    } else {
        (if tiles_match(comb[0], b[i].tile) {
            spec_location_moves(b, comb, b[i].position.x as int, b[i].position.y as int)
        } else {
            Seq::empty()
        }) + spec_combination_moves_from(b, comb, i + 1)
    }
}

/// Every candidate the combination has on the board, in enumeration order.
pub open spec fn spec_combination_moves(b: Seq<Location>, comb: Seq<Tile>) -> Seq<SpecMove> {
    spec_combination_moves_from(b, comb, 0)
}

/// A placement whose anchor lies off the grid is never legal, so it
/// contributes no candidate.
proof fn lemma_pos_moves_off_grid(
    b: Seq<Location>,
    comb: Seq<Tile>,
    lpx: int,
    lpy: int,
    px: int,
    py: int,
)
    requires
        comb.len() >= 1,
        !on_grid(px, py),
    ensures
        spec_pos_moves(b, comb, lpx, lpy, px, py) =~= Seq::<SpecMove>::empty(),
{
    assert forall|dx: int, dy: int| !spec_move_ok(b, SpecPlacement { comb, px, py, dx, dy }) by {
        let m = SpecPlacement { comb, px, py, dx, dy };
        assert(m.px + m.dx * 0 == px && m.py + m.dy * 0 == py);
        assert(!free_cell(b, m.px + m.dx * 0, m.py + m.dy * 0));
    }
}

/// Validates a (partial) move and gets points from it.
pub fn get_move(
    board: &Board,
    combination: &Combination,
    position: Position,
    direction: Direction,
) -> (r: Option<Move>)
    requires
        combination@.len() >= 1,
        direction.is_unit(),
    ensures
        ({
            let m = SpecPlacement {
                comb: combination@,
                px: position.x as int,
                py: position.y as int,
                dx: direction.0 as int,
                dy: direction.1 as int,
            };
            match r {
                Some(made) => spec_move_ok(board@, m) && made@ == spec_validated_move(board@, m),
                None => !spec_move_ok(board@, m),
            }
        }),
{
    let partial_move = PartialMove { combination: clone_tiles(combination), position, direction };
    validate_partial_move(board, partial_move)
}

/// The candidates anchored at the free `position` next to `location`: one
/// validation for a single tile, four for a longer combination.
fn get_combination_moves_near_location_at_position(
    board: &Board,
    combination: &Combination,
    location: &Location,
    position: Position,
) -> (r: Option<Moves>)
    requires
        combination@.len() >= 1,
        is_unit_vec(
            position.x as int - location.position.x as int,
            position.y as int - location.position.y as int,
        ),
    ensures
        r is Some,
        ({
            &&& r matches Some(v)
            &&& views_of(v@) == spec_pos_moves(
                board@,
                combination@,
                location.position.x as int,
                location.position.y as int,
                position.x as int,
                position.y as int,
            )
        }),
{
    let ghost b = board@;
    let ghost comb = combination@;
    let ghost lpx = location.position.x as int;
    let ghost lpy = location.position.y as int;
    let ghost px = position.x as int;
    let ghost py = position.y as int;

    if combination.len() == 1 {
        // A single tile is only tried along the direction it was found on.
        let dx = position.x as i32 - location.position.x as i32;
        let dy = position.y as i32 - location.position.y as i32;
        let direction = Direction(dx as i8, dy as i8);
        assert(direction.0 as int == px - lpx && direction.1 as int == py - lpy);

        let mut moves: Moves = Vec::new();
        match get_move(board, combination, position, direction) {
            Some(one_move) => {
                moves.push(one_move);
            },
            None => {},
        }
        proof {
            assert(views_of(moves@) =~= spec_pos_moves(b, comb, lpx, lpy, px, py));
        }
        Some(moves)
    } else {
        // A longer combination may extend any of the four ways.
        let mut moves: Moves = Vec::new();
        let ghost c0 = spec_move_candidates(b, SpecPlacement { comb, px, py, dx: 0, dy: 1 });
        let ghost c1 = spec_move_candidates(b, SpecPlacement { comb, px, py, dx: 1, dy: 0 });
        let ghost c2 = spec_move_candidates(b, SpecPlacement { comb, px, py, dx: 0, dy: -1 });
        let ghost c3 = spec_move_candidates(b, SpecPlacement { comb, px, py, dx: -1, dy: 0 });

        match get_move(board, combination, position, Direction(0, 1)) {
            Some(one_move) => { moves.push(one_move); },
            None => {},
        }
        proof {
            assert(views_of(moves@) =~= c0);
        }
        match get_move(board, combination, position, Direction(1, 0)) {
            Some(one_move) => { moves.push(one_move); },
            None => {},
        }
        proof {
            assert(views_of(moves@) =~= c0 + c1);
        }
        match get_move(board, combination, position, Direction(0, -1)) {
            Some(one_move) => { moves.push(one_move); },
            None => {},
        }
        proof {
            assert(views_of(moves@) =~= c0 + c1 + c2);
        }
        match get_move(board, combination, position, Direction(-1, 0)) {
            Some(one_move) => { moves.push(one_move); },
            None => {},
        }
        proof {
            assert(views_of(moves@) =~= c0 + c1 + c2 + c3);
            assert(views_of(moves@) == spec_pos_moves(b, comb, lpx, lpy, px, py));
        }
        Some(moves)
    }
}

/// The candidates reached through one neighbour of `location`: none when the
/// neighbouring cell is occupied or lies off the grid.
fn try_neighbor(
    board: &Board,
    combination: &Combination,
    location: &Location,
    direction: Direction,
) -> (r: Moves)
    requires
        combination@.len() >= 1,
        direction.is_unit(),
    ensures
        views_of(r@) == spec_neighbor_moves(
            board@,
            combination@,
            location.position.x as int,
            location.position.y as int,
            direction.0 as int,
            direction.1 as int,
        ),
{
    let ghost b = board@;
    let ghost comb = combination@;
    let ghost lpx = location.position.x as int;
    let ghost lpy = location.position.y as int;

    let nx = location.position.x as i32 + direction.0 as i32;
    let ny = location.position.y as i32 + direction.1 as i32;
    assert(nx as int == lpx + direction.0 as int && ny as int == lpy + direction.1 as int);

    if nx < -128 || nx > 127 || ny < -128 || ny > 127 {
        // Off the grid nothing is placed; the cell is empty but no placement
        // anchored there can ever be legal.
        proof {
            crate::board::lemma_cell_off_grid(b, nx as int, ny as int);
            lemma_pos_moves_off_grid(b, comb, lpx, lpy, nx as int, ny as int);
        }
        return Vec::new();
    }

    // Find the neighbour to check whether it is free to drop a tile.
    if board.get_cell(nx, ny).is_some() {
        return Vec::new();
    }

    let position = Position { x: nx as i8, y: ny as i8 };
    match get_combination_moves_near_location_at_position(board, combination, location, position) {
        Some(moves) => moves,
        None => Vec::new(),
    }
}

/// Returns `moves` for a given `combination` next to a given `location`:
/// every free neighbour of the location is tried as an anchor.
fn get_combination_moves_near_location(
    board: &Board,
    combination: &Combination,
    location: &Location,
) -> (r: Option<Moves>)
    requires
        combination@.len() >= 1,
    ensures
        r is Some,
        ({
            &&& r matches Some(v)
            &&& views_of(v@) == spec_location_moves(
                board@,
                combination@,
                location.position.x as int,
                location.position.y as int,
            )
        }),
{
    let ghost b = board@;
    let ghost comb = combination@;
    let ghost lpx = location.position.x as int;
    let ghost lpy = location.position.y as int;

    let mut moves = try_neighbor(board, combination, location, Direction(0, 1));
    let ghost n0 = views_of(moves@);
    let mut east = try_neighbor(board, combination, location, Direction(1, 0));
    let ghost n1 = views_of(east@);
    moves.append(&mut east);
    proof {
        assert(views_of(moves@) =~= n0 + n1);
    }
    let ghost sofar = views_of(moves@);
    let mut south = try_neighbor(board, combination, location, Direction(0, -1));
    let ghost n2 = views_of(south@);
    moves.append(&mut south);
    proof {
        assert(views_of(moves@) =~= sofar + n2);
    }
    let ghost sofar2 = views_of(moves@);
    let mut west = try_neighbor(board, combination, location, Direction(-1, 0));
    let ghost n3 = views_of(west@);
    moves.append(&mut west);
    proof {
        assert(views_of(moves@) =~= sofar2 + n3);
        assert(views_of(moves@) =~= spec_location_moves(b, comb, lpx, lpy));
    }
    Some(moves)
}

/// Returns `moves` for a given `combination`: the combination is compared to
/// every tile on the board, and every free cell beside a matching tile is
/// tried as an anchor.
#[verifier::rlimit(60)]
pub fn get_combination_moves(board: &Board, combination: &Combination) -> (r: Option<Moves>)
    requires
        combination@.len() >= 1,
    ensures
        r is Some,
        ({
            &&& r matches Some(v)
            &&& views_of(v@) == spec_combination_moves(board@, combination@)
        }),
{
    let ghost b = board@;
    let ghost comb = combination@;

    let mut moves: Moves = Vec::new();
    let locations = board.tiles();
    let n = locations.len();
    for i in 0..n
        invariant
            b == board@,
            comb == combination@,
            comb.len() >= 1,
            n == b.len(),
            locations@ == b,
            spec_combination_moves_from(b, comb, 0) =~= views_of(moves@)
                + spec_combination_moves_from(b, comb, i as int),
    {
        let ghost before = views_of(moves@);
        let location = &locations[i];
        let first_tile = combination[0];
        if crate::rules::validate_tiles(&first_tile, &location.tile) {
            let mut found = match get_combination_moves_near_location(board, combination, location) {
                Some(found) => found,
                None => Vec::new(),
            };
            let ghost found_views = views_of(found@);
            moves.append(&mut found);
            proof {
                assert(views_of(moves@) =~= before + found_views);
            }
        }
        proof {
            assert(spec_combination_moves_from(b, comb, i as int) == (if tiles_match(comb[0],
                b[i as int].tile) {
                spec_location_moves(b, comb, b[i as int].position.x as int,
                    b[i as int].position.y as int)
            } else {
                Seq::empty()
            }) + spec_combination_moves_from(b, comb, i + 1));
            assert(spec_combination_moves_from(b, comb, 0) =~= views_of(moves@)
                + spec_combination_moves_from(b, comb, i + 1));
        }
    }
    proof {
        assert(spec_combination_moves_from(b, comb, n as int) =~= Seq::<SpecMove>::empty());
        assert(views_of(moves@) =~= spec_combination_moves(b, comb));
    }
    Some(moves)
}


/// A move the search can find: a non-empty run, a unit direction, a placement
/// that is legal on this board, and exactly the points the scorer awards it.
pub open spec fn wf_found_move(b: Seq<Location>, mv: SpecMove) -> bool {
    &&& mv.place.comb.len() >= 1
    &&& is_unit_vec(mv.place.dx, mv.place.dy)
    &&& spec_move_ok(b, mv.place)
    &&& mv.points == spec_move_points(b, mv.place)
}

proof fn lemma_candidates_wf(b: Seq<Location>, m: SpecPlacement)
    requires
        m.comb.len() >= 1,
        is_unit_vec(m.dx, m.dy),
    ensures
        forall|j: int| 0 <= j < spec_move_candidates(b, m).len() ==> wf_found_move(
            b,
            #[trigger] spec_move_candidates(b, m)[j],
        ),
{
}

proof fn lemma_pos_moves_wf(b: Seq<Location>, comb: Seq<Tile>, lpx: int, lpy: int, px: int, py: int)
    requires
        comb.len() >= 1,
        is_unit_vec(px - lpx, py - lpy),
    ensures
        forall|j: int| 0 <= j < spec_pos_moves(b, comb, lpx, lpy, px, py).len() ==> wf_found_move(
            b,
            #[trigger] spec_pos_moves(b, comb, lpx, lpy, px, py)[j],
        ),
{
    let s = spec_pos_moves(b, comb, lpx, lpy, px, py);
    if comb.len() == 1 {
        lemma_candidates_wf(b, SpecPlacement { comb, px, py, dx: px - lpx, dy: py - lpy });
    } else {
        let c0 = spec_move_candidates(b, SpecPlacement { comb, px, py, dx: 0, dy: 1 });
        let c1 = spec_move_candidates(b, SpecPlacement { comb, px, py, dx: 1, dy: 0 });
        let c2 = spec_move_candidates(b, SpecPlacement { comb, px, py, dx: 0, dy: -1 });
        let c3 = spec_move_candidates(b, SpecPlacement { comb, px, py, dx: -1, dy: 0 });
        lemma_candidates_wf(b, SpecPlacement { comb, px, py, dx: 0, dy: 1 });
        lemma_candidates_wf(b, SpecPlacement { comb, px, py, dx: 1, dy: 0 });
        lemma_candidates_wf(b, SpecPlacement { comb, px, py, dx: 0, dy: -1 });
        lemma_candidates_wf(b, SpecPlacement { comb, px, py, dx: -1, dy: 0 });
        assert forall|j: int| 0 <= j < s.len() implies wf_found_move(b, #[trigger] s[j]) by {
            if j < c0.len() {
                assert(s[j] == c0[j]);
            } else if j < c0.len() + c1.len() {
                assert(s[j] == c1[j - c0.len()]);
            } else if j < c0.len() + c1.len() + c2.len() {
                assert(s[j] == c2[j - c0.len() - c1.len()]);
            } else {
                assert(s[j] == c3[j - c0.len() - c1.len() - c2.len()]);
            }
        }
    }
}

proof fn lemma_neighbor_moves_wf(
    b: Seq<Location>,
    comb: Seq<Tile>,
    lpx: int,
    lpy: int,
    dx: int,
    dy: int,
)
    requires
        comb.len() >= 1,
        is_unit_vec(dx, dy),
    ensures
        forall|j: int| 0 <= j < spec_neighbor_moves(b, comb, lpx, lpy, dx, dy).len()
            ==> wf_found_move(b, #[trigger] spec_neighbor_moves(b, comb, lpx, lpy, dx, dy)[j]),
{
    if !(cell_at(b, lpx + dx, lpy + dy) is Some) {
        assert((lpx + dx) - lpx == dx && (lpy + dy) - lpy == dy);
        lemma_pos_moves_wf(b, comb, lpx, lpy, lpx + dx, lpy + dy);
    }
}

proof fn lemma_location_moves_wf(b: Seq<Location>, comb: Seq<Tile>, lpx: int, lpy: int)
    requires
        comb.len() >= 1,
    ensures
        forall|j: int| 0 <= j < spec_location_moves(b, comb, lpx, lpy).len() ==> wf_found_move(
            b,
            #[trigger] spec_location_moves(b, comb, lpx, lpy)[j],
        ),
{
    let s = spec_location_moves(b, comb, lpx, lpy);
    let n0 = spec_neighbor_moves(b, comb, lpx, lpy, 0, 1);
    let n1 = spec_neighbor_moves(b, comb, lpx, lpy, 1, 0);
    let n2 = spec_neighbor_moves(b, comb, lpx, lpy, 0, -1);
    let n3 = spec_neighbor_moves(b, comb, lpx, lpy, -1, 0);
    lemma_neighbor_moves_wf(b, comb, lpx, lpy, 0, 1);
    lemma_neighbor_moves_wf(b, comb, lpx, lpy, 1, 0);
    lemma_neighbor_moves_wf(b, comb, lpx, lpy, 0, -1);
    lemma_neighbor_moves_wf(b, comb, lpx, lpy, -1, 0);
    assert forall|j: int| 0 <= j < s.len() implies wf_found_move(b, #[trigger] s[j]) by {
        if j < n0.len() {
            assert(s[j] == n0[j]);
        } else if j < n0.len() + n1.len() {
            assert(s[j] == n1[j - n0.len()]);
        } else if j < n0.len() + n1.len() + n2.len() {
            assert(s[j] == n2[j - n0.len() - n1.len()]);
        } else {
            assert(s[j] == n3[j - n0.len() - n1.len() - n2.len()]);
        }
    }
}

proof fn lemma_combination_moves_from_wf(b: Seq<Location>, comb: Seq<Tile>, i: int)
    requires
        comb.len() >= 1,
    ensures
        forall|j: int| 0 <= j < spec_combination_moves_from(b, comb, i).len() ==> wf_found_move(
            b,
            #[trigger] spec_combination_moves_from(b, comb, i)[j],
        ),
    decreases b.len() - i,
{
    if 0 <= i < b.len() {
        let s = spec_combination_moves_from(b, comb, i);
        let head = if tiles_match(comb[0], b[i].tile) {
            spec_location_moves(b, comb, b[i].position.x as int, b[i].position.y as int)
        } else {
            Seq::empty()
        };
        if tiles_match(comb[0], b[i].tile) {
            lemma_location_moves_wf(b, comb, b[i].position.x as int, b[i].position.y as int);
        }
        lemma_combination_moves_from_wf(b, comb, i + 1);
        assert forall|j: int| 0 <= j < s.len() implies wf_found_move(b, #[trigger] s[j]) by {
            if j < head.len() {
                assert(s[j] == head[j]);
            } else {
                assert(s[j] == spec_combination_moves_from(b, comb, i + 1)[j - head.len()]);
            }
        }
    }
}

/// Every candidate one combination yields on the board is a well-formed
/// legal move.
pub proof fn lemma_combination_moves_wf(b: Seq<Location>, comb: Seq<Tile>)
    requires
        comb.len() >= 1,
    ensures
        forall|j: int| 0 <= j < spec_combination_moves(b, comb).len() ==> wf_found_move(
            b,
            #[trigger] spec_combination_moves(b, comb)[j],
        ),
{
    lemma_combination_moves_from_wf(b, comb, 0);
}

/// Every candidate a set of combinations yields on the board, walking the
/// combinations from index `i` on.
pub open spec fn spec_player_moves_from(b: Seq<Location>, combos: Seq<Seq<Tile>>, i: int) -> Seq<
    SpecMove,
>
    decreases combos.len() - i,
{
    if i < 0 || i >= combos.len() {
        Seq::empty()
    } else {
        spec_combination_moves(b, combos[i]) + spec_player_moves_from(b, combos, i + 1)
    }
}

/// Every candidate move a whole set of combinations yields, in enumeration
/// order: combination by combination, board tile by board tile, neighbour by
/// neighbour, direction by direction.
pub open spec fn spec_player_moves(b: Seq<Location>, combos: Seq<Seq<Tile>>) -> Seq<SpecMove> {
    spec_player_moves_from(b, combos, 0)
}

proof fn lemma_player_moves_from_wf(b: Seq<Location>, combos: Seq<Seq<Tile>>, i: int)
    requires
        forall|k: int| 0 <= k < combos.len() ==> (#[trigger] combos[k]).len() >= 1,
    ensures
        forall|j: int| 0 <= j < spec_player_moves_from(b, combos, i).len() ==> wf_found_move(
            b,
            #[trigger] spec_player_moves_from(b, combos, i)[j],
        ),
    decreases combos.len() - i,
{
    if 0 <= i < combos.len() {
        let s = spec_player_moves_from(b, combos, i);
        let head = spec_combination_moves(b, combos[i]);
        lemma_combination_moves_wf(b, combos[i]);
        lemma_player_moves_from_wf(b, combos, i + 1);
        assert forall|j: int| 0 <= j < s.len() implies wf_found_move(b, #[trigger] s[j]) by {
            if j < head.len() {
                assert(s[j] == head[j]);
            } else {
                assert(s[j] == spec_player_moves_from(b, combos, i + 1)[j - head.len()]);
            }
        }
    }
}

/// Every move the search finds is well formed: its placement is legal on the
/// board it was searched on and it carries exactly the scorer's points.
pub proof fn lemma_player_moves_wf(b: Seq<Location>, combos: Seq<Seq<Tile>>)
    requires
        forall|k: int| 0 <= k < combos.len() ==> (#[trigger] combos[k]).len() >= 1,
    ensures
        forall|j: int| 0 <= j < spec_player_moves(b, combos).len() ==> wf_found_move(
            b,
            #[trigger] spec_player_moves(b, combos)[j],
        ),
{
    lemma_player_moves_from_wf(b, combos, 0);
}

/// The search is a pure function of the board and hand snapshot: two runs
/// over the same immutable state find exactly the same moves, in the same
/// order.
pub proof fn lemma_search_idempotent(
    b: Seq<Location>,
    combos: Seq<Seq<Tile>>,
    first: Seq<SpecMove>,
    second: Seq<SpecMove>,
)
    requires
        first == spec_player_moves(b, combos),
        second == spec_player_moves(b, combos),
    ensures
        first == second,
{
}

} // verus!
