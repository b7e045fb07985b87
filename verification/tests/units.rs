use qwirkle_solver::bag::Bag;
use qwirkle_solver::board::direction::Direction;
use qwirkle_solver::board::location::Location;
use qwirkle_solver::board::mov::PartialMove;
use qwirkle_solver::board::position::Position;
use qwirkle_solver::board::Board;
use qwirkle_solver::player::Player;
use qwirkle_solver::tile::{Color, Shape, Tile};

#[test]
fn bag_starts_with_108_sorted_tiles() {
    let bag = Bag::new();
    assert_eq!(bag.tiles().len(), 108);
    assert_eq!(bag.tiles()[0], Tile { color: Color::Red, shape: Shape::Square });
    assert_eq!(bag.tiles()[3], Tile { color: Color::Red, shape: Shape::Circle });
    assert_eq!(bag.tiles()[18], Tile { color: Color::Orange, shape: Shape::Square });
    assert_eq!(bag.tiles()[107], Tile { color: Color::Purple, shape: Shape::Cross });
    // Each of the 36 tile kinds appears exactly 3 times.
    for color in [Color::Red, Color::Orange, Color::Yellow, Color::Green, Color::Blue, Color::Purple] {
        for shape in [Shape::Square, Shape::Circle, Shape::Diamond, Shape::Club, Shape::Star, Shape::Cross] {
            let wanted = Tile { color, shape };
            let count = bag.tiles().iter().filter(|t| **t == wanted).count();
            assert_eq!(count, 3);
        }
    }
}

#[test]
fn bag_remove_takes_the_indexed_tile() {
    let mut bag = Bag::new();
    let first = bag.tiles()[0];
    assert_eq!(bag.remove(0), Some(first));
    assert_eq!(bag.tiles().len(), 107);
    assert_eq!(bag.remove(500), None);
    assert_eq!(bag.tiles().len(), 107);
}

#[test]
fn player_new_draws_a_hand_of_six() {
    let mut bag = Bag::new();
    let player = Player::new(&mut bag);
    assert_eq!(player.points, 0);
    assert_eq!(player.hand.len(), 6);
    assert_eq!(bag.tiles().len(), 102);
    // Nothing was created or lost: each tile kind still counts 3 over the
    // hand and the bag together.
    for color in [Color::Red, Color::Orange, Color::Yellow, Color::Green, Color::Blue, Color::Purple] {
        for shape in [Shape::Square, Shape::Circle, Shape::Diamond, Shape::Club, Shape::Star, Shape::Cross] {
            let wanted = Tile { color, shape };
            let in_hand = player.hand.iter().filter(|t| **t == wanted).count();
            let in_bag = bag.tiles().iter().filter(|t| **t == wanted).count();
            assert_eq!(in_hand + in_bag, 3);
        }
    }
}

#[test]
fn directions_cycle_as_documented() {
    let values = Direction::values();
    assert_eq!(values[0], Direction(0, 1));
    assert_eq!(values[1], Direction(1, 0));
    assert_eq!(values[2], Direction(0, -1));
    assert_eq!(values[3], Direction(-1, 0));
    for d in values {
        let o = d.opposite();
        assert_eq!((o.0, o.1), (-d.0, -d.1));
    }
    assert_eq!(Direction(0, 1).perpendicular(), Direction(1, 0));
    assert_eq!(Direction(1, 0).perpendicular(), Direction(0, -1));
    assert_eq!(Direction(0, -1).perpendicular(), Direction(-1, 0));
    assert_eq!(Direction(-1, 0).perpendicular(), Direction(0, 1));
    let random = Direction::rand();
    assert!(values.contains(&random));
}

#[test]
fn board_lookup_finds_placed_tiles() {
    let mut board = Board::new();
    assert_eq!(board.tiles().len(), 0);
    let tile = Tile { color: Color::Green, shape: Shape::Star };
    board.add_tile(Location { position: Position { x: 3, y: -2 }, tile });
    assert_eq!(board.get(3, -2), Some(tile));
    assert_eq!(board.get(3, 2), None);
    assert_eq!(board.tiles().len(), 1);
}

#[test]
fn board_get_tiles_walks_until_a_gap() {
    let mut board = Board::new();
    let a = Tile { color: Color::Green, shape: Shape::Star };
    let b = Tile { color: Color::Green, shape: Shape::Circle };
    let c = Tile { color: Color::Green, shape: Shape::Cross };
    board.add_tile(Location { position: Position { x: 1, y: 0 }, tile: a });
    board.add_tile(Location { position: Position { x: 2, y: 0 }, tile: b });
    // A gap at (3, 0), then one more tile.
    board.add_tile(Location { position: Position { x: 4, y: 0 }, tile: c });

    let run = board.get_tiles(Position { x: 0, y: 0 }, Direction(1, 0));
    assert_eq!(run, vec![a, b]);
    let nothing = board.get_tiles(Position { x: 0, y: 0 }, Direction(0, 1));
    assert!(nothing.is_empty());
}

#[test]
fn board_add_tiles_places_a_run() {
    let mut board = Board::new();
    let a = Tile { color: Color::Green, shape: Shape::Star };
    let b = Tile { color: Color::Green, shape: Shape::Circle };
    let partial_move = PartialMove {
        combination: vec![a, b],
        position: Position { x: 2, y: 3 },
        direction: Direction(0, -1),
    };
    board.add_tiles(&partial_move);
    assert_eq!(board.get(2, 3), Some(a));
    assert_eq!(board.get(2, 2), Some(b));
    assert_eq!(board.tiles().len(), 2);
}

#[test]
fn moves_split_and_rejoin() {
    let a = Tile { color: Color::Green, shape: Shape::Star };
    let partial_move = PartialMove {
        combination: vec![a],
        position: Position { x: 1, y: 1 },
        direction: Direction(0, 1),
    };
    let made = partial_move.into_move(7);
    assert_eq!(made.points, 7);
    assert_eq!(made.combination, vec![a]);
    let (back, points) = made.into_partial();
    assert_eq!(points, 7);
    assert_eq!(back.combination, vec![a]);
    assert_eq!(back.position, Position { x: 1, y: 1 });
    assert_eq!(back.direction, Direction(0, 1));
}

#[test]
fn empty_hand_yields_no_combinations() {
    let mut player = Player { points: 0, hand: Vec::new(), combinations: Vec::new() };
    player.update_combinations();
    assert!(player.combinations.is_empty());
}

#[test]
fn unmatchable_hand_yields_only_singles() {
    let mut player = Player {
        points: 0,
        hand: vec![
            Tile { color: Color::Red, shape: Shape::Square },
            Tile { color: Color::Blue, shape: Shape::Circle },
        ],
        combinations: Vec::new(),
    };
    player.update_combinations();
    assert_eq!(player.combinations.len(), 2);
    assert_eq!(player.combinations[0], vec![Tile { color: Color::Red, shape: Shape::Square }]);
    assert_eq!(player.combinations[1], vec![Tile { color: Color::Blue, shape: Shape::Circle }]);
}

#[test]
fn matchable_hand_extends_later_slots_only() {
    let a = Tile { color: Color::Blue, shape: Shape::Square };
    let b = Tile { color: Color::Blue, shape: Shape::Circle };
    let mut player = Player { points: 0, hand: vec![a, b], combinations: Vec::new() };
    player.update_combinations();
    // [a], [a, b] from the first slot; [b] from the second.  No [b, a]: a
    // later slot never reaches back, so each set appears in one order only.
    assert_eq!(player.combinations.len(), 3);
    assert_eq!(player.combinations[0], vec![a]);
    assert_eq!(player.combinations[1], vec![a, b]);
    assert_eq!(player.combinations[2], vec![b]);
}

#[test]
fn play_on_empty_board_starts_at_origin() {
    let mut bag = Bag::new();
    let mut board = Board::new();
    let tile = Tile { color: Color::Orange, shape: Shape::Diamond };
    let mut player = Player { points: 0, hand: vec![tile], combinations: Vec::new() };
    player.update_combinations();

    player.play(&mut board, &mut bag);

    assert_eq!(player.points, 1);
    assert_eq!(board.tiles().len(), 1);
    assert_eq!(board.get(0, 0), Some(tile));
    // The played tile was replaced from the bag.
    assert_eq!(player.hand.len(), 1);
    assert_eq!(bag.tiles().len(), 107);
}

#[test]
fn play_without_a_legal_move_replaces_tiles() {
    let mut bag = Bag::new();
    let mut board = Board::new();
    board.add_tile(Location {
        position: Position { x: 0, y: 0 },
        tile: Tile { color: Color::Blue, shape: Shape::Circle },
    });
    // The hand tile matches nothing on the board: no move exists.
    let mut player = Player {
        points: 0,
        hand: vec![Tile { color: Color::Red, shape: Shape::Club }],
        combinations: Vec::new(),
    };
    player.update_combinations();

    player.play(&mut board, &mut bag);

    assert_eq!(player.points, 0);
    assert_eq!(board.tiles().len(), 1);
    // The hand was replaced, not played: tiles moved between hand and bag.
    assert_eq!(player.hand.len(), 1);
    assert_eq!(bag.tiles().len(), 108);
}
