use qwirkle_solver::bag::Bag;
use qwirkle_solver::board::direction::Direction;
use qwirkle_solver::board::location::Location;
use qwirkle_solver::board::mov::PartialMove;
use qwirkle_solver::board::position::Position;
use qwirkle_solver::board::Board;
use qwirkle_solver::player::moves::get_combination_moves;
use qwirkle_solver::player::Player;
use qwirkle_solver::rules::{validate_alignements, validate_partial_move, validate_tiles};
use qwirkle_solver::tile::{Color, Shape, Tile};

fn all_tiles() -> Vec<Tile> {
    let colors = [Color::Red, Color::Orange, Color::Yellow, Color::Green, Color::Blue, Color::Purple];
    let shapes = [Shape::Square, Shape::Circle, Shape::Diamond, Shape::Club, Shape::Star, Shape::Cross];
    let mut tiles = Vec::new();
    for color in colors {
        for shape in shapes {
            tiles.push(Tile { color, shape });
        }
    }
    tiles
}

#[test]
fn matching_is_symmetric_for_every_pair() {
    let tiles = all_tiles();
    for a in &tiles {
        for b in &tiles {
            assert_eq!(validate_tiles(a, b), validate_tiles(b, a));
        }
    }
}

#[test]
fn matching_is_irreflexive_for_every_tile() {
    for a in all_tiles() {
        assert!(!validate_tiles(&a, &a));
    }
}

#[test]
fn matching_needs_exactly_one_shared_attribute() {
    let blue_circle = Tile { color: Color::Blue, shape: Shape::Circle };
    let blue_club = Tile { color: Color::Blue, shape: Shape::Club };
    let red_circle = Tile { color: Color::Red, shape: Shape::Circle };
    let red_club = Tile { color: Color::Red, shape: Shape::Club };
    assert!(validate_tiles(&blue_circle, &blue_club));
    assert!(validate_tiles(&blue_circle, &red_circle));
    assert!(!validate_tiles(&blue_circle, &red_club));
    assert!(!validate_tiles(&blue_circle, &blue_circle));
}

#[test]
fn generated_combinations_are_pairwise_matchable() {
    // A random hand drawn from a fresh bag: every combination the generator
    // caches must be pairwise matchable in all positions, and non-empty.
    let mut bag = Bag::new();
    let player = Player::new(&mut bag);
    assert!(!player.combinations.is_empty());
    for combination in &player.combinations {
        assert!(!combination.is_empty());
        for i in 0..combination.len() {
            for j in (i + 1)..combination.len() {
                assert!(validate_tiles(&combination[i], &combination[j]));
            }
        }
    }
}

#[test]
fn occupied_target_cell_rejects_the_move() {
    let mut board = Board::new();
    let blue_circle = Tile { color: Color::Blue, shape: Shape::Circle };
    board.add_tile(Location { position: Position { x: 0, y: 0 }, tile: blue_circle });

    // Any placement whose cells overlap the occupied origin must be refused,
    // whatever the tiles are.
    let blue_club = Tile { color: Color::Blue, shape: Shape::Club };
    for direction in Direction::values() {
        let partial_move = PartialMove {
            combination: vec![blue_club],
            position: Position { x: 0, y: 0 },
            direction,
        };
        assert!(validate_partial_move(&board, partial_move).is_none());
    }
    // A two-tile run walking into the occupied cell is refused too.
    let partial_move = PartialMove {
        combination: vec![blue_club, Tile { color: Color::Blue, shape: Shape::Star }],
        position: Position { x: 0, y: -1 },
        direction: Direction(0, 1),
    };
    assert!(validate_partial_move(&board, partial_move).is_none());
}

#[test]
fn first_tile_on_empty_board_scores_one() {
    let board = Board::new();
    for tile in all_tiles() {
        let partial_move = PartialMove {
            combination: vec![tile],
            position: Position { x: 5, y: 7 },
            direction: Direction(1, 0),
        };
        let made = validate_partial_move(&board, partial_move).expect("legal on an empty board");
        assert_eq!(made.points, 1);
    }
}

#[test]
fn full_line_of_six_scores_twelve_not_seven() {
    // Five red tiles in a row; the sixth red shape completes the line.
    let mut board = Board::new();
    let shapes = [Shape::Square, Shape::Circle, Shape::Diamond, Shape::Club, Shape::Star];
    for (i, shape) in shapes.into_iter().enumerate() {
        board.add_tile(Location {
            position: Position { x: i as i8, y: 0 },
            tile: Tile { color: Color::Red, shape },
        });
    }
    let partial_move = PartialMove {
        combination: vec![Tile { color: Color::Red, shape: Shape::Cross }],
        position: Position { x: 5, y: 0 },
        direction: Direction(1, 0),
    };
    let made = validate_partial_move(&board, partial_move).expect("completes the line");
    assert_eq!(made.points, 12);
}

#[test]
fn line_with_repeated_tile_is_rejected() {
    // Two red squares in one line share both attributes: the line is invalid
    // even though the repeated tiles are not adjacent.
    let mut board = Board::new();
    board.add_tile(Location {
        position: Position { x: 0, y: 0 },
        tile: Tile { color: Color::Red, shape: Shape::Square },
    });
    board.add_tile(Location {
        position: Position { x: 1, y: 0 },
        tile: Tile { color: Color::Red, shape: Shape::Circle },
    });
    let partial_move = PartialMove {
        combination: vec![Tile { color: Color::Red, shape: Shape::Square }],
        position: Position { x: 2, y: 0 },
        direction: Direction(1, 0),
    };
    assert!(validate_partial_move(&board, partial_move).is_none());
}

#[test]
fn search_is_idempotent_on_a_snapshot() {
    let mut board = Board::new();
    board.add_tile(Location {
        position: Position { x: 0, y: 0 },
        tile: Tile { color: Color::Yellow, shape: Shape::Square },
    });
    board.add_tile(Location {
        position: Position { x: 1, y: 0 },
        tile: Tile { color: Color::Yellow, shape: Shape::Club },
    });

    let combination = vec![
        Tile { color: Color::Yellow, shape: Shape::Cross },
        Tile { color: Color::Purple, shape: Shape::Cross },
    ];
    let first = get_combination_moves(&board, &combination).expect("search yields a list");
    let second = get_combination_moves(&board, &combination).expect("search yields a list");
    assert_eq!(first, second);
    assert!(!first.is_empty());
}

#[test]
fn purple_cross_is_rejected_beside_yellow_square() {
    // The two tiles share neither color nor shape, so a purple cross can
    // never sit in line with a lone yellow square.
    let mut board = Board::new();
    board.add_tile(Location {
        position: Position { x: 0, y: 0 },
        tile: Tile { color: Color::Yellow, shape: Shape::Square },
    });
    let purple_cross = Tile { color: Color::Purple, shape: Shape::Cross };
    for direction in Direction::values() {
        let partial_move = PartialMove {
            combination: vec![purple_cross],
            position: Position { x: direction.0, y: direction.1 },
            direction,
        };
        assert!(validate_partial_move(&board, partial_move).is_none());
    }
}

#[test]
fn alignements_validate_every_pair() {
    let yellow_square = Tile { color: Color::Yellow, shape: Shape::Square };
    let yellow_club = Tile { color: Color::Yellow, shape: Shape::Club };
    let yellow_cross = Tile { color: Color::Yellow, shape: Shape::Cross };
    let blue_club = Tile { color: Color::Blue, shape: Shape::Club };

    assert!(validate_alignements(&vec![vec![yellow_square, yellow_club, yellow_cross]]));
    // Non-adjacent clash: the two ends share nothing.
    assert!(!validate_alignements(&vec![vec![yellow_square, yellow_club, blue_club]]));
    // One bad line poisons the whole list.
    assert!(!validate_alignements(&vec![
        vec![yellow_square, yellow_club],
        vec![yellow_square, yellow_square],
    ]));
    assert!(validate_alignements(&Vec::new()));
}
