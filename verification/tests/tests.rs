use qwirkle_solver::bag::Bag;
use qwirkle_solver::board::location::Location;
use qwirkle_solver::board::position::Position;
use qwirkle_solver::board::Board;
use qwirkle_solver::player::Player;
use qwirkle_solver::tile::{Color, Shape, Tile};

fn setup_board(board: &mut Board, tiles: Vec<Location>) {
    for location in tiles {
        board.add_tile(location);
    }
}

fn create_player(hand: Vec<Tile>) -> Player {
    let mut player = Player { points: 0, hand, combinations: Vec::new() };
    player.update_combinations();

    player
}

#[test]
pub fn play_1() {
    let mut bag = Bag::new();
    let mut board = Board::new();
    setup_board(
        &mut board,
        vec![Location {
            tile: Tile { color: Color::Blue, shape: Shape::Circle },
            position: Position { x: 0, y: 0 },
        }],
    );

    let mut player = create_player(vec![Tile { color: Color::Blue, shape: Shape::Club }]);

    player.play(&mut board, &mut bag);

    // The only tile extends the circle into a 2-tile line; among the four
    // equal placements the last one found (west) wins.
    assert_eq!(player.points, 2);
    assert_eq!(board.tiles().len(), 2);
    assert_eq!(board.get(0, 0), Some(Tile { color: Color::Blue, shape: Shape::Circle }));
    assert_eq!(board.get(-1, 0), Some(Tile { color: Color::Blue, shape: Shape::Club }));
    // The played tile left the hand and one replacement was drawn.
    assert_eq!(player.hand.len(), 1);
    assert_eq!(bag.tiles().len(), 107);
}

#[test]
pub fn play_2() {
    let mut bag = Bag::new();
    let mut board = Board::new();
    setup_board(
        &mut board,
        vec![Location {
            tile: Tile { color: Color::Blue, shape: Shape::Circle },
            position: Position { x: 0, y: 0 },
        }],
    );

    let mut player = create_player(vec![
        Tile { color: Color::Blue, shape: Shape::Diamond },
        Tile { color: Color::Blue, shape: Shape::Cross },
    ]);

    player.play(&mut board, &mut bag);

    // The two-tile combination dropped west of the circle and running south
    // scores its own line of 2 plus a 2-tile cross line through the circle.
    assert_eq!(player.points, 4);
    assert_eq!(board.tiles().len(), 3);
    assert_eq!(board.get(-1, 0), Some(Tile { color: Color::Blue, shape: Shape::Diamond }));
    assert_eq!(board.get(-1, -1), Some(Tile { color: Color::Blue, shape: Shape::Cross }));
    assert_eq!(player.hand.len(), 2);
    assert_eq!(bag.tiles().len(), 106);
}

#[test]
pub fn play_3() {
    let mut bag = Bag::new();
    let mut board = Board::new();
    setup_board(
        &mut board,
        vec![
            Location {
                tile: Tile { color: Color::Yellow, shape: Shape::Square },
                position: Position { x: 0, y: 0 },
            },
            Location {
                tile: Tile { color: Color::Yellow, shape: Shape::Club },
                position: Position { x: 1, y: 0 },
            },
            Location {
                tile: Tile { color: Color::Blue, shape: Shape::Club },
                position: Position { x: 1, y: 1 },
            },
            Location {
                tile: Tile { color: Color::Yellow, shape: Shape::Club },
                position: Position { x: 2, y: 1 },
            },
        ],
    );

    let mut player = create_player(vec![
        Tile { color: Color::Yellow, shape: Shape::Cross },
        Tile { color: Color::Purple, shape: Shape::Cross },
    ]);

    player.play(&mut board, &mut bag);

    // Best move: the cross pair lands west of the square running south; the
    // yellow cross joins the square-club row for a 3-tile cross line, on top
    // of its own line of 2.  The purple cross is never placed beside the
    // yellow square alone: they share no attribute.
    assert_eq!(player.points, 5);
    assert_eq!(board.tiles().len(), 6);
    assert_eq!(board.get(-1, 0), Some(Tile { color: Color::Yellow, shape: Shape::Cross }));
    assert_eq!(board.get(-1, -1), Some(Tile { color: Color::Purple, shape: Shape::Cross }));
    assert_eq!(player.hand.len(), 2);
    assert_eq!(bag.tiles().len(), 106);
}
