use hnefatafl_copenhagen::board::{Board, BoardSize};
use hnefatafl_copenhagen::board_diagram::BoardError;
use hnefatafl_copenhagen::game::PreviousBoards;
use hnefatafl_copenhagen::play::{Plae, Play, Vertex};
use hnefatafl_copenhagen::role::Role;
use hnefatafl_copenhagen::space::{Space, SpaceError};
use hnefatafl_copenhagen::status::Status;

fn v(x: usize, y: usize) -> Vertex {
    Vertex { size: BoardSize::_11, x, y }
}

fn board(rows: [&str; 11]) -> Board {
    Board::try_from_rows(&rows).expect("a valid diagram")
}

fn play(board: &mut Board, role: Role, from: Vertex, to: Vertex) -> (Vec<Vertex>, Status) {
    let mut history = PreviousBoards(vec![board.copy()]);
    board
        .play(&Plae::Play(Play { role, from, to }), &Status::Ongoing, &role, &mut history)
        .expect("the move is allowed")
}

#[test]
fn diagram_reading() {
    let b = board([
        "...........",
        "...........",
        "...........",
        "...........",
        "...........",
        ".....K.....",
        "...........",
        "...XO......",
        "...........",
        "...........",
        "...........",
    ]);
    assert_eq!(b.king, Some(v(5, 5)));
    assert_eq!(b.attackers_captured, 23);
    assert_eq!(b.defenders_captured, 11);
    assert_eq!(b.get(&v(3, 7)), Space::Attacker);
    assert_eq!(b.get(&v(4, 7)), Space::Defender);

    let two_kings = Board::try_from_rows(&[
        "K..........",
        "...........",
        "...........",
        "...........",
        "...........",
        ".....K.....",
        "...........",
        "...........",
        "...........",
        "...........",
        "...........",
    ]);
    assert_eq!(two_kings.err(), Some(BoardError::TwoKings));
    let restricted = Board::try_from_rows(&[
        "X..........",
        "...........",
        "...........",
        "...........",
        "...........",
        ".....K.....",
        "...........",
        "...........",
        "...........",
        "...........",
        "...........",
    ]);
    assert_eq!(restricted.err(), Some(BoardError::Restricted));
    let bad = Board::try_from_rows(&[
        "...........",
        "...........",
        "...........",
        "...........",
        "...........",
        ".....K.....",
        "....?......",
        "...........",
        "...........",
        "...........",
        "...........",
    ]);
    assert_eq!(bad.err(), Some(BoardError::Space(SpaceError { ch: '?' })));
    assert_eq!(BoardError::TwoKings.message(), "You can only have one king!");
    assert_eq!(
        BoardError::Space(SpaceError { ch: '?' }).message(),
        "Error trying to convert '?' to a Space!"
    );
}

#[test]
fn custodial_capture() {
    let mut b = board([
        "...........",
        "...........",
        "...........",
        "...........",
        "...........",
        ".....K.....",
        "...........",
        "...XO......",
        "...........",
        ".....X.....",
        "...........",
    ]);
    let (captures, status) = play(&mut b, Role::Attacker, v(5, 9), v(5, 7));
    assert_eq!(captures, vec![v(4, 7)]);
    assert_eq!(status, Status::Ongoing);
    assert_eq!(b.get(&v(4, 7)), Space::Empty);
    assert_eq!(b.get(&v(5, 7)), Space::Attacker);
}

#[test]
fn shield_wall_capture() {
    let mut b = board([
        "...........",
        "...........",
        "...........",
        "...........",
        "...........",
        ".....K.....",
        "...........",
        "...........",
        "...........",
        "...XX......",
        "..XOO..X...",
    ]);
    let (captures, status) = play(&mut b, Role::Attacker, v(7, 10), v(5, 10));
    assert_eq!(captures, vec![v(3, 10), v(4, 10)]);
    assert_eq!(status, Status::Ongoing);
    assert_eq!(b.get(&v(3, 10)), Space::Empty);
    assert_eq!(b.get(&v(4, 10)), Space::Empty);
}

#[test]
fn king_captured_on_four_sides() {
    let mut b = board([
        "...........",
        "...........",
        "...X.......",
        "..XKX......",
        "...........",
        "...........",
        "...X.......",
        "...........",
        "...........",
        "...........",
        "...........",
    ]);
    let (captures, status) = play(&mut b, Role::Attacker, v(3, 6), v(3, 4));
    assert_eq!(captures, vec![v(3, 3)]);
    assert_eq!(status, Status::AttackerWins);
    assert_eq!(b.king, None);
    assert_eq!(b.get(&v(3, 3)), Space::Empty);
}

#[test]
fn attackers_win_by_enclosure() {
    let mut b = board([
        "...........",
        "..XX.......",
        ".XK.X......",
        "..X........",
        "...........",
        "...X.......",
        "...........",
        "...........",
        "...........",
        "...........",
        "...........",
    ]);
    let (captures, status) = play(&mut b, Role::Attacker, v(3, 5), v(3, 3));
    assert!(captures.is_empty());
    assert_eq!(status, Status::AttackerWins);
}

#[test]
fn defenders_win_by_taking_the_last_attacker() {
    let mut b = board([
        "...........",
        "...........",
        "...........",
        "...........",
        "...........",
        ".....K.....",
        "...........",
        "....OX.....",
        "...........",
        "......O....",
        "...........",
    ]);
    let (captures, status) = play(&mut b, Role::Defender, v(6, 9), v(6, 7));
    assert_eq!(captures, vec![v(5, 7)]);
    assert_eq!(status, Status::DefenderWins);
}

#[test]
fn king_escapes_to_a_corner() {
    let mut b = board([
        "...........",
        "...........",
        "...........",
        "K..........",
        "...........",
        "...........",
        "...........",
        "...X.......",
        "...........",
        "...........",
        "...........",
    ]);
    let (captures, status) = play(&mut b, Role::Defender, v(0, 3), v(0, 0));
    assert!(captures.is_empty());
    assert_eq!(status, Status::DefenderWins);
    assert_eq!(b.king, Some(v(0, 0)));
}

#[test]
fn king_one_move_from_capture() {
    let b = board([
        "...........",
        "...........",
        "...X.......",
        "..XKX......",
        "...........",
        "...........",
        "...........",
        "...........",
        "...........",
        "...........",
        "...........",
    ]);
    assert_eq!(b.capture_the_king_one_move(), Some(v(3, 4)));
    assert_eq!(b.spaces_around_the_king(), Some(1));
    let start = Board::new(BoardSize::_11);
    assert_eq!(start.capture_the_king_one_move(), None);
    assert_eq!(start.spaces_around_the_king(), Some(4));
}

#[test]
fn shield_wall_into_the_top_right_corner() {
    let mut b = board([
        "........OO.",
        "X.......XXX",
        "...........",
        ".......X...",
        "...........",
        ".....K.....",
        "...........",
        "...........",
        "...........",
        "...........",
        "...........",
    ]);
    // No diagram puts a piece on a corner, so the defender goes there by hand.
    b.spaces[10] = Space::Defender;
    let (captures, status) = play(&mut b, Role::Attacker, v(7, 3), v(7, 0));
    assert_eq!(captures, vec![v(8, 0), v(9, 0), v(10, 0)]);
    assert_eq!(status, Status::Ongoing);
    assert_eq!(b.get(&v(10, 0)), Space::Empty);
    assert_eq!(b.get(&v(0, 1)), Space::Attacker);
}
