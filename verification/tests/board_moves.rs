use hnefatafl_copenhagen::board::{Board, BoardSize};
use hnefatafl_copenhagen::board_move::InvalidMove;
use hnefatafl_copenhagen::board_play::PlayError;
use hnefatafl_copenhagen::game::PreviousBoards;
use hnefatafl_copenhagen::play::{Plae, Play, Vertex};
use hnefatafl_copenhagen::role::Role;
use hnefatafl_copenhagen::space::Space;
use hnefatafl_copenhagen::status::Status;

fn v(x: usize, y: usize) -> Vertex {
    Vertex { size: BoardSize::_11, x, y }
}

fn attacker_move(from: Vertex, to: Vertex) -> Play {
    Play { role: Role::Attacker, from, to }
}

#[test]
fn starting_position() {
    let board = Board::new(BoardSize::_11);
    assert_eq!(board.size(), BoardSize::_11);
    assert_eq!(board.spaces.len(), 121);
    assert_eq!(board.king, Some(v(5, 5)));
    assert_eq!(board.get(&v(5, 5)), Space::King);
    assert_eq!(board.get(&v(3, 0)), Space::Attacker);
    assert_eq!(board.get(&v(5, 3)), Space::Defender);
    assert_eq!(board.get(&v(0, 0)), Space::Empty);
    let captured = board.captured();
    assert_eq!(captured.attacker, 0);
    assert_eq!(captured.defender, 0);
    assert!(!captured.king);

    let big = Board::new(BoardSize::_13);
    assert_eq!(big.spaces.len(), 169);
    assert_eq!(big.king, Some(Vertex { size: BoardSize::_13, x: 6, y: 6 }));
}

#[test]
fn legal_and_illegal_moves() {
    let board = Board::new(BoardSize::_11);
    let history = PreviousBoards::new(BoardSize::_11);
    let ongoing = Status::Ongoing;
    let attacker = Role::Attacker;

    let ok = board.legal_move(&attacker_move(v(0, 3), v(1, 3)), &ongoing, &attacker, &history);
    let after = ok.expect("the move is allowed");
    assert_eq!(after.get(&v(0, 3)), Space::Empty);
    assert_eq!(after.get(&v(1, 3)), Space::Attacker);

    let err = |from: Vertex, to: Vertex, status: Status, turn: Role| {
        board.legal_move(&attacker_move(from, to), &status, &turn, &history).err()
    };
    assert_eq!(err(v(0, 3), v(1, 3), Status::DefenderWins, attacker), Some(InvalidMove::GameOver));
    assert_eq!(err(v(1, 1), v(1, 2), ongoing, attacker), Some(InvalidMove::Role));
    assert_eq!(err(v(5, 3), v(6, 3), ongoing, attacker), Some(InvalidMove::Turn));
    assert_eq!(err(v(0, 3), v(1, 4), ongoing, attacker), Some(InvalidMove::StraightLine));
    assert_eq!(err(v(0, 3), v(0, 3), ongoing, attacker), Some(InvalidMove::Location));
    assert_eq!(err(v(0, 3), v(6, 3), ongoing, attacker), Some(InvalidMove::Empty));
    assert_eq!(err(v(3, 0), v(0, 0), ongoing, attacker), Some(InvalidMove::Restricted));
}

#[test]
fn invalid_move_messages() {
    assert_eq!(InvalidMove::RepeatMove.message(), "play: you already reached that position");
    assert_eq!(InvalidMove::GameOver.message(), "play: the game is already over");
    assert_eq!(PlayError::NotOngoing.message(), "play: the game has to be ongoing to play");
    assert_eq!(
        PlayError::Invalid(InvalidMove::Turn).message(),
        "play: it isn't your turn"
    );
}

#[test]
fn repeated_position_is_refused_to_defenders() {
    let board = Board::new(BoardSize::_11);
    let history = PreviousBoards::new(BoardSize::_11);
    let mut later = board.copy();
    let mut history2 = PreviousBoards::new(BoardSize::_11);
    let defender = Role::Defender;
    let ongoing = Status::Ongoing;
    // A defender steps out and is then asked to step back into the starting position.
    let out = Play { role: defender, from: v(5, 3), to: v(5, 2) };
    let (caps, status) = later.play(&Plae::Play(out), &ongoing, &defender, &mut history2).unwrap();
    assert!(caps.is_empty());
    assert_eq!(status, Status::Ongoing);
    let back = Play { role: defender, from: v(5, 2), to: v(5, 3) };
    assert_eq!(
        later.legal_move(&back, &ongoing, &defender, &history2).err(),
        Some(InvalidMove::RepeatMove)
    );
    assert!(board.legal_move(&out, &ongoing, &defender, &history).is_ok());
}

#[test]
fn a_legal_move_exists_at_the_start() {
    let board = Board::new(BoardSize::_11);
    let history = PreviousBoards::new(BoardSize::_11);
    assert!(board.a_legal_move_exists(&Status::Ongoing, &Role::Attacker, &history));
    assert!(board.a_legal_move_exists(&Status::Ongoing, &Role::Defender, &history));
    assert!(!board.a_legal_move_exists(&Status::AttackerWins, &Role::Attacker, &history));
    assert!(!board.a_legal_move_exists(&Status::Ongoing, &Role::Roleless, &history));
}

#[test]
fn difference_gives_the_move_back() {
    let board = Board::new(BoardSize::_11);
    let history = PreviousBoards::new(BoardSize::_11);
    let play = attacker_move(v(0, 3), v(2, 3));
    let after = board
        .legal_move(&play, &Status::Ongoing, &Role::Attacker, &history)
        .unwrap();
    assert_eq!(board.difference(&after), Some(Plae::Play(play)));
    assert_eq!(board.difference(&board), None);
}

#[test]
fn exit_squares_are_the_corners() {
    let board = Board::new(BoardSize::_13);
    let size = BoardSize::_13;
    assert_eq!(
        board.exit_squares(),
        vec![
            Vertex { size, x: 0, y: 0 },
            Vertex { size, x: 12, y: 0 },
            Vertex { size, x: 0, y: 12 },
            Vertex { size, x: 12, y: 12 },
        ]
    );
}
