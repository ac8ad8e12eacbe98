use hnefatafl_copenhagen::ai::AiBanal;
use hnefatafl_copenhagen::board::{Board, BoardSize};
use hnefatafl_copenhagen::game::{Game, PreviousBoards, TimeUnix};
use hnefatafl_copenhagen::play::{Plae, Play, Plays, Vertex};
use hnefatafl_copenhagen::role::Role;
use hnefatafl_copenhagen::status::Status;
use hnefatafl_copenhagen::time::TimeSettings;

fn v(x: usize, y: usize) -> Vertex {
    Vertex { size: BoardSize::_11, x, y }
}

fn untimed(board: Board, turn: Role) -> Game {
    let history = PreviousBoards(vec![board.copy()]);
    Game {
        board,
        plays: Plays::new(&TimeSettings::UnTimed),
        previous_boards: history,
        status: Status::Ongoing,
        time: TimeUnix::UnTimed,
        attacker_time: TimeSettings::UnTimed,
        defender_time: TimeSettings::UnTimed,
        turn,
    }
}

#[test]
fn legal_moves_at_the_start() {
    let game = untimed(Board::new(BoardSize::_11), Role::Attacker);
    let moves = game.all_legal_moves();
    assert_eq!(moves.role, Role::Attacker);
    assert_eq!(moves.moves.len(), 20);
    let total: usize = moves.moves.iter().map(|(_, tos)| tos.len()).sum();
    assert_eq!(total, 116);
    assert_eq!(moves.moves[0].0, v(3, 0));
    assert_eq!(moves.moves[0].1, vec![v(3, 1), v(3, 2), v(3, 3), v(3, 4), v(1, 0), v(2, 0)]);
    let plays = game.all_legal_plays();
    assert_eq!(plays.len(), 116);
    assert_eq!(plays[0], Plae::Play(Play { role: Role::Attacker, from: v(3, 0), to: v(3, 1) }));

    let defenders = untimed(Board::new(BoardSize::_11), Role::Defender);
    let moves = defenders.all_legal_moves();
    assert_eq!(moves.moves.len(), 8);
    let total: usize = moves.moves.iter().map(|(_, tos)| tos.len()).sum();
    assert_eq!(total, 60);
}

#[test]
fn no_move_means_resigning() {
    let board = Board::try_from_rows(&[
        "...........",
        "...........",
        "...........",
        "...........",
        "...........",
        ".....K.....",
        "...........",
        "...........",
        "...........",
        "...........",
        "...........",
    ])
    .unwrap();
    let game = untimed(board, Role::Attacker);
    assert!(game.all_legal_moves().moves.is_empty());
    assert_eq!(game.all_legal_plays(), vec![Plae::AttackerResigns]);
    let mut over = game.clone();
    over.status = Status::DefenderWins;
    assert!(over.all_legal_plays().is_empty());
}

#[test]
fn utility_and_exit_one() {
    let game = untimed(Board::new(BoardSize::_11), Role::Attacker);
    assert!(!game.exit_one());
    assert_eq!(game.utility(), 0);

    let board = Board::try_from_rows(&[
        "...........",
        "...........",
        "...........",
        "K..........",
        "...........",
        "...........",
        "...........",
        "...X.......",
        "...........",
        "...........",
        "...........",
    ])
    .unwrap();
    let near = untimed(board, Role::Defender);
    assert!(near.exit_one());
    assert_eq!(near.utility(), 99);
    assert_eq!(
        near.obvious_play(),
        Some(Plae::Play(Play { role: Role::Defender, from: v(0, 3), to: v(0, 0) }))
    );
    let mut won = near.clone();
    won.status = Status::DefenderWins;
    assert_eq!(won.utility(), i32::MAX);
    won.status = Status::AttackerWins;
    assert_eq!(won.utility(), i32::MIN);
    won.status = Status::Draw;
    assert_eq!(won.utility(), 0);
}

#[test]
fn attackers_see_the_capture_of_the_king() {
    let board = Board::try_from_rows(&[
        "...........",
        "...........",
        "...X.......",
        "..XKX......",
        "...........",
        "...........",
        "...X.......",
        "...........",
        "...........",
        "...........",
        "...........",
    ])
    .unwrap();
    let game = untimed(board, Role::Attacker);
    assert_eq!(
        game.obvious_play(),
        Some(Plae::Play(Play { role: Role::Attacker, from: v(3, 6), to: v(3, 4) }))
    );
    let start = untimed(Board::new(BoardSize::_11), Role::Attacker);
    assert_eq!(start.obvious_play(), None);
}

#[test]
fn banal_ai_plays_the_first_turn() {
    let mut game = untimed(Board::new(BoardSize::_11), Role::Attacker);
    let play = AiBanal.generate_move(&mut game).unwrap();
    assert_eq!(play, Plae::Play(Play { role: Role::Attacker, from: v(3, 0), to: v(3, 1) }));
    assert_eq!(game.turn, Role::Defender);
    let mut over = untimed(Board::new(BoardSize::_11), Role::Attacker);
    over.status = Status::Draw;
    assert!(AiBanal.generate_move(&mut over).is_err());
}
