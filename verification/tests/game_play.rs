use hnefatafl_copenhagen::board::{Board, BoardSize};
use hnefatafl_copenhagen::board_move::InvalidMove;
use hnefatafl_copenhagen::board_play::PlayError;
use hnefatafl_copenhagen::game::{Game, GameError, PreviousBoards, TimeUnix};
use hnefatafl_copenhagen::play::{Plae, Play, PlayRecordTimed, Plays, Vertex};
use hnefatafl_copenhagen::role::Role;
use hnefatafl_copenhagen::status::Status;
use hnefatafl_copenhagen::time::{Time, TimeLeft, TimeSettings};

fn v(x: usize, y: usize) -> Vertex {
    Vertex { size: BoardSize::_11, x, y }
}

fn untimed(board: Board, turn: Role) -> Game {
    let history = PreviousBoards(vec![board.copy()]);
    Game {
        board,
        plays: Plays::new(&TimeSettings::UnTimed),
        previous_boards: history,
        status: Status::Ongoing,
        time: TimeUnix::UnTimed,
        attacker_time: TimeSettings::UnTimed,
        defender_time: TimeSettings::UnTimed,
        turn,
    }
}

#[test]
fn new_game() {
    let game = Game::new(BoardSize::_11);
    assert_eq!(game.status, Status::Ongoing);
    assert_eq!(game.turn, Role::Attacker);
    assert!(game.plays.is_empty());
    assert_eq!(game.plays.len(), 0);
    assert!(matches!(game.plays, Plays::PlayRecordsTimed(_)));
    assert_eq!(game.previous_boards.0.len(), 1);
    assert!(matches!(game.time, TimeUnix::Time(_)));
    assert_eq!(
        game.attacker_time,
        TimeSettings::Timed(Time { add_seconds: 10, milliseconds_left: 900_000 })
    );
}

#[test]
fn moves_alternate_and_are_recorded() {
    let mut game = untimed(Board::new(BoardSize::_11), Role::Attacker);
    let first = Plae::Play(Play { role: Role::Attacker, from: v(0, 3), to: v(1, 3) });
    let captures = game.play_at(&first, 0).unwrap();
    assert!(captures.0.is_empty());
    assert_eq!(game.turn, Role::Defender);
    assert_eq!(game.plays.len(), 1);
    assert_eq!(game.previous_boards.0.len(), 2);
    match &game.plays {
        Plays::PlayRecords(records) => assert_eq!(records[0], Some(first)),
        Plays::PlayRecordsTimed(_) => panic!("an untimed game keeps no clocks"),
    }
    let wrong = Plae::Play(Play { role: Role::Attacker, from: v(1, 3), to: v(1, 4) });
    assert_eq!(
        game.play_at(&wrong, 0).err(),
        Some(GameError::Play(PlayError::Invalid(InvalidMove::Turn)))
    );
    assert_eq!(game.turn, Role::Defender);
    assert_eq!(game.plays.len(), 1);
}

#[test]
fn wrong_piece_and_resignations() {
    let mut game = untimed(Board::new(BoardSize::_11), Role::Attacker);
    let mislabelled = Plae::Play(Play { role: Role::Defender, from: v(0, 3), to: v(1, 3) });
    let error = game.play_at(&mislabelled, 0).unwrap_err();
    assert_eq!(error, GameError::WrongPiece { piece: Role::Attacker, play: Role::Defender });
    assert_eq!(error.message(), "play: you are trying to move attacker, but it's defender's turn");
    // A refused turn leaves the position, the record and the side to move as they were.
    assert!(game.board.same_spaces(&Board::new(BoardSize::_11)));
    assert_eq!(game.plays.len(), 0);
    assert_eq!(game.turn, Role::Attacker);

    assert_eq!(game.play_at(&Plae::DefenderResigns, 0).err(), Some(GameError::ResignForOther));
    assert_eq!(
        GameError::ResignForOther.message(),
        "You can't resign for the other player."
    );
    assert!(game.play_at(&Plae::AttackerResigns, 0).is_ok());
    assert_eq!(game.status, Status::DefenderWins);
    assert_eq!(game.plays.len(), 1);

    let again = game.play_at(&Plae::AttackerResigns, 0).unwrap_err();
    assert_eq!(again, GameError::GameOver);
    assert_eq!(again.message(), "play: the game is already over");
}

#[test]
fn the_clock_charges_and_adds() {
    let mut game = Game::new(BoardSize::_11);
    game.time = TimeUnix::Time(1_000);
    let first = Plae::Play(Play { role: Role::Attacker, from: v(0, 3), to: v(1, 3) });
    game.play_at(&first, 1_500).unwrap();
    assert_eq!(
        game.attacker_time,
        TimeSettings::Timed(Time { add_seconds: 10, milliseconds_left: 909_500 })
    );
    assert_eq!(game.time, TimeUnix::Time(1_500));
    match &game.plays {
        Plays::PlayRecordsTimed(records) => assert_eq!(
            records[0],
            PlayRecordTimed {
                play: Some(first),
                attacker_time: TimeLeft { milliseconds_left: 909_500 },
                defender_time: TimeLeft { milliseconds_left: 900_000 },
            }
        ),
        Plays::PlayRecords(_) => panic!("a timed game keeps clocks"),
    }
    assert_eq!(game.plays.time_left(Role::Attacker, 0), "15:09");
    assert_eq!(game.plays.time_left(Role::Defender, 0), "15:00");
}

#[test]
fn running_out_of_time_loses() {
    let mut game = Game::new(BoardSize::_11);
    game.time = TimeUnix::Time(1_000);
    let first = Plae::Play(Play { role: Role::Attacker, from: v(0, 3), to: v(1, 3) });
    let captures = game.play_at(&first, 1_000 + 900_001).unwrap();
    assert!(captures.0.is_empty());
    assert_eq!(game.status, Status::DefenderWins);
    assert_eq!(
        game.attacker_time,
        TimeSettings::Timed(Time { add_seconds: 10, milliseconds_left: -1 })
    );
    assert!(game.plays.is_empty());
}

#[test]
fn untimed_settings_cannot_fill_a_timed_record() {
    let mut game = untimed(Board::new(BoardSize::_11), Role::Attacker);
    game.plays = Plays::default();
    let first = Plae::Play(Play { role: Role::Attacker, from: v(0, 3), to: v(1, 3) });
    assert_eq!(game.play_at(&first, 0).err(), Some(GameError::UnTimed));
    assert_eq!(GameError::UnTimed.message(), "the time settings are un-timed");
}

#[test]
fn playing_now_without_a_clock() {
    let mut game = untimed(Board::new(BoardSize::_11), Role::Attacker);
    let first = Plae::Play(Play { role: Role::Attacker, from: v(0, 3), to: v(1, 3) });
    assert!(game.play(&first).is_ok());
    assert_eq!(game.turn, Role::Defender);
}

#[test]
fn playing_now_with_the_clock() {
    let mut game = Game::new(BoardSize::_11);
    let first = Plae::Play(Play { role: Role::Attacker, from: v(0, 3), to: v(1, 3) });
    assert!(game.play(&first).is_ok());
    assert_eq!(game.turn, Role::Defender);
    assert_eq!(game.plays.len(), 1);
}
