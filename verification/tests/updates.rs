use hnefatafl_copenhagen::board::{Board, BoardSize, BoardSizeError};
use hnefatafl_copenhagen::game::{Game, GameError, PreviousBoards, TimeUnix};
use hnefatafl_copenhagen::game_update::{Message, Reply, UpdateError};
use hnefatafl_copenhagen::login::{
    check_login_line, logged_in_lines, login_answer, session_end_lines, session_line, LoginAnswer,
    LoginError, LoginRequest, SessionLine,
};
use hnefatafl_copenhagen::play::{Plae, Play, Plays, Vertex};
use hnefatafl_copenhagen::role::Role;
use hnefatafl_copenhagen::status::Status;
use hnefatafl_copenhagen::time::{Time, TimeSettings};
use hnefatafl_copenhagen::utils::split_whitespace_password;

fn v(x: usize, y: usize) -> Vertex {
    Vertex { size: BoardSize::_11, x, y }
}

fn untimed(board: Board, turn: Role) -> Game {
    let history = PreviousBoards(vec![board.copy()]);
    Game {
        board,
        plays: Plays::new(&TimeSettings::UnTimed),
        previous_boards: history,
        status: Status::Ongoing,
        time: TimeUnix::UnTimed,
        attacker_time: TimeSettings::UnTimed,
        defender_time: TimeSettings::UnTimed,
        turn,
    }
}

fn timed(board: Board, turn: Role, started: i64) -> Game {
    let clock = TimeSettings::Timed(Time { add_seconds: 10, milliseconds_left: 900_000 });
    let history = PreviousBoards(vec![board.copy()]);
    Game {
        board,
        plays: Plays::new(&clock),
        previous_boards: history,
        status: Status::Ongoing,
        time: TimeUnix::Time(started),
        attacker_time: clock,
        defender_time: clock,
        turn,
    }
}

fn king_near_corner() -> Board {
    Board::try_from_rows(&[
        "...........",
        "...........",
        "...........",
        "K..........",
        "...........",
        "...........",
        "...........",
        "...X.......",
        "...........",
        "...........",
        "...........",
    ])
    .unwrap()
}

fn text(r: Result<Reply, UpdateError>) -> String {
    match r {
        Ok(Reply::Text(s)) => s,
        _ => panic!("expected a line of text"),
    }
}

#[test]
fn timed_king_reaches_a_corner() {
    let game = timed(king_near_corner(), Role::Defender, 1_000);
    assert!(game.exit_one_at(2_000));
    assert!(game.exit_one());
    assert_eq!(game.utility(), 99);

    let start = timed(Board::new(BoardSize::_11), Role::Defender, 1_000);
    assert!(!start.exit_one_at(2_000));
    // With the clock run out, playing to a corner ends the game and succeeds.
    assert!(start.exit_one_at(2_000_000));
}

#[test]
fn finished_game_refuses_off_board_turns() {
    let mut game = untimed(Board::new(BoardSize::_11), Role::Attacker);
    game.status = Status::DefenderWins;
    let before = game.clone();
    let far = Vertex { size: BoardSize::_11, x: 40, y: 40 };
    let play = Plae::Play(Play { role: Role::Attacker, from: far, to: far });
    assert_eq!(game.play(&play).err(), Some(GameError::GameOver));
    assert_eq!(game.board.spaces, before.board.spaces);
    assert_eq!(game.status, before.status);
    assert_eq!(game.turn, before.turn);
}

#[test]
fn login_lines() {
    match check_login_line("ad746a65 login david secret words\n") {
        Ok(LoginRequest::Ask { username, action, password }) => {
            assert_eq!(username, "david");
            assert_eq!(action, "login");
            assert_eq!(password, "secret words");
        },
        _ => panic!("expected a request"),
    }
    let ask = check_login_line("\t ad746a65 create_account david pw \r\n").unwrap();
    assert_eq!(ask.server_line(5), Some("5 david create_account pw".to_string()));
    assert_eq!(ask.reply(), None);
    let bare = check_login_line("ad746a65 login david").unwrap();
    assert_eq!(bare.server_line(7), Some("7 david login ".to_string()));

    let reset = check_login_line("ad746a65 reset_password david").unwrap();
    assert_eq!(reset.server_line(5), Some("0 david reset_password".to_string()));
    assert_eq!(reset.reply(), Some("? login reset_password\n"));

    let wrong = check_login_line("0 login david pw").unwrap();
    assert!(matches!(wrong, LoginRequest::WrongVersion));
    assert_eq!(wrong.reply(), Some("? login wrong_version\n"));
    assert!(matches!(check_login_line("ad746a65 login").unwrap(), LoginRequest::Ignored));

    let long_name = check_login_line("ad746a65 login abcdefghijklmnopq pw").unwrap();
    assert!(matches!(long_name, LoginRequest::UsernameTooLong));
    assert_eq!(long_name.reply(), Some("? login _ username is more than 16 characters\n"));
    assert!(matches!(
        check_login_line("ad746a65 login abcdefghijklmnop pw").unwrap(),
        LoginRequest::Ask { .. }
    ));
    // Lengths count bytes: nine two-byte letters are too many, eight are not.
    assert!(matches!(
        check_login_line("ad746a65 login ééééééééé pw").unwrap(),
        LoginRequest::UsernameTooLong
    ));
    assert!(matches!(
        check_login_line("ad746a65 login éééééééé pw").unwrap(),
        LoginRequest::Ask { .. }
    ));
    let long_password = check_login_line(
        "ad746a65 login david 0123456789 0123456789 0123456789 01",
    )
    .unwrap();
    assert!(matches!(long_password, LoginRequest::PasswordTooLong));
    assert_eq!(long_password.reply(), Some("? login _ password is more than 32 characters\n"));

    assert_eq!(check_login_line(" \t\r\n").err(), Some(LoginError::Quit));
    assert_eq!(check_login_line("").err(), Some(LoginError::Quit));
    assert_eq!(
        check_login_line("ad746a65 login da\u{7}vid pw").err(),
        Some(LoginError::ControlCharacters)
    );
    assert_eq!(check_login_line("\0").err(), Some(LoginError::ControlCharacters));
    assert_eq!(
        LoginError::ControlCharacters.message(),
        "there are control characters in the username or password"
    );
}

#[test]
fn login_answers() {
    assert!(matches!(login_answer("login", "= login"), LoginAnswer::LoggedIn));
    match login_answer("login", "? login") {
        LoginAnswer::Write(s) => assert_eq!(s, "? login multiple_possible_errors\n"),
        LoginAnswer::LoggedIn => panic!("the login was refused"),
    }
    assert!(matches!(login_answer("create_account", "= create_account"), LoginAnswer::LoggedIn));
    match login_answer("create_account", "? create_account taken") {
        LoginAnswer::Write(s) => assert_eq!(s, "? create_account taken\n"),
        LoginAnswer::LoggedIn => panic!("the account was refused"),
    }
    match login_answer("dance", "= dance") {
        LoginAnswer::Write(s) => assert_eq!(s, "? login _\n"),
        LoginAnswer::LoggedIn => panic!("no such action"),
    }
    let lines = logged_in_lines(3, "david");
    assert_eq!(lines.len(), 9);
    assert_eq!(lines[0], "3 david email_get");
    assert_eq!(lines[8], "3 david resume_games");
}

#[test]
fn text_protocol_updates() {
    let mut game = untimed(Board::new(BoardSize::_11), Role::Attacker);
    assert_eq!(
        game.update_at(&Message::BoardSize(12), 0).err(),
        Some(UpdateError::BoardSize(BoardSizeError { value: 12 }))
    );
    assert_eq!(
        UpdateError::BoardSize(BoardSizeError { value: 12 }).message(),
        "expected 11 or 13, got 12"
    );
    assert!(matches!(game.update_at(&Message::Empty, 0), Ok(Reply::Nothing)));
    assert!(matches!(game.update_at(&Message::Quit, 0), Ok(Reply::Quit)));
    assert_eq!(text(game.update_at(&Message::ProtocolVersion, 0)), "1-beta");

    let from = text(game.update_at(&Message::PlayFrom, 0));
    assert!(from.starts_with("attacker d11 e11 g11 h11 f10 "));
    assert_eq!(
        text(game.update_at(&Message::PlayTo(Role::Attacker, v(3, 0)), 0)),
        "d10 d9 d8 d7 b11 c11"
    );
    let wrong = game.update_at(&Message::PlayTo(Role::Defender, v(3, 0)), 0).err().unwrap();
    assert_eq!(wrong, UpdateError::WrongTurn { tried: Role::Defender, turn: Role::Attacker });
    assert_eq!(wrong.message(), "tried play_to defender, but it's attacker turn");
    assert_eq!(
        game.update_at(&Message::PlayTo(Role::Attacker, v(0, 0)), 0).err(),
        Some(UpdateError::InvalidFromVertex)
    );
    assert_eq!(UpdateError::InvalidFromVertex.message(), "invalid from vertex");

    let first = Plae::Play(Play { role: Role::Attacker, from: v(3, 0), to: v(3, 1) });
    assert_eq!(text(game.update_at(&Message::Play(first), 0)), "");
    assert_eq!(game.turn, Role::Defender);
    assert_eq!(
        game.update_at(&Message::Play(first), 0).err(),
        Some(UpdateError::Play(GameError::WrongPiece { piece: Role::Roleless, play: Role::Attacker }))
    );

    assert_eq!(text(game.update_at(&Message::BoardSize(13), 5)), "");
    assert_eq!(game.board.size(), BoardSize::_13);
    assert_eq!(game.time, TimeUnix::Time(5));
    assert_eq!(game.turn, Role::Attacker);

    assert_eq!(text(game.update_at(&Message::TimeSettings(TimeSettings::UnTimed), 9)), "");
    assert_eq!(game.board.size(), BoardSize::_13);
    assert_eq!(game.time, TimeUnix::UnTimed);
    assert_eq!(game.attacker_time, TimeSettings::UnTimed);
    assert!(matches!(game.plays, Plays::PlayRecords(_)));
    let clock = TimeSettings::Timed(Time { add_seconds: 3, milliseconds_left: 60_000 });
    assert_eq!(text(game.update_at(&Message::TimeSettings(clock), 9)), "");
    assert_eq!(game.time, TimeUnix::Time(9));
    assert_eq!(game.defender_time, clock);
    assert!(matches!(game.plays, Plays::PlayRecordsTimed(_)));

    assert!(matches!(game.update(&Message::ProtocolVersion), Ok(Reply::Text(_))));
}

#[test]
fn a_turn_answers_with_its_captures() {
    let board = Board::try_from_rows(&[
        "...........",
        "...........",
        "...........",
        "...........",
        "...........",
        "XO...K.....",
        "...........",
        "..X........",
        "...........",
        "...........",
        "...........",
    ])
    .unwrap();
    let mut game = untimed(board, Role::Attacker);
    let capture = Plae::Play(Play { role: Role::Attacker, from: v(2, 7), to: v(2, 5) });
    assert_eq!(text(game.update_at(&Message::Play(capture), 0)), "b6 ");
}

#[test]
fn ideographic_space_is_whitespace() {
    let (kept, ends) = split_whitespace_password("a\u{3000}b\u{3000}");
    assert_eq!(kept, "ab ");
    assert!(ends);
}

#[test]
fn session_lines() {
    match session_line(4, "david", None, "  join_game 17 \n") {
        SessionLine::Forward { line, game_id } => {
            assert_eq!(line, "4 david join_game 17");
            assert_eq!(game_id, Some(17));
        },
        SessionLine::Stop => panic!("the line goes on to the server"),
    }
    match session_line(4, "david", Some(17), "text hello there") {
        SessionLine::Forward { line, game_id } => {
            assert_eq!(line, "4 david text hello there");
            assert_eq!(game_id, Some(17));
        },
        SessionLine::Stop => panic!("the line goes on to the server"),
    }
    match session_line(4, "david", Some(17), "resume_game x") {
        SessionLine::Forward { game_id, .. } => assert_eq!(game_id, Some(17)),
        SessionLine::Stop => panic!("the line goes on to the server"),
    }
    match session_line(4, "david", Some(17), "resume_game_ron +340282366920938463463374607431768211455") {
        SessionLine::Forward { game_id, .. } => assert_eq!(game_id, Some(u128::MAX)),
        SessionLine::Stop => panic!("the line goes on to the server"),
    }
    match session_line(4, "david", Some(17), "resume_game 340282366920938463463374607431768211456") {
        SessionLine::Forward { game_id, .. } => assert_eq!(game_id, Some(17)),
        SessionLine::Stop => panic!("the line goes on to the server"),
    }
    match session_line(4, "david", Some(17), "leave_game 17") {
        SessionLine::Forward { game_id, .. } => assert_eq!(game_id, None),
        SessionLine::Stop => panic!("the line goes on to the server"),
    }
    assert!(matches!(session_line(4, "david", None, " \n"), SessionLine::Stop));
    assert!(matches!(session_line(4, "david", None, "text a\u{1b}b"), SessionLine::Stop));
    assert_eq!(
        session_end_lines(4, "david", Some(17)),
        vec!["4 david leave_game 17".to_string(), "4 david logout".to_string()]
    );
    assert_eq!(session_end_lines(4, "david", None), vec!["4 david logout".to_string()]);
}

#[test]
fn board_play_is_play_internal_with_history() {
    let board = Board::new(BoardSize::_11);
    let history = PreviousBoards(vec![board.copy()]);
    let turn = Play { role: Role::Attacker, from: v(3, 0), to: v(3, 1) };
    let (after, caps, status) = board
        .play_internal(&Plae::Play(turn), &Status::Ongoing, &Role::Attacker, &history)
        .unwrap();
    let mut played = board.copy();
    let mut grown = PreviousBoards(vec![board.copy()]);
    let (caps2, status2) = played
        .play(&Plae::Play(turn), &Status::Ongoing, &Role::Attacker, &mut grown)
        .unwrap();
    assert_eq!(caps, caps2);
    assert_eq!(status, status2);
    assert_eq!(played.spaces, after.spaces);
    assert_eq!(grown.0.len(), 2);
    assert_eq!(grown.0[1].spaces, after.spaces);

    let wrong = Play { role: Role::Attacker, from: v(3, 0), to: v(4, 1) };
    let e1 = board.play_internal(&Plae::Play(wrong), &Status::Ongoing, &Role::Attacker, &history).err();
    let mut same = board.copy();
    let mut kept = PreviousBoards(vec![board.copy()]);
    let e2 = same.play(&Plae::Play(wrong), &Status::Ongoing, &Role::Attacker, &mut kept).err();
    assert!(e1.is_some());
    assert_eq!(e1, e2);
    assert_eq!(same.spaces, board.spaces);
    assert_eq!(kept.0.len(), 1);
}

#[test]
fn generate_move_plays_the_first_turn() {
    let mut game = untimed(Board::new(BoardSize::_11), Role::Attacker);
    assert_eq!(
        text(game.update_at(&Message::GenerateMove, 0)),
        "play attacker d11 d10\n, score: 0, delay milliseconds: 0"
    );
    assert_eq!(game.turn, Role::Defender);
    game.status = Status::Draw;
    assert_eq!(game.update_at(&Message::GenerateMove, 0).err(), Some(UpdateError::GenerateMove));
    assert_eq!(UpdateError::GenerateMove.message(), "failed to generate move");
}
