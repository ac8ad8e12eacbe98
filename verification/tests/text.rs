use hnefatafl_copenhagen::board::BoardSize;
use hnefatafl_copenhagen::characters::Characters;
use hnefatafl_copenhagen::email::Email;
use hnefatafl_copenhagen::locale::Locale;
use hnefatafl_copenhagen::play::{Plae, PlaeError, Play, Vertex, VertexError};
use hnefatafl_copenhagen::rating::Rated;
use hnefatafl_copenhagen::role::Role;
use hnefatafl_copenhagen::server_game::{Challenger, Messenger, ServerGame, ServerGameLight};
use hnefatafl_copenhagen::space::Space;
use hnefatafl_copenhagen::time::{time_left, Time, TimeEnum, TimeLeft, TimeSettings};
use hnefatafl_copenhagen::utils::split_whitespace_password;

#[test]
fn reading_vertices() {
    let size = BoardSize::_11;
    assert_eq!(Vertex::from_str("a1"), Ok(Vertex { size, x: 0, y: 10 }));
    assert_eq!(Vertex::from_str("k11"), Ok(Vertex { size, x: 10, y: 0 }));
    assert_eq!(Vertex::from_str("a+1"), Ok(Vertex { size, x: 0, y: 10 }));
    assert_eq!(
        Vertex::from_str("M13"),
        Ok(Vertex { size: BoardSize::_13, x: 12, y: 0 })
    );
    assert_eq!(Vertex::from_str("z1"), Err(VertexError::IllegalLetter));
    assert_eq!(Vertex::from_str("a"), Err(VertexError::NotANumber));
    assert_eq!(Vertex::from_str("ax"), Err(VertexError::NotANumber));
    assert_eq!(Vertex::from_str("a12"), Err(VertexError::InvalidCoordinate));
    assert_eq!(Vertex::from_str("a0"), Err(VertexError::InvalidCoordinate));
    assert_eq!(Vertex::from_str(""), Err(VertexError::InvalidCoordinate));
}

#[test]
fn naming_vertices() {
    let v = Vertex { size: BoardSize::_11, x: 0, y: 10 };
    assert_eq!(v.to_string(), "a1");
    assert_eq!(v.fmt_other(), "A1");
    let w = Vertex { size: BoardSize::_13, x: 12, y: 0 };
    assert_eq!(w.to_string(), "M13");
    for x in 0..11 {
        for y in 0..11 {
            let v = Vertex { size: BoardSize::_11, x, y };
            assert_eq!(Vertex::from_str(&v.to_string()), Ok(v));
        }
    }
}

#[test]
fn neighbours_and_walls() {
    let size = BoardSize::_11;
    let corner = Vertex { size, x: 0, y: 0 };
    assert_eq!(corner.up(), None);
    assert_eq!(corner.left(), None);
    assert_eq!(corner.down(), Some(Vertex { size, x: 0, y: 1 }));
    assert_eq!(corner.right(), Some(Vertex { size, x: 1, y: 0 }));
    assert!(corner.touches_wall());
    assert!(corner.on_exit_square());
    let throne = Vertex { size, x: 5, y: 5 };
    assert!(throne.on_throne());
    assert!(throne.on_restricted_square());
    assert!(!throne.touches_wall());
    assert_eq!(throne.index(), 60);
}

#[test]
fn reading_turns() {
    let size = BoardSize::_11;
    assert_eq!(
        Plae::from_str_("a4-d4", &Role::Attacker),
        Ok(Plae::Play(Play {
            role: Role::Attacker,
            from: Vertex { size, x: 0, y: 7 },
            to: Vertex { size, x: 3, y: 7 },
        }))
    );
    assert_eq!(Plae::from_str_("a4d4", &Role::Attacker), Err(PlaeError::ExpectedVertexVertex));
    assert_eq!(
        Plae::from_str_("a4-z4", &Role::Attacker),
        Err(PlaeError::Vertex(VertexError::IllegalLetter))
    );
    assert_eq!(
        Plae::from_str_("a4-d4-e4", &Role::Defender),
        Err(PlaeError::Vertex(VertexError::NotANumber))
    );
}

#[test]
fn reading_roles() {
    assert_eq!(Role::from_str("attacker").ok(), Some(Role::Attacker));
    assert_eq!(Role::from_str("ATTACKER").ok(), Some(Role::Attacker));
    assert_eq!(Role::from_str("D").ok(), Some(Role::Defender));
    assert_eq!(Role::from_str("Defender").ok(), Some(Role::Defender));
    let error = Role::from_str("King").unwrap_err();
    assert_eq!(error.text, "king");
    assert_eq!(error.message(), "Error trying to convert 'king' to a Role!");
    assert_eq!(Role::Attacker.to_str(), "attacker");
    assert_eq!(Role::Attacker.opposite(), Role::Defender);
    assert_eq!(Role::Defender.opposite(), Role::Attacker);
    assert_eq!(Role::Roleless.opposite(), Role::Roleless);
}

#[test]
fn clocks_as_text() {
    assert_eq!(time_left(900_000), "15:00");
    assert_eq!(time_left(61_000), "01:01");
    assert_eq!(time_left(5_000), "05");
    assert_eq!(time_left(3_661_000), "01:01:01");
    assert_eq!(time_left(90_061_000), "1 01:01:01");
    assert_eq!(time_left(-5_000), "-5");
    assert_eq!(TimeLeft { milliseconds_left: 61_000 }.to_string(), "01:01");
    assert_eq!(TimeSettings::UnTimed.time_left(), "-");
    assert_eq!(TimeSettings::default().time_left(), "15:00");
    assert_eq!(Time::default(), Time { add_seconds: 10, milliseconds_left: 900_000 });
    assert!(TimeSettings::default().is_timed());
    assert!(TimeLeft::try_from_settings(TimeSettings::UnTimed).is_err());
    assert_eq!(TimeEnum::default(), TimeEnum::Rapid);
}

#[test]
fn squares_as_text() {
    assert_eq!(Space::Attacker.display_ascii(), "A");
    assert_eq!(Space::King.display(), "♔");
    assert_eq!(Space::try_from_char('X'), Ok(Space::Attacker));
    assert_eq!(Space::from_u8(Space::Defender.to_u8()), Space::Defender);
    assert_eq!(Space::Defender.piece_index().ok(), Some(1));
    assert!(Space::Empty.piece_index().is_err());
}

#[test]
fn rated_locale_characters_email() {
    assert_eq!(Rated::default(), Rated::Yes);
    assert_eq!(Rated::Yes.not(), Rated::No);
    assert_eq!(Rated::from_bool(false), Rated::No);
    assert!(Rated::Yes.to_bool());
    assert_eq!(Rated::No.to_str(), "unrated");
    assert_eq!(Rated::from_str("rated").ok(), Some(Rated::Yes));
    assert_eq!(Rated::from_str("unrated").ok(), Some(Rated::No));
    assert_eq!(Rated::from_str("yes").unwrap_err().text, "yes");

    assert_eq!(Locale::default().txt(), "en-US");
    assert_eq!(Locale::IcelandicRunic.txt(), "is-RU");
    assert_eq!(Locale::German.to_string(), "Deutsch");

    let mut characters = Characters::default();
    assert_eq!(characters.king, "♔");
    characters.ascii();
    assert_eq!(characters.king, "K");
    assert_eq!(characters.people, "OO");

    let email = Email {
        address: "player@example.org".to_string(),
        code: None,
        username: "player".to_string(),
        verified: false,
    };
    assert_eq!(email.tx(), "player\u{2007}<player@example.org>");
}

#[test]
fn passwords() {
    assert_eq!(split_whitespace_password("a b c"), ("abc".to_string(), false));
    assert_eq!(split_whitespace_password("a b "), ("ab ".to_string(), true));
    assert_eq!(split_whitespace_password("pass\u{3000}"), ("pass ".to_string(), true));
    assert_eq!(split_whitespace_password("   "), ("".to_string(), false));
    assert_eq!(split_whitespace_password(""), ("".to_string(), false));
}

#[test]
fn server_game_list() {
    let game = ServerGameLight::new(
        7,
        "player".to_string(),
        Rated::Yes,
        TimeSettings::UnTimed,
        BoardSize::_13,
        3,
        Role::Defender,
    );
    assert_eq!(game.id, 7);
    assert_eq!(game.defender, Some("player".to_string()));
    assert_eq!(game.attacker, None);
    assert_eq!(game.defender_channel, Some(3));
    assert!(game.spectators.is_empty());
    assert_eq!(game.challenger.to_string(), "challenger: none");
    assert_eq!(Challenger(Some("other".to_string())).to_string(), "challenger: other");
    assert_eq!(Challenger::default().to_debug_string(), "_");

    let (tx, rx) = std::sync::mpsc::channel();
    let messenger = Messenger::new(tx);
    messenger.send("= hello".to_string());
    assert_eq!(rx.recv().unwrap(), "= hello");
}

#[test]
fn server_games_start() {
    let mut offered = ServerGameLight::new(
        4,
        "alice".to_string(),
        Rated::No,
        TimeSettings::Timed(Time { add_seconds: 10, milliseconds_left: 900_000 }),
        BoardSize::_11,
        1,
        Role::Attacker,
    );
    offered.defender = Some("bob".to_string());
    let (attacker_tx, attacker_rx) = std::sync::mpsc::channel();
    let (defender_tx, _defender_rx) = std::sync::mpsc::channel();
    let game = ServerGame::new(attacker_tx, defender_tx, offered);
    assert_eq!(game.protocol(), "game 4 alice bob unrated");
    assert_eq!(game.to_string(), "4: alice, bob, unrated ");
    assert_eq!(game.game.plays.len(), 1);
    assert_eq!(game.game.turn, Role::Attacker);
    assert!(game.texts.is_empty());
    game.attacker_tx.send("= game".to_string());
    assert_eq!(attacker_rx.recv().unwrap(), "= game");

    let listed = ServerGameLight::from_server_game(&game);
    assert_eq!(listed.attacker, Some("alice".to_string()));
    assert_eq!(listed.defender, Some("bob".to_string()));
    assert_eq!(listed.timed, TimeSettings::UnTimed);
    assert_eq!(listed.board_size, BoardSize::_11);
    assert!(listed.challenge_accepted);
    assert!(!listed.game_over);
}

#[test]
fn squares_as_bytes() {
    for space in [Space::Attacker, Space::Defender, Space::Empty, Space::King] {
        assert!(space.to_u8() < 4);
        assert_eq!(Space::from_u8(space.to_u8()), space);
    }
    assert_eq!(Space::Attacker.to_u8(), 0);
    assert_eq!(Space::King.to_u8(), 3);
    assert_eq!(Space::Empty.piece_index().ok(), None);
    assert_eq!(Space::King.piece_index().ok(), Some(2));
}

#[test]
fn game_list_entry_text() {
    let game = ServerGameLight::new(
        0,
        "player-1".to_string(),
        Rated::Yes,
        TimeSettings::Timed(Time { add_seconds: 10, milliseconds_left: 900_000 }),
        BoardSize::_11,
        1,
        Role::Attacker,
    );
    assert_eq!(
        game.to_debug_string("{}"),
        "game 0 player-1 _ rated fischer 900000 10 11 _ false {}"
    );
}
