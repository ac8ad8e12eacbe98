use hnefatafl_copenhagen::accounts::censor;
use hnefatafl_copenhagen::email::Email;
use hnefatafl_copenhagen::board::BoardSize;
use hnefatafl_copenhagen::rating::Rated;
use hnefatafl_copenhagen::role::Role;
use hnefatafl_copenhagen::server::{ServerAction, ServerState};
use hnefatafl_copenhagen::server_game::{ServerGame, ServerGameLight};
use hnefatafl_copenhagen::time::TimeSettings;

fn reply(to: Option<usize>, ok: bool, text: &str) -> ServerAction {
    ServerAction::Reply { to, ok, text: text.to_string() }
}

fn send(to: usize, text: &str) -> ServerAction {
    ServerAction::Send { to, text: text.to_string() }
}

fn with_david() -> ServerState {
    let mut state = ServerState::new();
    let acts = state.handle_message_at("0 david create_account PASSWORD", true, 5);
    assert_eq!(acts, vec![ServerAction::Register { index: 0 }, reply(Some(0), true, "create_account")]);
    state
}

#[test]
fn accounts_are_created_and_logged_in() {
    let state = with_david();
    assert_eq!(state.accounts.len(), 1);
    assert_eq!(state.accounts[0].name, "david");
    assert_eq!(state.accounts[0].logged_in, Some(0));
    assert_eq!(state.accounts[0].last_logged_in, 5);
    assert!(state.accounts[0].password.starts_with("$argon2"));
    assert_eq!(state.clients, vec![0]);

    let mut again = state.clone();
    assert_eq!(
        again.handle_message_at("1 david create_account other", true, 6),
        vec![reply(None, false, "create_account already_exists")]
    );
    assert_eq!(
        again.handle_message_at("1 server create_account other", true, 6),
        vec![reply(None, false, "create_account already_exists")]
    );
    assert!(again.handle_message_at("1 eve create_account other", false, 6).is_empty());
    assert_eq!(again.accounts.len(), 1);
}

#[test]
fn admins_are_told_so() {
    let mut state = with_david();
    assert!(state.handle_message_at("0 david admin", false, 7).is_empty());
    state.admins.push("david".to_string());
    assert_eq!(state.handle_message_at("0 david admin", false, 7), vec![send(0, "= admin")]);
    assert!(state.handle_message_at("0 david admin_tournament", false, 7).is_empty());
    state.admins_tournament.push("david".to_string());
    assert_eq!(
        state.handle_message_at("0 david admin_tournament", false, 7),
        vec![send(0, "= admin_tournament")]
    );
}

#[test]
fn a_changed_password_logs_in() {
    let mut state = with_david();
    assert_eq!(
        state.handle_message_at("0 david change_password password", false, 8),
        vec![reply(Some(0), true, "change_password")]
    );
    assert_eq!(
        state.handle_message_at("0 david logout", false, 9),
        vec![send(0, "= logout"), ServerAction::Unregister { index: 0 }]
    );
    assert_eq!(state.accounts[0].logged_in, None);
    assert!(state.clients.is_empty());
    assert_eq!(
        state.handle_message_at("3 david login PASSWORD", true, 10),
        vec![reply(None, false, "login")]
    );
    assert_eq!(
        state.handle_message_at("3 david login password", true, 10),
        vec![ServerAction::Register { index: 3 }, reply(Some(3), true, "login")]
    );
    assert_eq!(state.accounts[0].logged_in, Some(3));
    assert_eq!(state.accounts[0].last_logged_in, 10);
    assert_eq!(
        state.handle_message_at("4 david login password", true, 11),
        vec![reply(None, false, "login")]
    );
    assert_eq!(
        state.handle_message_at("4 nobody login password", true, 11),
        vec![reply(None, false, "login")]
    );
    assert_eq!(
        state.handle_message_at(
            "3 david change_password 0123456789 0123456789 0123456789 01",
            false,
            12
        ),
        vec![reply(Some(3), false, "change_password password is greater than 32 characters")]
    );
}

#[test]
fn other_account_commands() {
    let mut state = with_david();
    assert_eq!(state.handle_message_at("0 david ping", false, 1), vec![reply(Some(0), true, "ping")]);
    assert!(state.handle_message_at("9 david ping", false, 1).is_empty());
    assert_eq!(state.handle_message_at("0 david dance", false, 1), vec![reply(Some(0), false, "dance")]);
    assert_eq!(
        state.handle_message_at("0 david new_game attacker rated fischer 900000 10 11", false, 1),
        vec![ServerAction::NotHandled]
    );
    assert!(state.handle_message_at("0 david =", false, 1).is_empty());
    assert!(state.handle_message_at("x david ping", false, 1).is_empty());
    assert!(state.handle_message_at("0 david", false, 1).is_empty());
    assert_eq!(state.handle_message_at("0 david save", false, 1), vec![ServerAction::Save]);
    assert_eq!(state.handle_message_at("0 david software_id web-1", false, 1), vec![ServerAction::Save]);
    assert_eq!(state.accounts[0].software_id, "web-1");

    state.accounts[0].email = Some(Email {
        address: "david@example.org".to_string(),
        code: Some(255),
        username: "david".to_string(),
        verified: false,
    });
    assert_eq!(
        state.handle_message_at("0 david email_get", false, 1),
        vec![send(0, "= email david@example.org false")]
    );
    assert_eq!(state.handle_message_at("0 david email_code fe", false, 1), vec![send(0, "? email_code")]);
    assert_eq!(state.handle_message_at("0 david email_code ff", false, 1), vec![send(0, "= email_code")]);
    assert!(state.accounts[0].email.as_ref().unwrap().verified);
    assert_eq!(
        state.handle_message_at("0 david email_reset", false, 1),
        vec![reply(Some(0), true, "email_reset")]
    );
    assert!(state.accounts[0].email.is_none());

    assert_eq!(
        state.handle_message_at("0 david join_tournament", false, 1),
        vec![ServerAction::TournamentStatus]
    );
    state.handle_message_at("0 david join_tournament", false, 1);
    assert_eq!(state.tournament_players, vec!["david".to_string()]);
    state.handle_message_at("0 david leave_tournament", false, 1);
    assert!(state.tournament_players.is_empty());

    assert!(state.handle_message_at("0 david delete_account", false, 1).is_empty());
    assert!(state.accounts.is_empty());
    assert!(!state.handle_message("0 david ping", false).is_empty());
}

#[test]
fn censoring() {
    assert_eq!(censor("david"), "david");
    assert_eq!(censor(&"a".repeat(129)), "");
}

fn with_a_game() -> ServerState {
    let mut state = with_david();
    let acts = state.handle_message_at("1 eve create_account PASSWORD", true, 6);
    assert_eq!(acts, vec![ServerAction::Register { index: 1 }, reply(Some(1), true, "create_account")]);
    let mut light =
        ServerGameLight::new(0, "david".to_string(), Rated::Yes, TimeSettings::UnTimed, BoardSize::_11, 0, Role::Attacker);
    light.defender = Some("eve".to_string());
    let (attacker_tx, _attacker_rx) = std::sync::mpsc::channel();
    let (defender_tx, _defender_rx) = std::sync::mpsc::channel();
    state.games.push(ServerGame::new(attacker_tx, defender_tx, light));
    state
}

fn to_player(game: usize, role: Role, text: &str) -> ServerAction {
    ServerAction::ToPlayer { game, role, text: text.to_string() }
}

fn to_spectators(game: usize, text: &str) -> ServerAction {
    ServerAction::ToSpectators { game, text: text.to_string() }
}

#[test]
fn a_turn_is_played_and_passed_on() {
    let mut state = with_a_game();
    assert_eq!(
        state.handle_message_at("0 david game 0 play attacker a8 b8", false, 7),
        vec![
            to_spectators(0, "game 0 play attacker a8 b8"),
            to_player(0, Role::Defender, "game 0 play attacker a8 b8"),
            to_player(0, Role::Defender, "game 0 generate_move defender"),
            reply(Some(0), true, "game"),
        ]
    );
    assert_eq!(state.games[0].game.turn, Role::Defender);
}

#[test]
fn turns_that_are_not_yours_or_not_there_are_refused() {
    let mut state = with_a_game();
    let refused = vec![reply(Some(1), false, "game")];
    assert_eq!(state.handle_message_at("1 eve game 0 play attacker a8 b8", false, 7), refused);
    assert_eq!(state.handle_message_at("1 eve game 3 play defender a8 b8", false, 7), refused);
    assert_eq!(state.handle_message_at("1 eve game x play defender a8 b8", false, 7), refused);
    assert_eq!(state.handle_message_at("1 eve game 0 play king a8 b8", false, 7), refused);
    assert_eq!(state.handle_message_at("1 eve game 0 play defender", false, 7), refused);
    assert_eq!(state.handle_message_at("1 eve game 0 play defender a8 b8", false, 7), refused);
    assert_eq!(state.handle_message_at("0 david game 0 play attacker a8 z8", false, 7), vec![reply(Some(0), false, "game")]);
    assert_eq!(state.games[0].game.turn, Role::Attacker);
}

#[test]
fn a_resignation_ends_the_game() {
    let mut state = with_a_game();
    let over = "= game_over 0 defender_wins";
    assert_eq!(
        state.handle_message_at("0 david game 0 play attacker resigns _", false, 7),
        vec![
            to_spectators(0, "game 0 play attacker resigns "),
            to_player(0, Role::Defender, "game 0 play attacker resigns "),
            to_player(0, Role::Attacker, over),
            to_player(0, Role::Defender, over),
            to_spectators(0, over),
            ServerAction::Rate { winner: "eve".to_string(), loser: "david".to_string() },
            ServerAction::GameOver { game: 0 },
        ]
    );
    assert_eq!((state.accounts[0].wins, state.accounts[0].losses), (0, 1));
    assert_eq!((state.accounts[1].wins, state.accounts[1].losses), (1, 0));
    let finished = state.finish_game(0).unwrap();
    assert_eq!(finished.id, 0);
    assert!(state.games.is_empty());
    assert!(state.finish_game(0).is_none());
}

#[test]
fn changed_and_removed_accounts_are_listed() {
    let mut state = with_a_game();
    let before = state.accounts.clone();
    assert_eq!(state.accounts_updated(&before), (vec![], vec![]));
    assert_eq!(state.handle_message_at("1 eve software_id web-1", false, 8), vec![ServerAction::Save]);
    assert_eq!(state.accounts_updated(&before), (vec![1], vec![]));
    let both = state.accounts.clone();
    assert!(state.handle_message_at("0 david delete_account", false, 9).is_empty());
    assert_eq!(state.accounts.len(), 1);
    assert_eq!(state.accounts_updated(&both), (vec![], vec!["david".to_string()]));
    assert_eq!(state.accounts_updated(&Vec::new()), (vec![0], vec![]));
}
