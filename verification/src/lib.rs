use vstd::prelude::*;

pub mod accounts;
pub mod ai;
pub mod board;
pub mod board_capture;
pub mod board_diagram;
pub mod board_escape;
pub mod board_exit;
pub mod board_flood;
pub mod board_laws;
pub mod board_move;
pub mod board_play;
pub mod board_scan;
pub mod board_shield;
pub mod board_text;
pub mod board_sides;
pub mod board_trap;
pub mod characters;
pub mod client;
pub mod email;
pub mod game;
pub mod game_eval;
pub mod futhorc;
pub mod game_moves;
pub mod game_update;
pub mod icelandic_runic;
pub mod locale;
pub mod login;
pub mod opentafl;
pub mod play;
pub mod rating;
pub mod role;
pub mod server;
pub mod server_game;
pub mod space;
pub mod status;
pub mod text;
pub mod time;
pub mod tournament;
pub mod tree;
pub mod utils;
pub mod zobrist;

verus! {

/// The number that names a game, a group or a tournament.
pub type Id = u128;

/// The name of the project's data directory.
pub const HOME: &'static str = "hnefatafl-copenhagen";

/// The port the server listens on, as the address suffix.
pub const SERVER_PORT: &'static str = ":49152";

/// The path of the server's local socket.
pub const SOCKET_PATH: &'static str = "/tmp/hnefatafl.sock";

/// The protocol version that clients send first.
pub const VERSION_ID: &'static str = "ad746a65";

} // verus!
