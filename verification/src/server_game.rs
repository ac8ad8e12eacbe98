use vstd::prelude::*;

use std::collections::{HashMap, VecDeque};
use std::sync::mpsc::Sender;

use crate::board::{board_11x11, board_13x13, start_spaces, BoardSize};
use crate::game::{Game, PreviousBoards, TimeUnix};
use crate::play::{PlayRecordTimed, Plays};
use crate::rating::Rated;
use crate::role::Role;
use crate::status::Status;
use crate::text::{decimal, push_decimal, push_str};
use crate::time::{TimeLeft, TimeSettings};

verus! {

/// The sending end of a channel between threads, from std.
#[verifier::external_type_specification]
#[verifier::external_body]
#[verifier::reject_recursive_types(T)]
pub struct ExSender<T>(Sender<T>);

/// std's `Sender::send`: hands the text to the channel's receiving end. Whether the receiver
/// is still there rests on another thread; the outcome is let go, and nothing is promised.
#[verifier::external_body]
fn channel_send(sender: &Sender<String>, text: String) {
    let _ok = sender.send(text);
}

/// Where the server sends a player's messages: a channel to the player's connection, if any.
#[derive(Clone, Debug)]
pub struct Messenger(Option<Sender<String>>);

impl Messenger {
    /// The channel, if any.
    pub closed spec fn spec_sender(self) -> Option<Sender<String>> {
        self.0
    }

    /// Sends over this channel.
    pub fn new(sender: Sender<String>) -> (m: Messenger)
        ensures
            m.spec_sender() == Some(sender),
    {
        Messenger(Some(sender))
    }

    /// Sends a message over the channel, when there is one.
    pub fn send(&self, string: String) {
        if let Some(sender) = &self.0 {
            channel_send(sender, string);
        }
    }
}

/// The player who asked to join a game, if any.
#[derive(Clone, Debug)]
pub struct Challenger(pub Option<String>);

impl Challenger {
    /// Nobody has asked.
    pub fn default() -> (c: Challenger)
        ensures
            c.0 is None,
    {
        Challenger(None)
    }

    /// `challenger: ` and the name, or `none`.
    pub fn to_string(&self) -> (s: String)
        ensures
            s@ == "challenger: "@ + match self.0 {
                Some(name) => name@,
                None => "none"@,
            },
    {
        let mut s = String::new();
        push_str(&mut s, "challenger: ");
        match &self.0 {
            Some(name) => push_str(&mut s, name.as_str()),
            None => push_str(&mut s, "none"),
        }
        s
    }

    /// The name, or `_`, as the game list shows it.
    pub fn to_debug_string(&self) -> (s: String)
        ensures
            s@ == match self.0 {
                Some(name) => name@,
                None => "_"@,
            },
    {
        let mut s = String::new();
        match &self.0 {
            Some(name) => push_str(&mut s, name.as_str()),
            None => push_str(&mut s, "_"),
        }
        s
    }
}

/// A game as the server's game list holds it: who plays which side, who asked to join, the
/// settings, the connections, and who watches.
#[derive(Clone)]
pub struct ServerGameLight {
    pub id: usize,
    pub attacker: Option<String>,
    pub defender: Option<String>,
    pub challenger: Challenger,
    pub rated: Rated,
    pub timed: TimeSettings,
    pub attacker_channel: Option<usize>,
    pub defender_channel: Option<usize>,
    pub spectators: HashMap<String, usize>,
    pub challenge_accepted: bool,
    pub game_over: bool,
    pub board_size: BoardSize,
}

impl ServerGameLight {
    /// A game just offered by `username`, who takes the side `role` (the defenders unless it
    /// is the attackers) and is reached over connection `index_supplied`; nobody has joined
    /// or asked yet, and nobody watches.
    pub fn new(
        game_id: usize,
        username: String,
        rated: Rated,
        timed: TimeSettings,
        board_size: BoardSize,
        index_supplied: usize,
        role: Role,
    ) -> (g: ServerGameLight)
        ensures
            g.id == game_id,
            role == Role::Attacker ==> g.attacker == Some(username) && g.defender is None
                && g.attacker_channel == Some(index_supplied) && g.defender_channel is None,
            role != Role::Attacker ==> g.defender == Some(username) && g.attacker is None
                && g.defender_channel == Some(index_supplied) && g.attacker_channel is None,
            g.challenger.0 is None,
            g.rated == rated,
            g.timed == timed,
            g.board_size == board_size,
            g.spectators@ == Map::<String, usize>::empty(),
            !g.challenge_accepted,
            !g.game_over,
    {
        if role == Role::Attacker {
            ServerGameLight {
                id: game_id,
                attacker: Some(username),
                defender: None,
                challenger: Challenger::default(),
                rated,
                timed,
                attacker_channel: Some(index_supplied),
                defender_channel: None,
                spectators: HashMap::new(),
                challenge_accepted: false,
                game_over: false,
                board_size,
            }
        } else {
            ServerGameLight {
                id: game_id,
                attacker: None,
                defender: Some(username),
                challenger: Challenger::default(),
                rated,
                timed,
                attacker_channel: None,
                defender_channel: Some(index_supplied),
                spectators: HashMap::new(),
                challenge_accepted: false,
                game_over: false,
                board_size,
            }
        }
    }
}

/// A name as the game list shows it: the name, or `_` for nobody.
pub open spec fn name_or_blank(name: Option<String>) -> Seq<char> {
    match name {
        Some(n) => n@,
        None => "_"@,
    }
}

/// `true` or `false`.
pub open spec fn bool_text(b: bool) -> Seq<char> {
    if b {
        "true"@
    } else {
        "false"@
    }
}

impl ServerGameLight {
    /// The entry as the game list writes it: `game ID ATTACKER DEFENDER RATED TIMED SIZE
    /// CHALLENGER ACCEPTED SPECTATORS`, with `_` for a side nobody plays and for no
    /// challenger. The spectators come last as `spectators`, the caller's RON text of the
    /// spectator map (`{}` when nobody watches).
    pub fn to_debug_string(&self, spectators: &str) -> (s: String)
        ensures
            s@ == "game "@ + decimal(self.id as nat) + " "@ + name_or_blank(self.attacker) + " "@
                + name_or_blank(self.defender) + " "@ + self.rated.spec_to_str() + " "@
                + crate::text::join_words(crate::time::settings_words(self.timed)) + " "@
                + decimal(self.board_size.n()) + " "@ + name_or_blank(self.challenger.0) + " "@
                + bool_text(self.challenge_accepted) + " "@ + spectators@,
    {
        let mut s = String::new();
        push_str(&mut s, "game ");
        push_decimal(&mut s, self.id as u128);
        push_str(&mut s, " ");
        match &self.attacker {
            Some(n) => push_str(&mut s, n.as_str()),
            None => push_str(&mut s, "_"),
        }
        push_str(&mut s, " ");
        match &self.defender {
            Some(n) => push_str(&mut s, n.as_str()),
            None => push_str(&mut s, "_"),
        }
        push_str(&mut s, " ");
        push_str(&mut s, self.rated.to_str());
        push_str(&mut s, " ");
        let timed = self.timed.to_debug_string();
        push_str(&mut s, timed.as_str());
        push_str(&mut s, " ");
        push_decimal(&mut s, self.board_size.to_usize() as u128);
        push_str(&mut s, " ");
        let challenger = self.challenger.to_debug_string();
        push_str(&mut s, challenger.as_str());
        push_str(&mut s, " ");
        push_str(&mut s, if self.challenge_accepted {
            "true"
        } else {
            "false"
        });
        push_str(&mut s, " ");
        push_str(&mut s, spectators);
        s
    }
}

/// The server's list of games, by id.
#[derive(Clone)]
pub struct ServerGamesLight(pub HashMap<usize, ServerGameLight>);

/// A game being played on the server: its players and the channels to them, whether it is
/// rated, the game itself, and the messages written in it.
#[derive(Clone, Debug)]
pub struct ServerGame {
    pub id: usize,
    pub attacker: String,
    pub attacker_tx: Messenger,
    pub defender: String,
    pub defender_tx: Messenger,
    pub rated: Rated,
    pub game: Game,
    pub texts: VecDeque<String>,
}

/// The record a server game starts with: one empty turn, with both clocks when the game is
/// timed.
pub open spec fn opening_record(timed: TimeSettings, plays: Plays) -> bool {
    match timed {
        TimeSettings::Timed(t) => plays matches Plays::PlayRecordsTimed(v) && v@ == seq![
            PlayRecordTimed {
                play: None,
                attacker_time: TimeLeft { milliseconds_left: t.milliseconds_left },
                defender_time: TimeLeft { milliseconds_left: t.milliseconds_left },
            },
        ],
        TimeSettings::UnTimed => plays matches Plays::PlayRecords(v) && v@ == seq![None::<crate::play::Plae>],
    }
}

impl ServerGame {
    /// The game as the protocol announces it: `game ID ATTACKER DEFENDER RATED`.
    pub fn protocol(&self) -> (s: String)
        ensures
            s@ == "game "@ + decimal(self.id as nat) + " "@ + self.attacker@ + " "@
                + self.defender@ + " "@ + self.rated.spec_to_str(),
    {
        let mut s = String::new();
        push_str(&mut s, "game ");
        push_decimal(&mut s, self.id as u128);
        push_str(&mut s, " ");
        push_str(&mut s, self.attacker.as_str());
        push_str(&mut s, " ");
        push_str(&mut s, self.defender.as_str());
        push_str(&mut s, " ");
        push_str(&mut s, self.rated.to_str());
        s
    }

    /// The game as listed: `ID: ATTACKER, DEFENDER, RATED `.
    pub fn to_string(&self) -> (s: String)
        ensures
            s@ == decimal(self.id as nat) + ": "@ + self.attacker@ + ", "@ + self.defender@ + ", "@
                + self.rated.spec_to_str() + " "@,
    {
        let mut s = String::new();
        push_decimal(&mut s, self.id as u128);
        push_str(&mut s, ": ");
        push_str(&mut s, self.attacker.as_str());
        push_str(&mut s, ", ");
        push_str(&mut s, self.defender.as_str());
        push_str(&mut s, ", ");
        push_str(&mut s, self.rated.to_str());
        push_str(&mut s, " ");
        s
    }

    /// Starts the game that both players of `game` have joined: each is reached over the
    /// given channel; the board is at its start, the record holds one empty turn (with both
    /// clocks when timed), the positions hold the start of an 11 by 11 board, the clock is
    /// started now, both clocks are set as the game was offered, and the attackers move first.
    pub fn new(attacker_tx: Sender<String>, defender_tx: Sender<String>, game: ServerGameLight) -> (g: ServerGame)
        requires
            game.attacker is Some,
            game.defender is Some,
        ensures
            g.id == game.id,
            g.attacker == game.attacker->Some_0,
            g.defender == game.defender->Some_0,
            g.attacker_tx.spec_sender() == Some(attacker_tx),
            g.defender_tx.spec_sender() == Some(defender_tx),
            g.rated == game.rated,
            g.game.wf(),
            g.game.board.spec_size() == game.board_size,
            g.game.board.spaces@ == start_spaces(game.board_size),
            opening_record(game.timed, g.game.plays),
            g.game.previous_boards.0@.len() == 1,
            g.game.previous_boards.0@[0].spaces@ == start_spaces(BoardSize::_11),
            g.game.status == Status::Ongoing,
            g.game.time is Time,
            g.game.attacker_time == game.timed,
            g.game.defender_time == game.timed,
            g.game.turn == Role::Attacker,
            g.texts@.len() == 0,
    {
        let attacker = game.attacker.unwrap();
        let defender = game.defender.unwrap();
        let plays = match game.timed {
            TimeSettings::Timed(time) => {
                let mut v: Vec<PlayRecordTimed> = Vec::new();
                v.push(
                    PlayRecordTimed {
                        play: None,
                        attacker_time: TimeLeft::from_time(time),
                        defender_time: TimeLeft::from_time(time),
                    },
                );
                Plays::PlayRecordsTimed(v)
            },
            TimeSettings::UnTimed => {
                let mut v: Vec<Option<crate::play::Plae>> = Vec::new();
                v.push(None);
                Plays::PlayRecords(v)
            },
        };
        let board = match game.board_size {
            BoardSize::_11 => board_11x11(),
            BoardSize::_13 => board_13x13(),
        };
        proof {
            crate::board_play::lemma_start_corners_empty(board);
        }
        ServerGame {
            id: game.id,
            attacker,
            attacker_tx: Messenger::new(attacker_tx),
            defender,
            defender_tx: Messenger::new(defender_tx),
            rated: game.rated,
            game: Game {
                board,
                plays,
                previous_boards: PreviousBoards::new(BoardSize::_11),
                status: Status::default(),
                time: TimeUnix::default(),
                attacker_time: game.timed,
                defender_time: game.timed,
                turn: Role::Attacker,
            },
            texts: VecDeque::new(),
        }
    }
}

impl ServerGameLight {
    /// The list entry of a game under way: both players, nobody asking to join, untimed as
    /// listed, the game's board size, no channels, nobody watching, the challenge accepted,
    /// not over.
    pub fn from_server_game(game: &ServerGame) -> (g: ServerGameLight)
        requires
            game.game.board.wf(),
        ensures
            g.id == game.id,
            g.attacker == Some(game.attacker),
            g.defender == Some(game.defender),
            g.challenger.0 is None,
            g.rated == game.rated,
            g.timed == TimeSettings::UnTimed,
            g.board_size == game.game.board.spec_size(),
            g.attacker_channel is None,
            g.defender_channel is None,
            g.spectators@ == Map::<String, usize>::empty(),
            g.challenge_accepted,
            !g.game_over,
    {
        ServerGameLight {
            id: game.id,
            attacker: Some(game.attacker.clone()),
            defender: Some(game.defender.clone()),
            challenger: Challenger::default(),
            rated: game.rated,
            timed: TimeSettings::UnTimed,
            board_size: game.game.board.size(),
            attacker_channel: None,
            defender_channel: None,
            spectators: HashMap::new(),
            challenge_accepted: true,
            game_over: false,
        }
    }
}

} // verus!
