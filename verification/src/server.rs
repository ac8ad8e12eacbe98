use vstd::prelude::*;

use crate::accounts::{argon2_hashed, argon2_verdict, censor, hash_password, spec_censor, verify_password};
use crate::client::join_tokens;
use crate::email::Email;
use crate::server_game::ServerGame;
use crate::game::{captures_view, Game, GameError};
use crate::play::{spec_play_command, arg_texts, Plae, PlayCommand};
use crate::rating::Rated;
use crate::role::{lowercase, spec_role_from_lowercase, Role};
use crate::status::Status;
use crate::text::{decimal, push_decimal};
use crate::time::TimeSettings;
use crate::login::{parse_u128, spec_parse_u128, utf8_len, utf8_longer_than};
use crate::opentafl::{ascii_tokens, ascii_tokens_exec, views};
use crate::text::{join_words, push_char, push_str, str_chars, str_eq, string_from_chars};
use crate::zobrist::os_random_u64;

verus! {

/// A player's account on the server.
#[derive(Clone, Debug)]
pub struct Account {
    pub name: String,
    /// The password hash, as a PHC string.
    pub password: String,
    pub email: Option<Email>,
    /// The connection the player is logged in on, if any.
    pub logged_in: Option<usize>,
    /// When the player last logged in or out, in milliseconds since the Unix epoch.
    pub last_logged_in: i64,
    pub software_id: String,
    pub wins: u64,
    pub losses: u64,
    pub draws: u64,
}

/// What the server keeps of its players: the accounts, the administrators, the
/// administrators of tournaments, the connections that can be written to, and the players
/// who joined the coming tournament.
#[derive(Clone, Debug)]
pub struct ServerState {
    pub accounts: Vec<Account>,
    pub admins: Vec<String>,
    pub admins_tournament: Vec<String>,
    pub clients: Vec<usize>,
    pub tournament_players: Vec<String>,
    pub games: Vec<ServerGame>,
}

/// What the server does after a command, as plain values.
#[derive(Clone, Debug, PartialEq, Eq)]
pub enum ServerAction {
    /// Keep the channel the command came with, as the connection `index`.
    Register { index: usize },
    /// Forget the channel of the connection `index`.
    Unregister { index: usize },
    /// Write the line to the connection `to`.
    Send { to: usize, text: String },
    /// Answer the command: `= TEXT` when `ok`, else `? TEXT`; to the connection `to`, or,
    /// when none, to the channel the command came with.
    Reply { to: Option<usize>, ok: bool, text: String },
    /// Tell every connection how the coming tournament stands.
    TournamentStatus,
    /// Write the line to the player of the side `role` in the game `game`.
    ToPlayer { game: usize, role: Role, text: String },
    /// Write the line to everyone watching the game `game`.
    ToSpectators { game: usize, text: String },
    /// Tell the players and the watchers of the game `game` how much time each side has.
    GameTime { game: usize, attacker_ms: i64, defender_ms: i64 },
    /// Rate the rated game that `winner` won against `loser`.
    Rate { winner: String, loser: String },
    /// The game `game` is over: finish it (see `ServerState::finish_game`).
    GameOver { game: usize },
    /// Write the server's data to disk.
    Save,
    /// The command is one of the server's game, message or tournament commands, answered
    /// elsewhere.
    NotHandled,
}

/// An action with its texts as sequences of characters.
pub enum ActionView {
    Register(usize),
    Unregister(usize),
    Send(usize, Seq<char>),
    Reply(Option<usize>, bool, Seq<char>),
    TournamentStatus,
    ToPlayer(usize, Role, Seq<char>),
    ToSpectators(usize, Seq<char>),
    GameTime(usize, i64, i64),
    Rate(Seq<char>, Seq<char>),
    GameOver(usize),
    Save,
    NotHandled,
}

impl ServerAction {
    pub open spec fn view(self) -> ActionView {
        match self {
            ServerAction::Register { index } => ActionView::Register(index),
            ServerAction::Unregister { index } => ActionView::Unregister(index),
            ServerAction::Send { to, text } => ActionView::Send(to, text@),
            ServerAction::Reply { to, ok, text } => ActionView::Reply(to, ok, text@),
            ServerAction::TournamentStatus => ActionView::TournamentStatus,
            ServerAction::ToPlayer { game, role, text } => ActionView::ToPlayer(game, role, text@),
            ServerAction::ToSpectators { game, text } => ActionView::ToSpectators(game, text@),
            ServerAction::GameTime { game, attacker_ms, defender_ms } => ActionView::GameTime(
                game,
                attacker_ms,
                defender_ms,
            ),
            ServerAction::Rate { winner, loser } => ActionView::Rate(winner@, loser@),
            ServerAction::GameOver { game } => ActionView::GameOver(game),
            ServerAction::Save => ActionView::Save,
            ServerAction::NotHandled => ActionView::NotHandled,
        }
    }
}

/// The actions as views.
pub open spec fn actions_view(v: Seq<ServerAction>) -> Seq<ActionView> {
    v.map_values(|a: ServerAction| a.view())
}

/// The texts are distinct.
pub open spec fn distinct_names(v: Seq<String>) -> bool {
    forall|i: int, j: int| 0 <= i < j < v.len() ==> (#[trigger] v[i])@ != (#[trigger] v[j])@
}

/// The text is one of the list.
pub open spec fn listed(v: Seq<String>, s: Seq<char>) -> bool {
    exists|j: int| 0 <= j < v.len() && (#[trigger] v[j])@ == s
}

/// The position of the text `name` in the list, if any.
pub open spec fn name_at(v: Seq<String>, name: Seq<char>) -> Option<int> {
    if exists|j: int| 0 <= j < v.len() && (#[trigger] v[j])@ == name {
        Some(choose|j: int| 0 <= j < v.len() && (#[trigger] v[j])@ == name)
    } else {
        None
    }
}

/// The position of the account named `name`, if any.
pub open spec fn account_at(accounts: Seq<Account>, name: Seq<char>) -> Option<int> {
    if exists|j: int| 0 <= j < accounts.len() && (#[trigger] accounts[j]).name@ == name {
        Some(choose|j: int| 0 <= j < accounts.len() && (#[trigger] accounts[j]).name@ == name)
    } else {
        None
    }
}

/// The hexadecimal digit of a number below 16.
pub open spec fn hex_digit(d: nat) -> char {
    if d < 10 {
        ((d + 48) as u32) as char
    } else {
        ((d + 87) as u32) as char
    }
}

/// The lowercase hexadecimal numeral of a number, as `format!("{:x}")` writes it.
pub open spec fn hex(v: nat) -> Seq<char>
    decreases v,
{
    if v < 16 {
        seq![hex_digit(v)]
    } else {
        hex(v / 16).push(hex_digit(v % 16))
    }
}

/// Appends the lowercase hexadecimal numeral of `v`.
fn push_hex(s: &mut String, v: u32)
    ensures
        final(s)@ == old(s)@ + hex(v as nat),
    decreases v,
{
    let d = v % 16;
    let c: char = if d < 10 {
        ((d + 48) as u8) as char
    } else {
        ((d + 87) as u8) as char
    };
    assert(c == hex_digit(d as nat));
    if v < 16 {
        push_char(s, c);
        assert(hex(v as nat) =~= seq![c]);
        assert(final(s)@ =~= old(s)@ + hex(v as nat));
    } else {
        push_hex(s, v / 16);
        push_char(s, c);
        assert(final(s)@ =~= old(s)@ + hex(v as nat));
    }
}

/// The commands the server answers in its game, message and tournament handling.
pub open spec fn handled_elsewhere(c: Seq<char>) -> bool {
    ||| c == "archived_games"@ || c == "check_update_rd"@ || c == "decline_game"@
    ||| c == "display_games"@ || c == "display_server"@ || c == "display_users"@
    ||| c == "draw"@ || c == "email"@ || c == "email_everyone"@
    ||| c == "emails_bcc"@ || c == "exit"@ || c == "join_game"@ || c == "join_game_pending"@
    ||| c == "leave_game"@ || c == "new_game"@ || c == "reset_password"@ || c == "resume_game"@
    ||| c == "resume_game_json"@ || c == "resume_game_ron"@ || c == "resume_games"@
    ||| c == "request_draw"@ || c == "text"@ || c == "texts"@ || c == "text_game"@
    ||| c == "tournament_board_size"@ || c == "tournament_group_size"@
    ||| c == "tournament_number_of_games"@ || c == "tournament_time"@
    ||| c == "tournament_delete"@ || c == "tournament_groups_delete"@ || c == "tournament_date"@
    ||| c == "tournament_status"@ || c == "tournament_start"@ || c == "version"@
    ||| c == "watch_game"@ || c == "watch_game_json"@ || c == "watch_game_ron"@
}

/// Whether the command is answered in the server's game, message and tournament handling.
fn is_handled_elsewhere(c: &str) -> (r: bool)
    ensures
        r == handled_elsewhere(c@),
{
    str_eq(c, "archived_games") || str_eq(c, "check_update_rd") || str_eq(c, "decline_game")
        || str_eq(c, "display_games") || str_eq(c, "display_server") || str_eq(
        c,
        "display_users",
    ) || str_eq(c, "draw") || str_eq(c, "email") || str_eq(
        c,
        "email_everyone",
    ) || str_eq(c, "emails_bcc") || str_eq(c, "exit") || str_eq(c, "join_game") || str_eq(
        c,
        "join_game_pending",
    ) || str_eq(c, "leave_game") || str_eq(c, "new_game") || str_eq(c, "reset_password")
        || str_eq(c, "resume_game") || str_eq(c, "resume_game_json") || str_eq(
        c,
        "resume_game_ron",
    ) || str_eq(c, "resume_games") || str_eq(c, "request_draw") || str_eq(c, "text") || str_eq(
        c,
        "texts",
    ) || str_eq(c, "text_game") || str_eq(c, "tournament_board_size") || str_eq(
        c,
        "tournament_group_size",
    ) || str_eq(c, "tournament_number_of_games") || str_eq(c, "tournament_time") || str_eq(
        c,
        "tournament_delete",
    ) || str_eq(c, "tournament_groups_delete") || str_eq(c, "tournament_date") || str_eq(
        c,
        "tournament_status",
    ) || str_eq(c, "tournament_start") || str_eq(c, "version") || str_eq(c, "watch_game")
        || str_eq(c, "watch_game_json") || str_eq(c, "watch_game_ron")
}

/// An answer to the connection `index` when it can be written to, else nothing.
pub open spec fn answer(s: ServerState, index: usize, ok: bool, text: Seq<char>) -> Seq<ActionView> {
    if s.clients@.contains(index) {
        seq![ActionView::Reply(Some(index), ok, text)]
    } else {
        seq![]
    }
}

/// A line to the connection `index` when it can be written to, else nothing.
pub open spec fn send(s: ServerState, index: usize, text: Seq<char>) -> Seq<ActionView> {
    if s.clients@.contains(index) {
        seq![ActionView::Send(index, text)]
    } else {
        seq![]
    }
}

impl ServerState {
    /// The state is sound: no two accounts share a name, no connection is listed twice, no
    /// player joined the tournament twice.
    pub open spec fn wf(self) -> bool {
        &&& forall|i: int, j: int|
            0 <= i < j < self.accounts@.len() ==> (#[trigger] self.accounts@[i]).name@ != (
            #[trigger] self.accounts@[j]).name@
        &&& self.clients@.no_duplicates()
        &&& distinct_names(self.tournament_players@)
        &&& forall|i: int| 0 <= i < self.games@.len() ==> (#[trigger] self.games@[i]).game.wf()
        &&& forall|i: int, j: int|
            0 <= i < j < self.games@.len() ==> (#[trigger] self.games@[i]).id != (
            #[trigger] self.games@[j]).id
    }

    /// The account of `name` with another login, and the time it changed.
    pub open spec fn relogged(self, i: int, logged_in: Option<usize>, now: i64) -> Seq<Account> {
        self.accounts@.update(
            i,
            Account { logged_in, last_logged_in: now, ..self.accounts@[i] },
        )
    }

    /// What the command `command` with the words `rest`, sent by `username` over the
    /// connection `index` at `now`, gives: the state `s2` and the actions `acts`. `channel`
    /// says whether the command came with a channel to answer on, and `hashed` is the hash
    /// of the password the words make, when the command needs one.
    pub open spec fn stepped(
        self,
        index: usize,
        username: Seq<char>,
        command: Seq<char>,
        rest: Seq<Seq<char>>,
        now: i64,
        channel: bool,
        hashed: Option<Seq<char>>,
        s2: ServerState,
        acts: Seq<ActionView>,
    ) -> bool {
        let acc = account_at(self.accounts@, username);
        let password = join_words(rest);
        if command == "admin"@ {
            s2 == self && acts == if listed(self.admins@, username) {
                send(self, index, "= admin"@)
            } else {
                seq![]
            }
        } else if command == "admin_tournament"@ {
            s2 == self && acts == if listed(self.admins_tournament@, username) {
                send(self, index, "= admin_tournament"@)
            } else {
                seq![]
            }
        } else if command == "change_password"@ {
            match acc {
                None => s2 == self && acts == Seq::<ActionView>::empty(),
                Some(i) => if utf8_len(password) > 32 {
                    s2 == self && acts == answer(
                        self,
                        index,
                        false,
                        "change_password password is greater than 32 characters"@,
                    )
                } else {
                    match hashed {
                        None => s2 == self && acts == Seq::<ActionView>::empty(),
                        Some(h) => {
                            &&& s2.accounts@.len() == self.accounts@.len()
                            &&& forall|j: int|
                                0 <= j < self.accounts@.len() && j != i ==> s2.accounts@[j]
                                    == self.accounts@[j]
                            &&& s2.accounts@[i].password@ == h
                            &&& s2.accounts@[i] == Account {
                                password: s2.accounts@[i].password,
                                ..self.accounts@[i]
                            }
                            &&& s2.games == self.games
            &&& s2.admins == self.admins && s2.admins_tournament
                                == self.admins_tournament && s2.clients == self.clients
                                && s2.tournament_players == self.tournament_players
                            &&& acts == answer(self, index, true, "change_password"@)
                        },
                    }
                },
            }
        } else if command == "create_account"@ {
            if !channel {
                s2 == self && acts == Seq::<ActionView>::empty()
            } else if acc is Some || username == "server"@ {
                s2 == self && acts == seq![
                    ActionView::Reply(None, false, "create_account already_exists"@),
                ]
            } else if spec_censor(username) != username {
                s2 == self && acts == seq![
                    ActionView::Reply(None, false, "create_account profane_or_sexual"@),
                ]
            } else {
                match hashed {
                    None => s2 == self && acts == Seq::<ActionView>::empty(),
                    Some(h) => {
                        let a = s2.accounts@.last();
                        &&& s2.accounts@.len() == self.accounts@.len() + 1
                        &&& s2.accounts@.drop_last() == self.accounts@
                        &&& a.name@ == username && a.password@ == h && a.email is None
                        &&& a.logged_in == Some(index) && a.last_logged_in == now
                        &&& a.software_id@.len() == 0 && a.wins == 0 && a.losses == 0 && a.draws == 0
                        &&& s2.clients@ == if self.clients@.contains(index) {
                            self.clients@
                        } else {
                            self.clients@.push(index)
                        }
                        &&& s2.games == self.games
            &&& s2.admins == self.admins && s2.admins_tournament
                            == self.admins_tournament && s2.tournament_players
                            == self.tournament_players
                        &&& acts == seq![
                            ActionView::Register(index),
                            ActionView::Reply(Some(index), true, "create_account"@),
                        ]
                    },
                }
            }
        } else if command == "delete_account"@ {
            &&& s2.games == self.games
            &&& s2.admins == self.admins && s2.admins_tournament == self.admins_tournament
                && s2.clients == self.clients && s2.tournament_players == self.tournament_players
            &&& s2.accounts@ == match acc {
                Some(i) => self.accounts@.remove(i),
                None => self.accounts@,
            }
            &&& acts == Seq::<ActionView>::empty()
        } else if command == "email_code"@ {
            match acc {
                Some(i) => match self.accounts@[i].email {
                    Some(e) => if e.code is Some && rest.len() > 0 {
                        let right = hex(e.code->Some_0 as nat) == rest[0];
                        &&& s2.accounts@.len() == self.accounts@.len()
                        &&& forall|j: int|
                            0 <= j < self.accounts@.len() && j != i ==> s2.accounts@[j]
                                == self.accounts@[j]
                        &&& s2.accounts@[i] == Account {
                            email: Some(Email { verified: right, ..e }),
                            ..self.accounts@[i]
                        }
                        &&& s2.games == self.games
            &&& s2.admins == self.admins && s2.admins_tournament
                            == self.admins_tournament && s2.clients == self.clients
                            && s2.tournament_players == self.tournament_players
                        &&& acts == send(
                            self,
                            index,
                            if right {
                                "= email_code"@
                            } else {
                                "? email_code"@
                            },
                        )
                    } else {
                        s2 == self && acts == Seq::<ActionView>::empty()
                    },
                    None => s2 == self && acts == Seq::<ActionView>::empty(),
                },
                None => s2 == self && acts == Seq::<ActionView>::empty(),
            }
        } else if command == "email_get"@ {
            s2 == self && acts == match acc {
                Some(i) => match self.accounts@[i].email {
                    Some(e) => send(
                        self,
                        index,
                        "= email "@ + e.address@ + " "@ + if e.verified {
                            "true"@
                        } else {
                            "false"@
                        },
                    ),
                    None => Seq::<ActionView>::empty(),
                },
                None => Seq::<ActionView>::empty(),
            }
        } else if command == "email_reset"@ {
            match acc {
                Some(i) => {
                    &&& s2.accounts@ == self.accounts@.update(
                        i,
                        Account { email: None, ..self.accounts@[i] },
                    )
                    &&& s2.games == self.games
            &&& s2.admins == self.admins && s2.admins_tournament == self.admins_tournament
                        && s2.clients == self.clients && s2.tournament_players
                        == self.tournament_players
                    &&& acts == answer(self, index, true, "email_reset"@)
                },
                None => s2 == self && acts == Seq::<ActionView>::empty(),
            }
        } else if command == "join_tournament"@ {
            &&& s2.games == self.games
            &&& s2.accounts == self.accounts && s2.admins == self.admins && s2.admins_tournament
                == self.admins_tournament && s2.clients == self.clients
            &&& if listed(self.tournament_players@, username) {
                s2.tournament_players == self.tournament_players
            } else {
                &&& s2.tournament_players@.len() == self.tournament_players@.len() + 1
                &&& s2.tournament_players@.drop_last() == self.tournament_players@
                &&& s2.tournament_players@.last()@ == username
            }
            &&& acts == seq![ActionView::TournamentStatus]
        } else if command == "leave_tournament"@ {
            &&& s2.games == self.games
            &&& s2.accounts == self.accounts && s2.admins == self.admins && s2.admins_tournament
                == self.admins_tournament && s2.clients == self.clients
            &&& s2.tournament_players@ == match name_at(self.tournament_players@, username) {
                Some(j) => self.tournament_players@.remove(j),
                None => self.tournament_players@,
            }
            &&& acts == seq![ActionView::TournamentStatus]
        } else if command == "login"@ {
            if !channel {
                s2 == self && acts == Seq::<ActionView>::empty()
            } else {
                match acc {
                    None => s2 == self && acts == seq![ActionView::Reply(None, false, "login"@)],
                    Some(i) => if self.accounts@[i].logged_in is Some {
                        s2 == self && acts == seq![ActionView::Reply(None, false, "login"@)]
                    } else {
                        match argon2_verdict(password, self.accounts@[i].password@) {
                            None => s2 == self && acts == Seq::<ActionView>::empty(),
                            Some(false) => s2 == self && acts == seq![
                                ActionView::Reply(None, false, "login"@),
                            ],
                            Some(true) => {
                                &&& s2.accounts@ == self.relogged(i, Some(index), now)
                                &&& s2.clients@ == if self.clients@.contains(index) {
                                    self.clients@
                                } else {
                                    self.clients@.push(index)
                                }
                                &&& s2.games == self.games
            &&& s2.admins == self.admins && s2.admins_tournament
                                    == self.admins_tournament && s2.tournament_players
                                    == self.tournament_players
                                &&& acts == seq![
                                    ActionView::Register(index),
                                    ActionView::Reply(Some(index), true, "login"@),
                                ]
                            },
                        }
                    },
                }
            }
        } else if command == "logout"@ {
            if acc is Some && self.accounts@[acc->Some_0].logged_in == Some(index) {
                let i = acc->Some_0;
                &&& s2.accounts@ == self.relogged(i, None, now)
                &&& s2.games == self.games
            &&& s2.admins == self.admins && s2.admins_tournament == self.admins_tournament
                    && s2.tournament_players == self.tournament_players
                &&& if self.clients@.contains(index) {
                    &&& exists|p: int|
                        0 <= p < self.clients@.len() && self.clients@[p] == index && s2.clients@
                            == #[trigger] self.clients@.remove(p)
                    &&& acts == seq![
                        ActionView::Send(index, "= logout"@),
                        ActionView::Unregister(index),
                    ]
                } else {
                    s2.clients == self.clients && acts == Seq::<ActionView>::empty()
                }
            } else {
                s2 == self && acts == answer(self, index, false, "logout"@)
            }
        } else if command == "ping"@ {
            s2 == self && acts == answer(self, index, true, "ping"@)
        } else if command == "save"@ {
            s2 == self && acts == seq![ActionView::Save]
        } else if command == "software_id"@ {
            if rest.len() > 0 && acc is Some {
                let i = acc->Some_0;
                &&& s2.accounts@.len() == self.accounts@.len()
                &&& forall|j: int|
                    0 <= j < self.accounts@.len() && j != i ==> s2.accounts@[j] == self.accounts@[j]
                &&& s2.accounts@[i].software_id@ == rest[0]
                &&& s2.accounts@[i] == Account {
                    software_id: s2.accounts@[i].software_id,
                    ..self.accounts@[i]
                }
                &&& s2.games == self.games
            &&& s2.admins == self.admins && s2.admins_tournament == self.admins_tournament
                    && s2.clients == self.clients && s2.tournament_players
                    == self.tournament_players
                &&& acts == seq![ActionView::Save]
            } else {
                s2 == self && acts == Seq::<ActionView>::empty()
            }
        } else if command == "game"@ {
            self.gamed(index, username, rest, now, s2, acts)
        } else if command == "="@ {
            s2 == self && acts == Seq::<ActionView>::empty()
        } else if handled_elsewhere(command) {
            s2 == self && acts == seq![ActionView::NotHandled]
        } else {
            s2 == self && acts == answer(self, index, false, command)
        }
    }
}


impl ServerState {
    /// A server with no accounts, administrators, connections or tournament players.
    pub fn new() -> (s: ServerState)
        ensures
            s.wf(),
            s.accounts@.len() == 0 && s.admins@.len() == 0 && s.admins_tournament@.len() == 0,
            s.clients@.len() == 0 && s.tournament_players@.len() == 0 && s.games@.len() == 0,
    {
        ServerState {
            accounts: Vec::new(),
            admins: Vec::new(),
            admins_tournament: Vec::new(),
            clients: Vec::new(),
            tournament_players: Vec::new(),
            games: Vec::new(),
        }
    }

    /// The position of the account named `name`, if any.
    fn find_account(&self, name: &str) -> (r: Option<usize>)
        requires
            self.wf(),
        ensures
            match r {
                Some(i) => i < self.accounts@.len() && account_at(self.accounts@, name@) == Some(
                    i as int,
                ),
                None => account_at(self.accounts@, name@) is None,
            },
    {
        let mut i: usize = 0;
        while i < self.accounts.len()
            invariant
                self.wf(),
                i <= self.accounts@.len(),
                forall|j: int| 0 <= j < i ==> (#[trigger] self.accounts@[j]).name@ != name@,
            decreases self.accounts@.len() - i,
        {
            if str_eq(self.accounts[i].name.as_str(), name) {
                proof {
                    let k = choose|j: int|
                        0 <= j < self.accounts@.len() && (#[trigger] self.accounts@[j]).name@
                            == name@;
                    if k != i as int {
                        if k < i {
                        } else {
                            assert(self.accounts@[i as int].name@ != self.accounts@[k].name@);
                        }
                    }
                }
                return Some(i);
            }
            i = i + 1;
        }
        None
    }

    /// Whether the connection `index` can be written to.
    fn has_client(&self, index: usize) -> (r: bool)
        ensures
            r == self.clients@.contains(index),
    {
        let mut i: usize = 0;
        while i < self.clients.len()
            invariant
                i <= self.clients@.len(),
                forall|j: int| 0 <= j < i ==> self.clients@[j] != index,
            decreases self.clients@.len() - i,
        {
            if self.clients[i] == index {
                assert(self.clients@[i as int] == index);
                return true;
            }
            i = i + 1;
        }
        false
    }

    /// Adds the connection `index` to those that can be written to.
    fn add_client(&mut self, index: usize)
        requires
            old(self).wf(),
        ensures
            final(self).wf(),
            final(self).clients@ == if old(self).clients@.contains(index) {
                old(self).clients@
            } else {
                old(self).clients@.push(index)
            },
            final(self).accounts == old(self).accounts,
            final(self).admins == old(self).admins,
            final(self).admins_tournament == old(self).admins_tournament,
            final(self).tournament_players == old(self).tournament_players,
            final(self).games == old(self).games,
    {
        if !self.has_client(index) {
            self.clients.push(index);
            proof {
                assert forall|a: int, b: int|
                    0 <= a < self.clients@.len() && 0 <= b < self.clients@.len() && a != b
                        implies self.clients@[a] != self.clients@[b] by {
                    if a < old(self).clients@.len() && b < old(self).clients@.len() {
                    } else if a == old(self).clients@.len() as int {
                        assert(old(self).clients@[b] == self.clients@[b]);
                    } else {
                        assert(old(self).clients@[a] == self.clients@[a]);
                    }
                }
            }
        }
    }
}

/// Whether the text is one of the list, and where.
fn find_name(v: &Vec<String>, name: &str) -> (r: Option<usize>)
    requires
        distinct_names(v@),
    ensures
        match r {
            Some(i) => i < v@.len() && name_at(v@, name@) == Some(i as int),
            None => name_at(v@, name@) is None && !listed(v@, name@),
        },
{
    let mut i: usize = 0;
    while i < v.len()
        invariant
            distinct_names(v@),
            i <= v@.len(),
            forall|j: int| 0 <= j < i ==> (#[trigger] v@[j])@ != name@,
        decreases v@.len() - i,
    {
        if str_eq(v[i].as_str(), name) {
            proof {
                let k = choose|j: int| 0 <= j < v@.len() && (#[trigger] v@[j])@ == name@;
                if k != i as int && k > i {
                    assert(v@[i as int]@ != v@[k]@);
                }
            }
            return Some(i);
        }
        i = i + 1;
    }
    None
}

impl ServerState {
    /// Carries out the command `command` with the words `rest`, sent by `username` over the
    /// connection `index` at `now`: `channel` says whether it came with a channel to answer
    /// on, and `hashed` is the hash of the password the words make, for the commands that set
    /// one. Returns what to do (see `stepped`).
    #[verifier::rlimit(50)]
    pub fn step(
        &mut self,
        index: usize,
        username: &str,
        command: &str,
        rest: &Vec<String>,
        now: i64,
        channel: bool,
        hashed: Option<String>,
    ) -> (r: Vec<ServerAction>)
        requires
            old(self).wf(),
        ensures
            final(self).wf(),
            old(self).stepped(
                index,
                username@,
                command@,
                rest@.map_values(|w: String| w@),
                now,
                channel,
                match hashed {
                    Some(h) => Some(h@),
                    None => None,
                },
                *final(self),
                actions_view(r@),
            ),
    {
        let ghost words = rest@.map_values(|w: String| w@);
        let mut acts: Vec<ServerAction> = Vec::new();
        proof {
            assert(actions_view(acts@) == Seq::<ActionView>::empty());
        }
        if str_eq(command, "admin") {
            if is_listed(&self.admins, username) && self.has_client(index) {
                acts.push(ServerAction::Send { to: index, text: "= admin".to_string() });
            }
            assert(actions_view(acts@) =~= (if listed(self.admins@, username@) {
                send(*self, index, "= admin"@)
            } else {
                seq![]
            }));
            return acts;
        } else if str_eq(command, "admin_tournament") {
            if is_listed(&self.admins_tournament, username) && self.has_client(index) {
                acts.push(ServerAction::Send { to: index, text: "= admin_tournament".to_string() });
            }
            assert(actions_view(acts@) =~= (if listed(self.admins_tournament@, username@) {
                send(*self, index, "= admin_tournament"@)
            } else {
                seq![]
            }));
            return acts;
        } else if str_eq(command, "change_password") {
            let found = self.find_account(username);
            let i = match found {
                None => return acts,
                Some(i) => i,
            };
            let password = join_strings(rest);
            let pchars = str_chars(password.as_str());
            if utf8_longer_than(pchars.as_slice(), 32) {
                if self.has_client(index) {
                    acts.push(
                        ServerAction::Reply {
                            to: Some(index),
                            ok: false,
                            text: "change_password password is greater than 32 characters".to_string(),
                        },
                    );
                }
                assert(actions_view(acts@) =~= answer(
                    *self,
                    index,
                    false,
                    "change_password password is greater than 32 characters"@,
                ));
                return acts;
            }
            let h = match hashed {
                None => return acts,
                Some(h) => h,
            };
            let a = self.accounts.remove(i);
            let Account { name, password: _, email, logged_in, last_logged_in, software_id, wins, losses, draws } = a;
            self.accounts.insert(
                i,
                Account { name, password: h, email, logged_in, last_logged_in, software_id, wins, losses, draws },
            );
            proof {
                assert(self.accounts@ =~= old(self).accounts@.update(i as int, self.accounts@[i as int]));
            }
            if self.has_client(index) {
                acts.push(ServerAction::Reply { to: Some(index), ok: true, text: "change_password".to_string() });
            }
            assert(actions_view(acts@) =~= answer(*old(self), index, true, "change_password"@));
            return acts;
        } else if str_eq(command, "create_account") {
            if !channel {
                return acts;
            }
            let found = self.find_account(username);
            if found.is_some() || str_eq(username, "server") {
                acts.push(
                    ServerAction::Reply { to: None, ok: false, text: "create_account already_exists".to_string() },
                );
                assert(actions_view(acts@) =~= seq![
                    ActionView::Reply(None, false, "create_account already_exists"@),
                ]);
                return acts;
            }
            let censored = censor(username);
            if !str_eq(censored.as_str(), username) {
                acts.push(
                    ServerAction::Reply {
                        to: None,
                        ok: false,
                        text: "create_account profane_or_sexual".to_string(),
                    },
                );
                assert(actions_view(acts@) =~= seq![
                    ActionView::Reply(None, false, "create_account profane_or_sexual"@),
                ]);
                return acts;
            }
            let h = match hashed {
                None => return acts,
                Some(h) => h,
            };
            self.add_client(index);
            let ghost before = self.accounts@;
            self.accounts.push(
                Account {
                    name: username.to_string(),
                    password: h,
                    email: None,
                    logged_in: Some(index),
                    last_logged_in: now,
                    software_id: String::new(),
                    wins: 0,
                    losses: 0,
                    draws: 0,
                },
            );
            proof {
                assert(self.accounts@.drop_last() =~= before);
                assert forall|a: int, b: int|
                    0 <= a < b < self.accounts@.len() implies (#[trigger] self.accounts@[a]).name@
                        != (#[trigger] self.accounts@[b]).name@ by {
                    if b == before.len() {
                        assert(self.accounts@[a] == before[a]);
                    } else {
                        assert(self.accounts@[a] == before[a] && self.accounts@[b] == before[b]);
                    }
                }
            }
            acts.push(ServerAction::Register { index });
            acts.push(ServerAction::Reply { to: Some(index), ok: true, text: "create_account".to_string() });
            assert(actions_view(acts@) =~= seq![
                ActionView::Register(index),
                ActionView::Reply(Some(index), true, "create_account"@),
            ]);
            return acts;
        } else if str_eq(command, "delete_account") {
            let found = self.find_account(username);
            if let Some(i) = found {
                let ghost before = self.accounts@;
                let _gone = self.accounts.remove(i);
                proof {
                    assert forall|a: int, b: int|
                        0 <= a < b < self.accounts@.len() implies (#[trigger] self.accounts@[a]).name@
                            != (#[trigger] self.accounts@[b]).name@ by {
                        let a0 = if a < i { a } else { a + 1 };
                        let b0 = if b < i { b } else { b + 1 };
                        assert(self.accounts@[a] == before[a0] && self.accounts@[b] == before[b0]);
                    }
                }
            }
            return acts;
        } else if str_eq(command, "email_code") {
            let found = self.find_account(username);
            let i = match found {
                None => return acts,
                Some(i) => i,
            };
            let code = match &self.accounts[i].email {
                Some(e) => e.code,
                None => None,
            };
            let code = match code {
                Some(c) => c,
                None => return acts,
            };
            if rest.len() == 0 {
                return acts;
            }
            let mut hx = String::new();
            push_hex(&mut hx, code);
            let right = str_eq(hx.as_str(), rest[0].as_str());
            assert(words[0] == rest@[0]@);
            let a = self.accounts.remove(i);
            let Account { name, password, email, logged_in, last_logged_in, software_id, wins, losses, draws } = a;
            let email = match email {
                Some(e) => {
                    let Email { address, code, username: user, verified: _ } = e;
                    Some(Email { address, code, username: user, verified: right })
                },
                None => None,
            };
            self.accounts.insert(
                i,
                Account { name, password, email, logged_in, last_logged_in, software_id, wins, losses, draws },
            );
            if self.has_client(index) {
                if right {
                    acts.push(ServerAction::Send { to: index, text: "= email_code".to_string() });
                } else {
                    acts.push(ServerAction::Send { to: index, text: "? email_code".to_string() });
                }
            }
            assert(actions_view(acts@) =~= send(
                *old(self),
                index,
                if right {
                    "= email_code"@
                } else {
                    "? email_code"@
                },
            ));
            return acts;
        } else if str_eq(command, "email_get") {
            let found = self.find_account(username);
            let i = match found {
                None => return acts,
                Some(i) => i,
            };
            match &self.accounts[i].email {
                Some(e) => {
                    if self.has_client(index) {
                        let mut t = String::new();
                        push_str(&mut t, "= email ");
                        push_str(&mut t, e.address.as_str());
                        push_str(&mut t, " ");
                        push_str(&mut t, if e.verified {
                            "true"
                        } else {
                            "false"
                        });
                        acts.push(ServerAction::Send { to: index, text: t });
                    }
                    assert(actions_view(acts@) =~= send(
                        *self,
                        index,
                        "= email "@ + e.address@ + " "@ + if e.verified {
                            "true"@
                        } else {
                            "false"@
                        },
                    ));
                },
                None => {},
            }
            return acts;
        } else if str_eq(command, "email_reset") {
            let found = self.find_account(username);
            let i = match found {
                None => return acts,
                Some(i) => i,
            };
            let a = self.accounts.remove(i);
            let Account { name, password, email: _, logged_in, last_logged_in, software_id, wins, losses, draws } = a;
            self.accounts.insert(
                i,
                Account { name, password, email: None, logged_in, last_logged_in, software_id, wins, losses, draws },
            );
            proof {
                assert(self.accounts@ =~= old(self).accounts@.update(
                    i as int,
                    Account { email: None, ..old(self).accounts@[i as int] },
                ));
            }
            if self.has_client(index) {
                acts.push(ServerAction::Reply { to: Some(index), ok: true, text: "email_reset".to_string() });
            }
            assert(actions_view(acts@) =~= answer(*old(self), index, true, "email_reset"@));
            return acts;
        } else if str_eq(command, "join_tournament") {
            if !is_listed(&self.tournament_players, username) {
                let ghost before = self.tournament_players@;
                self.tournament_players.push(username.to_string());
                proof {
                    assert(self.tournament_players@.drop_last() =~= before);
                    assert forall|a: int, b: int|
                        0 <= a < b < self.tournament_players@.len() implies (
                        #[trigger] self.tournament_players@[a])@ != (
                        #[trigger] self.tournament_players@[b])@ by {
                        assert(self.tournament_players@[a] == before[a]);
                        if b < before.len() {
                            assert(self.tournament_players@[b] == before[b]);
                        }
                    }
                }
            }
            acts.push(ServerAction::TournamentStatus);
            assert(actions_view(acts@) =~= seq![ActionView::TournamentStatus]);
            return acts;
        } else if str_eq(command, "leave_tournament") {
            let at = find_name(&self.tournament_players, username);
            if let Some(j) = at {
                let ghost before = self.tournament_players@;
                let _gone = self.tournament_players.remove(j);
                proof {
                    assert forall|a: int, b: int|
                        0 <= a < b < self.tournament_players@.len() implies (
                        #[trigger] self.tournament_players@[a])@ != (
                        #[trigger] self.tournament_players@[b])@ by {
                        let a0 = if a < j { a } else { a + 1 };
                        let b0 = if b < j { b } else { b + 1 };
                        assert(self.tournament_players@[a] == before[a0]);
                        assert(self.tournament_players@[b] == before[b0]);
                    }
                }
            }
            acts.push(ServerAction::TournamentStatus);
            assert(actions_view(acts@) =~= seq![ActionView::TournamentStatus]);
            return acts;
        } else if str_eq(command, "login") {
            if !channel {
                return acts;
            }
            let found = self.find_account(username);
            let i = match found {
                None => {
                    acts.push(ServerAction::Reply { to: None, ok: false, text: "login".to_string() });
                    assert(actions_view(acts@) =~= seq![ActionView::Reply(None, false, "login"@)]);
                    return acts;
                },
                Some(i) => i,
            };
            if self.accounts[i].logged_in.is_some() {
                acts.push(ServerAction::Reply { to: None, ok: false, text: "login".to_string() });
                assert(actions_view(acts@) =~= seq![ActionView::Reply(None, false, "login"@)]);
                return acts;
            }
            let password = join_strings(rest);
            let verdict = verify_password(password.as_str(), self.accounts[i].password.as_str());
            match verdict {
                None => return acts,
                Some(false) => {
                    acts.push(ServerAction::Reply { to: None, ok: false, text: "login".to_string() });
                    assert(actions_view(acts@) =~= seq![ActionView::Reply(None, false, "login"@)]);
                    return acts;
                },
                Some(true) => {},
            }
            self.add_client(index);
            let a = self.accounts.remove(i);
            let Account { name, password, email, logged_in: _, last_logged_in: _, software_id, wins, losses, draws } = a;
            self.accounts.insert(
                i,
                Account {
                    name,
                    password,
                    email,
                    logged_in: Some(index),
                    last_logged_in: now,
                    software_id,
                    wins,
                    losses,
                    draws,
                },
            );
            proof {
                assert(self.accounts@ =~= old(self).relogged(i as int, Some(index), now));
            }
            acts.push(ServerAction::Register { index });
            acts.push(ServerAction::Reply { to: Some(index), ok: true, text: "login".to_string() });
            assert(actions_view(acts@) =~= seq![
                ActionView::Register(index),
                ActionView::Reply(Some(index), true, "login"@),
            ]);
            return acts;
        } else if str_eq(command, "logout") {
            let found = self.find_account(username);
            let mine = match found {
                Some(i) => match self.accounts[i].logged_in {
                    Some(k) => k == index,
                    None => false,
                },
                None => false,
            };
            if !mine {
                if self.has_client(index) {
                    acts.push(ServerAction::Reply { to: Some(index), ok: false, text: "logout".to_string() });
                }
                assert(actions_view(acts@) =~= answer(*self, index, false, "logout"@));
                return acts;
            }
            let i = found.unwrap();
            let a = self.accounts.remove(i);
            let Account { name, password, email, logged_in: _, last_logged_in: _, software_id, wins, losses, draws } = a;
            self.accounts.insert(
                i,
                Account { name, password, email, logged_in: None, last_logged_in: now, software_id, wins, losses, draws },
            );
            proof {
                assert(self.accounts@ =~= old(self).relogged(i as int, None, now));
            }
            let pos = self.client_position(index);
            if let Some(p) = pos {
                let ghost before = self.clients@;
                let _gone = self.clients.remove(p);
                proof {
                    assert(self.clients@ == before.remove(p as int));
                    assert forall|a: int, b: int|
                        0 <= a < self.clients@.len() && 0 <= b < self.clients@.len() && a != b
                            implies self.clients@[a] != self.clients@[b] by {
                        let a0 = if a < p { a } else { a + 1 };
                        let b0 = if b < p { b } else { b + 1 };
                        assert(self.clients@[a] == before[a0] && self.clients@[b] == before[b0]);
                    }
                }
                acts.push(ServerAction::Send { to: index, text: "= logout".to_string() });
                acts.push(ServerAction::Unregister { index });
                assert(actions_view(acts@) =~= seq![
                    ActionView::Send(index, "= logout"@),
                    ActionView::Unregister(index),
                ]);
            }
            return acts;
        } else if str_eq(command, "ping") {
            if self.has_client(index) {
                acts.push(ServerAction::Reply { to: Some(index), ok: true, text: "ping".to_string() });
            }
            assert(actions_view(acts@) =~= answer(*self, index, true, "ping"@));
            return acts;
        } else if str_eq(command, "save") {
            acts.push(ServerAction::Save);
            assert(actions_view(acts@) =~= seq![ActionView::Save]);
            return acts;
        } else if str_eq(command, "software_id") {
            let found = self.find_account(username);
            if rest.len() == 0 {
                return acts;
            }
            let i = match found {
                None => return acts,
                Some(i) => i,
            };
            let id = string_from_chars(str_chars(rest[0].as_str()).as_slice());
            assert(words[0] == rest@[0]@);
            let a = self.accounts.remove(i);
            let Account { name, password, email, logged_in, last_logged_in, software_id: _, wins, losses, draws } = a;
            self.accounts.insert(
                i,
                Account { name, password, email, logged_in, last_logged_in, software_id: id, wins, losses, draws },
            );
            proof {
                assert(self.accounts@ =~= old(self).accounts@.update(i as int, self.accounts@[i as int]));
            }
            acts.push(ServerAction::Save);
            assert(actions_view(acts@) =~= seq![ActionView::Save]);
            return acts;
        } else if str_eq(command, "game") {
            return self.game_command(index, username, rest, now);
        } else if str_eq(command, "=") {
            return acts;
        } else if is_handled_elsewhere(command) {
            acts.push(ServerAction::NotHandled);
            assert(actions_view(acts@) =~= seq![ActionView::NotHandled]);
            return acts;
        }
        if self.has_client(index) {
            acts.push(ServerAction::Reply { to: Some(index), ok: false, text: command.to_string() });
        }
        assert(actions_view(acts@) =~= answer(*self, index, false, command@));
        acts
    }

    /// Where the connection `index` is listed, if it is.
    fn client_position(&self, index: usize) -> (r: Option<usize>)
        ensures
            match r {
                Some(p) => p < self.clients@.len() && self.clients@[p as int] == index,
                None => !self.clients@.contains(index),
            },
    {
        let mut i: usize = 0;
        while i < self.clients.len()
            invariant
                i <= self.clients@.len(),
                forall|j: int| 0 <= j < i ==> self.clients@[j] != index,
            decreases self.clients@.len() - i,
        {
            if self.clients[i] == index {
                return Some(i);
            }
            i = i + 1;
        }
        None
    }
}

/// The words joined by single spaces.
fn join_strings(words: &Vec<String>) -> (s: String)
    ensures
        s@ == join_words(words@.map_values(|w: String| w@)),
{
    let ghost ws = words@.map_values(|w: String| w@);
    let mut s = String::new();
    let mut k: usize = 0;
    while k < words.len()
        invariant
            k <= words@.len(),
            ws == words@.map_values(|w: String| w@),
            s@ == join_words(ws.take(k as int)),
        decreases words@.len() - k,
    {
        let ghost before = s@;
        if k > 0 {
            push_char(&mut s, ' ');
        }
        push_str(&mut s, words[k].as_str());
        proof {
            let t = ws.take(k + 1);
            assert(t.drop_last() =~= ws.take(k as int));
            assert(t.last() == words@[k as int]@);
            if k == 0 {
                assert(before == Seq::<char>::empty());
                assert(t.len() == 1);
                assert(s@ =~= t[0]);
            } else {
                assert(s@ =~= before + seq![' '] + t.last());
            }
        }
        k = k + 1;
    }
    assert(ws.take(words@.len() as int) =~= ws);
    s
}

/// Whether the text is one of the list.
fn is_listed(v: &Vec<String>, name: &str) -> (r: bool)
    ensures
        r == listed(v@, name@),
{
    let mut i: usize = 0;
    while i < v.len()
        invariant
            i <= v@.len(),
            forall|j: int| 0 <= j < i ==> (#[trigger] v@[j])@ != name@,
        decreases v@.len() - i,
    {
        if str_eq(v[i].as_str(), name) {
            assert(v@[i as int]@ == name@);
            return true;
        }
        i = i + 1;
    }
    false
}


/// A command line as the server reads it, split at ASCII whitespace: the connection index
/// (as `usize::from_str` reads it), the username, the command, and the words after it; none
/// when there are fewer than three words or the first is no index.
pub open spec fn spec_parse_message(line: Seq<char>) -> Option<(usize, Seq<char>, Seq<char>, Seq<Seq<char>>)> {
    let t = ascii_tokens(line);
    if t.len() < 3 {
        None
    } else {
        match spec_parse_u128(t[0]) {
            Some(v) => if v <= usize::MAX {
                Some((v as usize, t[1], t[2], t.skip(3)))
            } else {
                None
            },
            None => None,
        }
    }
}

/// The commands that set a password.
pub open spec fn sets_password(command: Seq<char>) -> bool {
    command == "create_account"@ || command == "change_password"@
}

impl ServerState {
    /// What handling the command line `line` at `now` gives: the state `s2` and the actions
    /// `acts`. A line that does not read changes nothing and does nothing; else the command
    /// is carried out with the hash, if any, that argon2 makes of the password with some salt.
    pub open spec fn handled(
        self,
        line: Seq<char>,
        now: i64,
        channel: bool,
        s2: ServerState,
        acts: Seq<ActionView>,
    ) -> bool {
        match spec_parse_message(line) {
            None => s2 == self && acts.len() == 0,
            Some(m) => exists|hashed: Option<Seq<char>>|
                #[trigger] self.stepped(m.0, m.1, m.2, m.3, now, channel, hashed, s2, acts) && (
                hashed is Some ==> sets_password(m.2) && exists|salt: (u64, u64)|
                    argon2_hashed(join_words(m.3), salt) == hashed),
        }
    }

    /// Handles a command line at time `now`, with or without a channel to answer on: reads
    /// it (see `spec_parse_message`), hashes the password the words make, with a fresh salt
    /// from the operating system, when the command sets one, and carries the command out
    /// (see `stepped`). A line that does not read leaves the state as it was, and nothing is
    /// done.
    pub fn handle_message_at(&mut self, message: &str, channel: bool, now: i64) -> (r: Vec<ServerAction>)
        requires
            old(self).wf(),
        ensures
            final(self).wf(),
            old(self).handled(message@, now, channel, *final(self), actions_view(r@)),
    {
        let chars = str_chars(message);
        let toks = ascii_tokens_exec(&chars);
        let ghost ts = views(toks@);
        if toks.len() < 3 {
            let r = Vec::new();
            assert(actions_view(r@).len() == 0);
            return r;
        }
        assert(ts[0] == toks@[0]@ && ts[1] == toks@[1]@ && ts[2] == toks@[2]@);
        let index = match parse_u128(&toks[0]) {
            Some(v) => {
                if v > usize::MAX as u128 {
                    let r = Vec::new();
            assert(actions_view(r@).len() == 0);
            return r;
                }
                v as usize
            },
            None => return Vec::new(),
        };
        let username = string_from_chars(toks[1].as_slice());
        let command = string_from_chars(toks[2].as_slice());
        let mut rest: Vec<String> = Vec::new();
        let mut k: usize = 3;
        while k < toks.len()
            invariant
                3 <= k <= toks@.len(),
                ts == views(toks@),
                rest@.map_values(|w: String| w@) == ts.subrange(3, k as int),
            decreases toks@.len() - k,
        {
            let ghost before = rest@;
            let w = string_from_chars(toks[k].as_slice());
            assert(ts[k as int] == toks@[k as int]@);
            rest.push(w);
            proof {
                assert(rest@ == before.push(w));
                assert(rest@.map_values(|w: String| w@) =~= before.map_values(|w: String| w@).push(w@));
                assert(rest@.map_values(|w: String| w@) =~= ts.subrange(3, k + 1));
            }
            k = k + 1;
        }
        assert(ts.subrange(3, toks@.len() as int) =~= ts.skip(3));
        let mut hashed: Option<String> = None;
        let ghost mut salt_used: (u64, u64) = (0, 0);
        if str_eq(command.as_str(), "create_account") || str_eq(command.as_str(), "change_password") {
            let password = join_strings(&rest);
            match (os_random_u64(), os_random_u64()) {
                (Ok(a), Ok(b)) => {
                    hashed = hash_password(password.as_str(), (a, b));
                    proof {
                        salt_used = (a, b);
                    }
                },
                _ => {},
            }
        }
        let ghost h = match &hashed {
            Some(x) => Some(x@),
            None => None,
        };
        let r = self.step(index, username.as_str(), command.as_str(), &rest, now, channel, hashed);
        proof {
            assert(old(self).stepped(
                index,
                username@,
                command@,
                rest@.map_values(|w: String| w@),
                now,
                channel,
                h,
                *self,
                actions_view(r@),
            ));
            assert(chars@ == message@);
            assert(rest@.map_values(|w: String| w@) == ts.skip(3));
            assert(spec_parse_message(message@) == Some(
                (index, username@, command@, rest@.map_values(|w: String| w@)),
            ));
            let rv = rest@.map_values(|w: String| w@);
            if h is Some {
                assert(sets_password(command@));
                assert(argon2_hashed(join_words(rv), salt_used) == h);
            }
            assert(h is Some ==> sets_password(command@) && exists|salt: (u64, u64)|
                argon2_hashed(join_words(rv), salt) == h);
            assert(exists|hashed: Option<Seq<char>>|
                #[trigger] old(self).stepped(
                    index,
                    username@,
                    command@,
                    rv,
                    now,
                    channel,
                    hashed,
                    *self,
                    actions_view(r@),
                ) && (hashed is Some ==> sets_password(command@) && exists|salt: (u64, u64)|
                    argon2_hashed(join_words(rv), salt) == hashed));
            let m = spec_parse_message(message@)->Some_0;
            assert(m.0 == index && m.1 == username@ && m.2 == command@ && m.3 == rv);
            assert(old(self).handled(message@, now, channel, *self, actions_view(r@)));
        }
        r
    }

    /// Handles a command line now: reads the clock and handles the line as
    /// `handle_message_at` does at that reading.
    pub fn handle_message(&mut self, message: &str, channel: bool) -> (r: Vec<ServerAction>)
        requires
            old(self).wf(),
        ensures
            final(self).wf(),
            exists|now: i64| #[trigger] old(self).handled(message@, now, channel, *final(self), actions_view(r@)),
    {
        let now = crate::game::utc_now_millis();
        self.handle_message_at(message, channel, now)
    }
}


/// The position of the game `id`, if any.
pub open spec fn game_at(games: Seq<ServerGame>, id: usize) -> Option<int> {
    if exists|j: int| 0 <= j < games.len() && (#[trigger] games[j]).id == id {
        Some(choose|j: int| 0 <= j < games.len() && (#[trigger] games[j]).id == id)
    } else {
        None
    }
}

/// The square a `game` command moves to: none for `_`, as for a resignation.
pub open spec fn to_word(w: Seq<char>) -> Seq<char> {
    if w == "_"@ {
        seq![]
    } else {
        w
    }
}

/// The words of the `play` command a `game` command makes.
pub open spec fn play_words(role: Role, from: Seq<char>, to: Seq<char>) -> Seq<Seq<char>> {
    if role == Role::Attacker {
        seq!["play"@, role.spec_to_str(), from, to, "_"@]
    } else {
        seq!["play"@, role.spec_to_str(), from, to]
    }
}

/// The account after a game, for the winner `winner` and the loser `loser`: a win or a loss
/// more, as far as 64 bits go.
pub open spec fn after_result(a: Account, winner: Seq<char>, loser: Seq<char>) -> Account {
    let a1 = if a.name@ == winner {
        Account { wins: if a.wins < u64::MAX { (a.wins + 1) as u64 } else { a.wins }, ..a }
    } else {
        a
    };
    if a1.name@ == loser {
        Account { losses: if a1.losses < u64::MAX { (a1.losses + 1) as u64 } else { a1.losses }, ..a1 }
    } else {
        a1
    }
}

/// The time each side has, when both clocks are timed.
pub open spec fn game_time(id: usize, g: Game) -> Seq<ActionView> {
    match (g.attacker_time, g.defender_time) {
        (TimeSettings::Timed(a), TimeSettings::Timed(d)) => seq![
            ActionView::GameTime(id, a.milliseconds_left, d.milliseconds_left),
        ],
        _ => seq![],
    }
}

impl ServerState {
    /// What a turn played in a game gives, given the game after it, `g2`, and its outcome `pr`.
    pub open spec fn game_played(
        self,
        index: usize,
        id: usize,
        gi: int,
        role: Role,
        from: Seq<char>,
        to: Seq<char>,
        g2: Game,
        pr: Result<Seq<crate::play::Vertex>, GameError>,
        s2: ServerState,
        acts: Seq<ActionView>,
    ) -> bool {
        let sg = self.games@[gi];
        &&& s2.games@ == self.games@.update(gi, ServerGame { game: g2, ..sg })
        &&& s2.admins == self.admins && s2.admins_tournament == self.admins_tournament
            && s2.clients == self.clients && s2.tournament_players == self.tournament_players
        &&& match pr {
            Err(_) => s2.accounts == self.accounts && acts == answer(self, index, false, "game"@),
            Ok(_) => {
                let msg = "game "@ + decimal(id as nat) + " play "@ + role.spec_to_str() + " "@
                    + from + " "@ + to;
                let other = role.spec_opposite();
                let first = seq![ActionView::ToSpectators(id, msg), ActionView::ToPlayer(id, other, msg)];
                match g2.status {
                    Status::Ongoing => s2.accounts == self.accounts && acts == first + seq![
                        ActionView::ToPlayer(
                            id,
                            other,
                            "game "@ + decimal(id as nat) + " generate_move "@ + other.spec_to_str(),
                        ),
                    ] + game_time(id, g2) + answer(self, index, true, "game"@),
                    Status::Draw => s2.accounts == self.accounts && acts == first + game_time(id, g2)
                        + answer(self, index, true, "game"@),
                    _ => {
                        let attacker_won = g2.status == Status::AttackerWins;
                        let winner = if attacker_won { sg.attacker@ } else { sg.defender@ };
                        let loser = if attacker_won { sg.defender@ } else { sg.attacker@ };
                        let over = "= game_over "@ + decimal(id as nat) + if attacker_won {
                            " attacker_wins"@
                        } else {
                            " defender_wins"@
                        };
                        &&& s2.accounts@.len() == self.accounts@.len()
                        &&& forall|j: int|
                            0 <= j < self.accounts@.len() ==> #[trigger] s2.accounts@[j] == after_result(
                                self.accounts@[j],
                                winner,
                                loser,
                            )
                        &&& acts == first + seq![
                            ActionView::ToPlayer(id, Role::Attacker, over),
                            ActionView::ToPlayer(id, Role::Defender, over),
                            ActionView::ToSpectators(id, over),
                        ] + (if sg.rated == Rated::Yes {
                            seq![ActionView::Rate(winner, loser)]
                        } else {
                            seq![]
                        }) + seq![ActionView::GameOver(id)]
                    },
                }
            },
        }
    }

    /// What the command `game ID play ROLE FROM TO` from `username` over the connection
    /// `index` at `now` gives (the words after `game` are `rest`): a turn in the game `ID`
    /// for the side `ROLE`, which must be the user's; `TO` is `_` for a resignation. Words
    /// that do not read, a game that is not there, a side that is not the user's, a turn that
    /// is refused, a square off the game's board or a clock reading too far off are answered
    /// with an error.
    pub open spec fn gamed(
        self,
        index: usize,
        username: Seq<char>,
        rest: Seq<Seq<char>>,
        now: i64,
        s2: ServerState,
        acts: Seq<ActionView>,
    ) -> bool {
        let fail = s2 == self && acts == answer(self, index, false, "game"@);
        if rest.len() < 5 {
            fail
        } else {
            match spec_parse_u128(rest[0]) {
                None => fail,
                Some(v) => if v > usize::MAX {
                    fail
                } else {
                    let id = v as usize;
                    match spec_role_from_lowercase(lowercase(rest[2])) {
                        None => fail,
                        Some(role) => match game_at(self.games@, id) {
                            None => fail,
                            Some(gi) => {
                                let sg = self.games@[gi];
                                let player = if role == Role::Attacker {
                                    sg.attacker@
                                } else {
                                    sg.defender@
                                };
                                let to = to_word(rest[4]);
                                if username != player {
                                    fail
                                } else {
                                    match spec_play_command(play_words(role, rest[3], to)) {
                                        PlayCommand::Turn(p) => if sg.game.status == Status::Ongoing && (
                                        !sg.game.clock_fits(now) || (p matches Plae::Play(q) && !(
                                        sg.game.board.play_on_board(q) && q.to.size
                                            == sg.game.board.spec_size()))) {
                                            fail
                                        } else {
                                            exists|g2: Game, pr: Result<Seq<crate::play::Vertex>, GameError>|
                                                #[trigger] sg.game.play_outcome(p, now, g2, pr)
                                                    && self.game_played(index, id, gi, role, rest[3], to, g2, pr, s2, acts)
                                        },
                                        _ => fail,
                                    }
                                }
                            },
                        },
                    }
                },
            }
        }
    }
}

impl ServerState {
    /// The answer to the connection `index`, when it can be written to.
    fn answered(&self, index: usize, ok: bool, text: &str) -> (r: Vec<ServerAction>)
        ensures
            actions_view(r@) == answer(*self, index, ok, text@),
    {
        let mut acts: Vec<ServerAction> = Vec::new();
        if self.has_client(index) {
            acts.push(ServerAction::Reply { to: Some(index), ok, text: text.to_string() });
        }
        assert(actions_view(acts@) =~= answer(*self, index, ok, text@));
        acts
    }

    /// The position of the game `id`, if any.
    fn find_game(&self, id: usize) -> (r: Option<usize>)
        requires
            self.wf(),
        ensures
            match game_at(self.games@, id) {
                Some(j) => r matches Some(i) && i as int == j,
                None => r is None,
            },
    {
        let mut i: usize = 0;
        while i < self.games.len()
            invariant
                i <= self.games@.len(),
                self.wf(),
                forall|j: int| 0 <= j < i ==> (#[trigger] self.games@[j]).id != id,
            decreases self.games@.len() - i,
        {
            if self.games[i].id == id {
                proof {
                    assert(self.games@[i as int].id == id);
                    assert(exists|j: int| 0 <= j < self.games@.len() && (#[trigger] self.games@[j]).id == id);
                    let k = choose|j: int|
                        0 <= j < self.games@.len() && (#[trigger] self.games@[j]).id == id;
                    if k < i {
                        assert(self.games@[k].id != self.games@[i as int].id);
                    } else if k > i {
                        assert(self.games@[i as int].id != self.games@[k].id);
                    }
                }
                return Some(i);
            }
            i += 1;
        }
        None
    }

    /// One more win for `winner` and one more loss for `loser`, as far as 64 bits go.
    fn record_result(&mut self, winner: &str, loser: &str)
        requires
            old(self).wf(),
        ensures
            final(self).wf(),
            final(self).accounts@.len() == old(self).accounts@.len(),
            forall|j: int|
                0 <= j < old(self).accounts@.len() ==> #[trigger] final(self).accounts@[j]
                    == after_result(old(self).accounts@[j], winner@, loser@),
            final(self).games == old(self).games && final(self).admins == old(self).admins
                && final(self).admins_tournament == old(self).admins_tournament
                && final(self).clients == old(self).clients
                && final(self).tournament_players == old(self).tournament_players,
    {
        let mut i: usize = 0;
        while i < self.accounts.len()
            invariant
                i <= self.accounts@.len(),
                self.accounts@.len() == old(self).accounts@.len(),
                forall|j: int|
                    0 <= j < i ==> #[trigger] self.accounts@[j] == after_result(
                        old(self).accounts@[j],
                        winner@,
                        loser@,
                    ),
                forall|j: int| i <= j < self.accounts@.len() ==> #[trigger] self.accounts@[j] == old(self).accounts@[j],
                self.games == old(self).games && self.admins == old(self).admins
                    && self.admins_tournament == old(self).admins_tournament
                    && self.clients == old(self).clients
                    && self.tournament_players == old(self).tournament_players,
            decreases self.accounts@.len() - i,
        {
            let mut a = self.accounts.remove(i);
            if str_eq(a.name.as_str(), winner) && a.wins < u64::MAX {
                a.wins = a.wins + 1;
            }
            if str_eq(a.name.as_str(), loser) && a.losses < u64::MAX {
                a.losses = a.losses + 1;
            }
            self.accounts.insert(i, a);
            i += 1;
        }
        proof {
            assert forall|x: int, y: int|
                0 <= x < y < self.accounts@.len() implies (#[trigger] self.accounts@[x]).name@ != (
                #[trigger] self.accounts@[y]).name@ by {
                assert(old(self).accounts@[x].name@ != old(self).accounts@[y].name@);
            }
        }
    }
}

/// The time each side has, when both clocks are timed.
fn game_time_exec(id: usize, g: &Game) -> (r: Vec<ServerAction>)
    ensures
        actions_view(r@) == game_time(id, *g),
{
    let mut acts: Vec<ServerAction> = Vec::new();
    match (g.attacker_time, g.defender_time) {
        (TimeSettings::Timed(a), TimeSettings::Timed(d)) => {
            acts.push(
                ServerAction::GameTime {
                    game: id,
                    attacker_ms: a.milliseconds_left,
                    defender_ms: d.milliseconds_left,
                },
            );
        },
        _ => {},
    }
    assert(actions_view(acts@) =~= game_time(id, *g));
    acts
}

impl ServerState {
    /// Carries out the command `game ID play ROLE FROM TO` from `username` over the
    /// connection `index` at `now` (see `gamed`).
    #[verifier::rlimit(60)]
    fn game_command(&mut self, index: usize, username: &str, rest: &Vec<String>, now: i64) -> (r: Vec<ServerAction>)
        requires
            old(self).wf(),
        ensures
            final(self).wf(),
            old(self).gamed(
                index,
                username@,
                rest@.map_values(|w: String| w@),
                now,
                *final(self),
                actions_view(r@),
            ),
    {
        let ghost words = rest@.map_values(|w: String| w@);
        if rest.len() < 5 {
            return self.answered(index, false, "game");
        }
        assert(words[0] == rest@[0]@ && words[2] == rest@[2]@ && words[3] == rest@[3]@
            && words[4] == rest@[4]@);
        let digits = str_chars(rest[0].as_str());
        let v = match parse_u128(&digits) {
            None => return self.answered(index, false, "game"),
            Some(v) => v,
        };
        if v > usize::MAX as u128 {
            return self.answered(index, false, "game");
        }
        let id = v as usize;
        let role = match Role::from_str(rest[2].as_str()) {
            Ok(role) => role,
            Err(_) => return self.answered(index, false, "game"),
        };
        let gi = match self.find_game(id) {
            None => return self.answered(index, false, "game"),
            Some(gi) => gi,
        };
        let is_player = if role == Role::Attacker {
            str_eq(self.games[gi].attacker.as_str(), username)
        } else {
            str_eq(self.games[gi].defender.as_str(), username)
        };
        if !is_player {
            return self.answered(index, false, "game");
        }
        let to: &str = if str_eq(rest[4].as_str(), "_") {
            ""
        } else {
            rest[4].as_str()
        };
        let mut args: Vec<&str> = Vec::new();
        args.push("play");
        args.push(role.to_str());
        args.push(rest[3].as_str());
        args.push(to);
        if role == Role::Attacker {
            args.push("_");
        }
        proof {
            reveal_strlit("play");
            reveal_strlit("_");
            reveal_strlit("");
            assert(to@ == to_word(words[4]));
            assert(arg_texts(args@) =~= play_words(role, words[3], to_word(words[4])));
        }
        let play = match Plae::try_from_args(args.as_slice()) {
            Ok(p) => p,
            Err(_) => return self.answered(index, false, "game"),
        };
        if self.games[gi].game.status == Status::Ongoing {
            if !self.games[gi].game.clock_fits_exec(now) {
                return self.answered(index, false, "game");
            }
            if let Plae::Play(q) = &play {
                let size = self.games[gi].game.board.size();
                let n = size.to_usize();
                if !(q.from.x < n && q.from.y < n && q.to.x < n && q.to.y < n && q.to.size == size) {
                    return self.answered(index, false, "game");
                }
            }
        }
        let ghost s0 = *self;
        let mut sg = self.games.remove(gi);
        let result = sg.game.play_at(&play, now);
        self.games.insert(gi, sg);
        proof {
            assert(self.games@ =~= s0.games@.update(
                gi as int,
                ServerGame { game: self.games@[gi as int].game, ..s0.games@[gi as int] },
            ));
            assert forall|x: int, y: int|
                0 <= x < y < self.games@.len() implies (#[trigger] self.games@[x]).id != (
                #[trigger] self.games@[y]).id by {
                assert(s0.games@[x].id != s0.games@[y].id);
            }
            assert forall|x: int| 0 <= x < self.games@.len() implies (#[trigger] self.games@[x]).game.wf() by {
                assert(s0.games@[x].game.wf());
            }
        }
        let ghost g2 = self.games@[gi as int].game;
        let ghost pr = captures_view(result);
        proof {
            assert(s0.games@[gi as int].game.play_outcome(play, now, g2, pr));
        }
        let captures = match result {
            Err(_) => {
                proof {
                    assert(s0.game_played(index, id, gi as int, role, words[3], to_word(words[4]), g2, pr, *self, answer(*self, index, false, "game"@)));
                }
                return self.answered(index, false, "game");
            },
            Ok(c) => c,
        };
        let ghost msg_view = "game "@ + decimal(id as nat) + " play "@ + role.spec_to_str() + " "@
            + words[3] + " "@ + to_word(words[4]);
        let mut msg = String::new();
        push_str(&mut msg, "game ");
        push_decimal(&mut msg, id as u128);
        push_str(&mut msg, " play ");
        push_str(&mut msg, role.to_str());
        push_str(&mut msg, " ");
        push_str(&mut msg, rest[3].as_str());
        push_str(&mut msg, " ");
        push_str(&mut msg, to);
        let other = role.opposite();
        let mut acts: Vec<ServerAction> = Vec::new();
        acts.push(ServerAction::ToSpectators { game: id, text: msg.clone() });
        acts.push(ServerAction::ToPlayer { game: id, role: other, text: msg });
        let ghost first = actions_view(acts@);
        assert(first =~= seq![ActionView::ToSpectators(id, msg_view), ActionView::ToPlayer(id, role.spec_opposite(), msg_view)]);
        let status = self.games[gi].game.status;
        if status == Status::Ongoing {
            let mut next = String::new();
            push_str(&mut next, "game ");
            push_decimal(&mut next, id as u128);
            push_str(&mut next, " generate_move ");
            push_str(&mut next, other.to_str());
            acts.push(ServerAction::ToPlayer { game: id, role: other, text: next });
            let mut times = game_time_exec(id, &self.games[gi].game);
            acts.append(&mut times);
            let mut ok = self.answered(index, true, "game");
            acts.append(&mut ok);
            proof {
                assert(actions_view(acts@) =~= first + seq![
                        ActionView::ToPlayer(
                            id,
                            role.spec_opposite(),
                            "game "@ + decimal(id as nat) + " generate_move "@ + role.spec_opposite().spec_to_str(),
                        ),
                    ] + game_time(id, g2) + answer(s0, index, true, "game"@));
                assert(s0.game_played(index, id, gi as int, role, words[3], to_word(words[4]), g2, pr, *self, actions_view(acts@)));
            }
            return acts;
        } else if status == Status::Draw {
            let mut times = game_time_exec(id, &self.games[gi].game);
            acts.append(&mut times);
            let mut ok = self.answered(index, true, "game");
            acts.append(&mut ok);
            return acts;
        }
        let attacker_won = status == Status::AttackerWins;
        let winner = if attacker_won {
            self.games[gi].attacker.clone()
        } else {
            self.games[gi].defender.clone()
        };
        let loser = if attacker_won {
            self.games[gi].defender.clone()
        } else {
            self.games[gi].attacker.clone()
        };
        let rated = self.games[gi].rated;
        self.record_result(winner.as_str(), loser.as_str());
        let mut over = String::new();
        push_str(&mut over, "= game_over ");
        push_decimal(&mut over, id as u128);
        if attacker_won {
            push_str(&mut over, " attacker_wins");
        } else {
            push_str(&mut over, " defender_wins");
        }
        acts.push(ServerAction::ToPlayer { game: id, role: Role::Attacker, text: over.clone() });
        acts.push(ServerAction::ToPlayer { game: id, role: Role::Defender, text: over.clone() });
        acts.push(ServerAction::ToSpectators { game: id, text: over });
        if rated == Rated::Yes {
            acts.push(ServerAction::Rate { winner, loser });
        }
        acts.push(ServerAction::GameOver { game: id });
        proof {
            let sg = s0.games@[gi as int];
            let over_view = "= game_over "@ + decimal(id as nat) + if attacker_won {
                " attacker_wins"@
            } else {
                " defender_wins"@
            };
            let w = if attacker_won { sg.attacker@ } else { sg.defender@ };
            let l = if attacker_won { sg.defender@ } else { sg.attacker@ };
            assert(winner@ == w && loser@ == l);
            assert(actions_view(acts@) =~= first + seq![
                ActionView::ToPlayer(id, Role::Attacker, over_view),
                ActionView::ToPlayer(id, Role::Defender, over_view),
                ActionView::ToSpectators(id, over_view),
            ] + (if sg.rated == Rated::Yes {
                seq![ActionView::Rate(w, l)]
            } else {
                seq![]
            }) + seq![ActionView::GameOver(id)]);
            assert(s0.game_played(index, id, gi as int, role, words[3], to_word(words[4]), g2, pr, *self, actions_view(acts@)));
        }
        acts
    }
}

impl ServerState {
    /// Takes the game `id` out of the server, for archiving once it is over.
    pub fn finish_game(&mut self, id: usize) -> (r: Option<ServerGame>)
        requires
            old(self).wf(),
        ensures
            final(self).wf(),
            final(self).accounts == old(self).accounts && final(self).admins == old(self).admins
                && final(self).admins_tournament == old(self).admins_tournament
                && final(self).clients == old(self).clients
                && final(self).tournament_players == old(self).tournament_players,
            match game_at(old(self).games@, id) {
                Some(j) => r == Some(old(self).games@[j]) && final(self).games@ == old(
                    self,
                ).games@.remove(j),
                None => r is None && final(self).games == old(self).games,
            },
    {
        match self.find_game(id) {
            None => None,
            Some(i) => {
                let g = self.games.remove(i);
                proof {
                    assert forall|x: int, y: int|
                        0 <= x < y < self.games@.len() implies (#[trigger] self.games@[x]).id != (
                        #[trigger] self.games@[y]).id by {
                        if y < i {
                        } else if x < i {
                            assert(old(self).games@[x].id != old(self).games@[y + 1].id);
                        } else {
                            assert(old(self).games@[x + 1].id != old(self).games@[y + 1].id);
                        }
                    }
                    assert forall|x: int| 0 <= x < self.games@.len() implies (#[trigger] self.games@[x]).game.wf() by {
                        if x >= i {
                            assert(old(self).games@[x + 1].game.wf());
                        }
                    }
                }
                Some(g)
            },
        }
    }
}

/// No two accounts share a name.
pub open spec fn distinct_accounts(v: Seq<Account>) -> bool {
    forall|i: int, j: int| 0 <= i < j < v.len() ==> (#[trigger] v[i]).name@ != (#[trigger] v[j]).name@
}

/// The two email records hold the same values.
pub open spec fn same_email(a: Option<Email>, b: Option<Email>) -> bool {
    match (a, b) {
        (None, None) => true,
        (Some(x), Some(y)) => x.address@ == y.address@ && x.code == y.code && x.username@
            == y.username@ && x.verified == y.verified,
        _ => false,
    }
}

/// The two accounts hold the same values.
pub open spec fn same_account(a: Account, b: Account) -> bool {
    &&& a.name@ == b.name@
    &&& a.password@ == b.password@
    &&& same_email(a.email, b.email)
    &&& a.logged_in == b.logged_in
    &&& a.last_logged_in == b.last_logged_in
    &&& a.software_id@ == b.software_id@
    &&& a.wins == b.wins && a.losses == b.losses && a.draws == b.draws
}

/// The account `a` is new or changed since `before`.
pub open spec fn changed_since(before: Seq<Account>, a: Account) -> bool {
    match account_at(before, a.name@) {
        None => true,
        Some(j) => !same_account(before[j], a),
    }
}

/// The positions, in order, of the first `n` accounts of `now` that are new or changed since
/// `before`.
pub open spec fn changed_positions(before: Seq<Account>, now: Seq<Account>, n: nat) -> Seq<usize>
    decreases n,
{
    if n == 0 {
        seq![]
    } else {
        let rest = changed_positions(before, now, (n - 1) as nat);
        if changed_since(before, now[n - 1]) {
            rest.push((n - 1) as usize)
        } else {
            rest
        }
    }
}

/// The names, in order, of the first `n` accounts of `before` that `now` no longer has.
pub open spec fn removed_names(before: Seq<Account>, now: Seq<Account>, n: nat) -> Seq<Seq<char>>
    decreases n,
{
    if n == 0 {
        seq![]
    } else {
        let rest = removed_names(before, now, (n - 1) as nat);
        if account_at(now, before[n - 1].name@) is None {
            rest.push(before[n - 1].name@)
        } else {
            rest
        }
    }
}

/// The position of the account named `name`, if any.
fn position_of(accounts: &Vec<Account>, name: &str) -> (r: Option<usize>)
    requires
        distinct_accounts(accounts@),
    ensures
        match account_at(accounts@, name@) {
            Some(j) => r matches Some(i) && i as int == j,
            None => r is None,
        },
{
    let mut i: usize = 0;
    while i < accounts.len()
        invariant
            i <= accounts@.len(),
            distinct_accounts(accounts@),
            forall|j: int| 0 <= j < i ==> (#[trigger] accounts@[j]).name@ != name@,
        decreases accounts@.len() - i,
    {
        if str_eq(accounts[i].name.as_str(), name) {
            proof {
                assert(accounts@[i as int].name@ == name@);
                let k = choose|j: int| 0 <= j < accounts@.len() && (#[trigger] accounts@[j]).name@ == name@;
                if k > i {
                    assert(accounts@[i as int].name@ != accounts@[k].name@);
                }
            }
            return Some(i);
        }
        i = i + 1;
    }
    None
}

/// Whether the two email records hold the same values.
fn same_email_exec(a: &Option<Email>, b: &Option<Email>) -> (r: bool)
    ensures
        r == same_email(*a, *b),
{
    match (a, b) {
        (None, None) => true,
        (Some(x), Some(y)) => str_eq(x.address.as_str(), y.address.as_str()) && x.code == y.code
            && str_eq(x.username.as_str(), y.username.as_str()) && x.verified == y.verified,
        _ => false,
    }
}

/// Whether the two accounts hold the same values.
fn same_account_exec(a: &Account, b: &Account) -> (r: bool)
    ensures
        r == same_account(*a, *b),
{
    str_eq(a.name.as_str(), b.name.as_str()) && str_eq(a.password.as_str(), b.password.as_str())
        && same_email_exec(&a.email, &b.email) && a.logged_in == b.logged_in
        && a.last_logged_in == b.last_logged_in && str_eq(
        a.software_id.as_str(),
        b.software_id.as_str(),
    ) && a.wins == b.wins && a.losses == b.losses && a.draws == b.draws
}

impl ServerState {
    /// What changed in the accounts since `before`, for the users' and administrators' lists:
    /// the positions of the accounts that are new or differ from the one of the same name,
    /// and the names of the accounts that are gone, each in order.
    pub fn accounts_updated(&self, before: &Vec<Account>) -> (r: (Vec<usize>, Vec<String>))
        requires
            self.wf(),
            distinct_accounts(before@),
        ensures
            r.0@ == changed_positions(before@, self.accounts@, self.accounts@.len()),
            r.1@.map_values(|w: String| w@) == removed_names(before@, self.accounts@, before@.len()),
    {
        let mut changed: Vec<usize> = Vec::new();
        let mut i: usize = 0;
        while i < self.accounts.len()
            invariant
                i <= self.accounts@.len(),
                self.wf(),
                distinct_accounts(before@),
                changed@ == changed_positions(before@, self.accounts@, i as nat),
            decreases self.accounts@.len() - i,
        {
            let a = &self.accounts[i];
            let is_changed = match position_of(before, a.name.as_str()) {
                None => true,
                Some(j) => !same_account_exec(&before[j], a),
            };
            if is_changed {
                changed.push(i);
            }
            i = i + 1;
        }
        proof {
            assert(distinct_accounts(self.accounts@));
        }
        let mut removed: Vec<String> = Vec::new();
        let mut k: usize = 0;
        while k < before.len()
            invariant
                k <= before@.len(),
                self.wf(),
                distinct_accounts(self.accounts@),
                removed@.map_values(|w: String| w@) == removed_names(before@, self.accounts@, k as nat),
            decreases before@.len() - k,
        {
            let name = &before[k].name;
            if position_of(&self.accounts, name.as_str()).is_none() {
                removed.push(name.clone());
            }
            proof {
                assert(removed@.map_values(|w: String| w@) =~= removed_names(
                    before@,
                    self.accounts@,
                    (k + 1) as nat,
                ));
            }
            k = k + 1;
        }
        (changed, removed)
    }
}

} // verus!
