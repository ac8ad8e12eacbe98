use vstd::prelude::*;

use crate::board::{start_spaces, Board, BoardSize};
use crate::board_play::{lemma_play_keeps_corners, lemma_start_corners_empty, PlayError};
use crate::board_move::InvalidMove;
use crate::play::{Captures, Plae, Play, PlayRecordTimed, Plays, Vertex};
use crate::role::Role;
use crate::space::Space;
use crate::status::Status;
use crate::time::{Time, TimeLeft, TimeSettings};

verus! {

/// The positions a game has passed through.
#[derive(Clone, Debug)]
pub struct PreviousBoards(pub Vec<Board>);

impl PreviousBoards {
    /// The positions as a sequence of boards.
    pub open spec fn boards(self) -> Seq<Board> {
        self.0@
    }

    /// Some earlier position has exactly these squares.
    pub open spec fn spec_contains(self, spaces: Seq<Space>) -> bool {
        exists|i: int| 0 <= i < self.0@.len() && (#[trigger] self.0@[i]).spaces@ == spaces
    }

    /// A history that holds only the starting position of a board of this size.
    pub fn new(board_size: BoardSize) -> (p: PreviousBoards)
        ensures
            p.0@.len() == 1,
            p.0@[0].spaces@ == start_spaces(board_size),
    {
        let mut v = Vec::new();
        v.push(Board::new(board_size));
        PreviousBoards(v)
    }

    /// The two histories hold boards that agree in every field, in the same order.
    pub open spec fn agrees(self, other: PreviousBoards) -> bool {
        &&& self.0@.len() == other.0@.len()
        &&& forall|i: int| 0 <= i < self.0@.len() ==> (#[trigger] self.0@[i]).equals(other.0@[i])
    }

    /// A copy of the history.
    pub fn copy(&self) -> (p: PreviousBoards)
        ensures
            p.agrees(*self),
    {
        let mut v: Vec<Board> = Vec::new();
        let mut i: usize = 0;
        while i < self.0.len()
            invariant
                i <= self.0@.len(),
                v@.len() == i,
                forall|j: int| 0 <= j < i ==> (#[trigger] v@[j]).equals(self.0@[j]),
            decreases self.0@.len() - i,
        {
            v.push(self.0[i].copy());
            i = i + 1;
        }
        PreviousBoards(v)
    }

    /// Whether some earlier position has the same squares as `board`.
    pub fn contains(&self, board: &Board) -> (r: bool)
        ensures
            r == self.spec_contains(board.spaces@),
    {
        let mut i: usize = 0;
        while i < self.0.len()
            invariant
                i <= self.0@.len(),
                forall|j: int| 0 <= j < i ==> (#[trigger] self.0@[j]).spaces@ != board.spaces@,
            decreases self.0@.len() - i,
        {
            if self.0[i].same_spaces(board) {
                return true;
            }
            i = i + 1;
        }
        false
    }
}


/// The current time in milliseconds since the Unix epoch: std's `SystemTime::now()` taken
/// into chrono's `DateTime<Utc>` with `From`, which also reads a clock set before 1970
/// (as a negative time), then read as milliseconds with `timestamp_millis()`. Nothing is
/// promised of the value: it is the machine's clock.
#[verifier::external_body]
pub(crate) fn utc_now_millis() -> i64 {
    chrono::DateTime::<chrono::Utc>::from(std::time::SystemTime::now()).timestamp_millis()
}

/// When the clock of the side to move was last started, or untimed.
#[derive(Clone, Copy, Debug, PartialEq, Eq, Structural)]
pub enum TimeUnix {
    Time(i64),
    UnTimed,
}

impl TimeUnix {
    /// The current time.
    pub fn default() -> (t: TimeUnix)
        ensures
            t is Time,
    {
        TimeUnix::Time(utc_now_millis())
    }
}

/// Why a turn cannot be played in a game.
#[derive(Clone, Copy, Debug, PartialEq, Eq, Structural)]
pub enum GameError {
    /// The game is already over.
    GameOver,
    /// A player tried to resign for the other side.
    ResignForOther,
    /// The piece on the square moved from is not of the side named by the move.
    WrongPiece { piece: Role, play: Role },
    /// The board refused the turn.
    Play(PlayError),
    /// The record keeps clocks, but a side's clock is untimed.
    UnTimed,
    /// The clock reading is so far off that the time left does not fit in 64 bits.
    ClockOverflow,
}

/// The message for an error of a game.
pub open spec fn game_error_text(e: GameError) -> Seq<char> {
    match e {
        GameError::GameOver => "play: the game is already over"@,
        GameError::ResignForOther => "You can't resign for the other player."@,
        GameError::WrongPiece { piece, play } => "play: you are trying to move "@
            + piece.spec_to_str() + ", but it's "@ + play.spec_to_str() + "'s turn"@,
        GameError::Play(PlayError::NotOngoing) => "play: the game has to be ongoing to play"@,
        GameError::Play(PlayError::Invalid(i)) => i.spec_message(),
        GameError::UnTimed => "the time settings are un-timed"@,
        GameError::ClockOverflow => "play: the clock reading is out of range"@,
    }
}

impl GameError {
    /// The message for the error.
    pub fn message(&self) -> (s: String)
        ensures
            s@ == game_error_text(*self),
    {
        match self {
            GameError::GameOver => "play: the game is already over".to_string(),
            GameError::ResignForOther => "You can't resign for the other player.".to_string(),
            GameError::WrongPiece { piece, play } => {
                let mut s = String::new();
                crate::text::push_str(&mut s, "play: you are trying to move ");
                crate::text::push_str(&mut s, piece.to_str());
                crate::text::push_str(&mut s, ", but it's ");
                crate::text::push_str(&mut s, play.to_str());
                crate::text::push_str(&mut s, "'s turn");
                s
            },
            GameError::Play(e) => e.message().to_string(),
            GameError::UnTimed => "the time settings are un-timed".to_string(),
            GameError::ClockOverflow => "play: the clock reading is out of range".to_string(),
        }
    }
}

/// The status when the side `turn` loses: on time, or for having no move.
pub open spec fn loser_status(turn: Role, otherwise: Status) -> Status {
    match turn {
        Role::Attacker => Status::DefenderWins,
        Role::Defender => Status::AttackerWins,
        Role::Roleless => otherwise,
    }
}

/// A game of copenhagen hnefatafl: the board, the record of turns, the positions passed
/// through, the status, the clocks, and the side to move.
#[derive(Clone, Debug)]
pub struct Game {
    pub board: Board,
    pub plays: Plays,
    pub previous_boards: PreviousBoards,
    pub status: Status,
    pub time: TimeUnix,
    pub attacker_time: TimeSettings,
    pub defender_time: TimeSettings,
    pub turn: Role,
}

/// The captures of a turn as a sequence of squares.
pub open spec fn captures_view(r: Result<Captures, GameError>) -> Result<Seq<Vertex>, GameError> {
    match r {
        Ok(c) => Ok(c.0@),
        Err(e) => Err(e),
    }
}

impl Game {
    /// A game whose board is sound, and which, while it goes on, has empty corners and a side
    /// to move.
    pub open spec fn wf(self) -> bool {
        &&& self.board.wf()
        &&& self.status == Status::Ongoing ==> self.board.corners_empty() && self.turn
            != Role::Roleless
    }

    /// Two games agree in every field.
    pub open spec fn same(self, other: Game) -> bool {
        &&& self.board.equals(other.board)
        &&& self.plays.same(other.plays)
        &&& self.previous_boards.agrees(other.previous_boards)
        &&& self.status == other.status
        &&& self.time == other.time
        &&& self.attacker_time == other.attacker_time
        &&& self.defender_time == other.defender_time
        &&& self.turn == other.turn
    }

    /// A game agrees with itself in every field.
    pub proof fn lemma_same_self(self)
        ensures
            self.same(self),
    {
        match self.plays {
            Plays::PlayRecordsTimed(v) => {},
            Plays::PlayRecords(v) => {},
        }
    }

    /// The clock of the side to move.
    pub open spec fn own_timer(self) -> TimeSettings {
        if self.turn == Role::Attacker {
            self.attacker_time
        } else {
            self.defender_time
        }
    }

    /// The clock of the side to move runs: it is timed and was started.
    pub open spec fn clock_runs(self) -> bool {
        self.own_timer() is Timed && self.time is Time
    }

    /// The time the side to move has left at `now`.
    pub open spec fn clock_left(self, now: i64) -> int {
        self.own_timer()->Timed_0.milliseconds_left - (now - self.time->Time_0)
    }

    /// The clock arithmetic at `now` stays within 64 bits.
    pub open spec fn clock_fits(self, now: i64) -> bool {
        self.clock_runs() ==> {
            let t = self.own_timer()->Timed_0;
            let d = now - self.time->Time_0;
            let left = self.clock_left(now);
            &&& i64::MIN <= d <= i64::MAX
            &&& i64::MIN <= left <= i64::MAX
            &&& left > 0 ==> i64::MIN <= t.add_seconds * 1000 <= i64::MAX && i64::MIN <= left
                + t.add_seconds * 1000 <= i64::MAX
        }
    }

    /// The game after the clock of the side to move is read at `now`: its time left is
    /// charged, and, when some is left, the added seconds are given; when none is left, the
    /// side loses.
    pub open spec fn clocked(self, now: i64) -> Game {
        if !self.clock_runs() {
            self
        } else {
            let t = self.own_timer()->Timed_0;
            let left = self.clock_left(now);
            let new_left = if left <= 0 {
                left
            } else {
                left + t.add_seconds * 1000
            };
            let timer = TimeSettings::Timed(
                Time { add_seconds: t.add_seconds, milliseconds_left: new_left as i64 },
            );
            Game {
                board: self.board,
                plays: self.plays,
                previous_boards: self.previous_boards,
                status: if left <= 0 {
                    loser_status(self.turn, self.status)
                } else {
                    self.status
                },
                time: TimeUnix::Time(now),
                attacker_time: if self.turn == Role::Attacker {
                    timer
                } else {
                    self.attacker_time
                },
                defender_time: if self.turn == Role::Attacker {
                    self.defender_time
                } else {
                    timer
                },
                turn: self.turn,
            }
        }
    }

    /// The game with another status.
    pub open spec fn with_status(self, status: Status) -> Game {
        Game {
            board: self.board,
            plays: self.plays,
            previous_boards: self.previous_boards,
            status,
            time: self.time,
            attacker_time: self.attacker_time,
            defender_time: self.defender_time,
            turn: self.turn,
        }
    }

    /// The record keeps clocks but a side's clock is untimed, so no turn can be recorded.
    pub open spec fn record_fails(self) -> bool {
        self.plays is PlayRecordsTimed && (self.attacker_time is UnTimed
            || self.defender_time is UnTimed)
    }

    /// `plays` is this game's record with the turn `p` added, with both clocks when the
    /// record keeps them.
    pub open spec fn recorded(self, p: Plae, plays: Plays) -> bool {
        match self.plays {
            Plays::PlayRecordsTimed(v) => plays matches Plays::PlayRecordsTimed(w) && w@ == v@.push(
                PlayRecordTimed {
                    play: Some(p),
                    attacker_time: TimeLeft {
                        milliseconds_left: self.attacker_time->Timed_0.milliseconds_left,
                    },
                    defender_time: TimeLeft {
                        milliseconds_left: self.defender_time->Timed_0.milliseconds_left,
                    },
                },
            ),
            Plays::PlayRecords(v) => plays matches Plays::PlayRecords(w) && w@ == v@.push(Some(p)),
        }
    }

    /// `g` is this game with the turn `p` recorded.
    pub open spec fn with_record(self, p: Plae, g: Game) -> bool {
        &&& self.recorded(p, g.plays)
        &&& self.board.equals(g.board)
        &&& self.previous_boards.0@ == g.previous_boards.0@
        &&& self.status == g.status
        &&& self.time == g.time
        &&& self.attacker_time == g.attacker_time
        &&& self.defender_time == g.defender_time
        &&& self.turn == g.turn
    }

    /// What a resignation that ends the game with `status` gives: the status is set, then the
    /// turn is recorded.
    pub open spec fn resigned(
        self,
        p: Plae,
        status: Status,
        g: Game,
        r: Result<Seq<Vertex>, GameError>,
    ) -> bool {
        let s = self.with_status(status);
        if s.record_fails() {
            r == Err::<Seq<Vertex>, GameError>(GameError::UnTimed) && g.same(s)
        } else {
            r == Ok::<Seq<Vertex>, GameError>(Seq::empty()) && s.with_record(p, g)
        }
    }

    /// What a move that the board allows gives: the board after it (`b`, with the captures
    /// `caps` and the status `st`) is kept and added to the positions; the turn is recorded;
    /// and when the game goes on, the other side is to move and loses if it has no move.
    pub open spec fn moved(
        self,
        p: Play,
        b: Board,
        caps: Seq<Vertex>,
        st: Status,
        g: Game,
        r: Result<Seq<Vertex>, GameError>,
    ) -> bool {
        &&& g.board.equals(b)
        &&& g.previous_boards.0@.len() == self.previous_boards.0@.len() + 1
        &&& g.previous_boards.0@.drop_last() == self.previous_boards.0@
        &&& g.previous_boards.0@.last().equals(b)
        &&& g.time == self.time
        &&& g.attacker_time == self.attacker_time
        &&& g.defender_time == self.defender_time
        &&& if self.record_fails() {
            &&& r == Err::<Seq<Vertex>, GameError>(GameError::UnTimed)
            &&& g.plays.same(self.plays)
            &&& g.status == st
            &&& g.turn == self.turn
        } else {
            &&& r == Ok::<Seq<Vertex>, GameError>(caps)
            &&& self.recorded(Plae::Play(p), g.plays)
            &&& if st == Status::Ongoing {
                &&& g.turn == self.turn.spec_opposite()
                &&& g.status == if b.spec_a_legal_move_exists(st, g.turn, g.previous_boards) {
                    st
                } else {
                    loser_status(g.turn, st)
                }
            } else {
                g.turn == self.turn && g.status == st
            }
        }
    }

    /// What playing the turn `play` at time `now` gives: the new game `g` and the captures or
    /// the error `r`.
    pub open spec fn play_outcome(
        self,
        play: Plae,
        now: i64,
        g: Game,
        r: Result<Seq<Vertex>, GameError>,
    ) -> bool {
        if self.status != Status::Ongoing {
            r == Err::<Seq<Vertex>, GameError>(GameError::GameOver) && g.same(self)
        } else {
            let c = self.clocked(now);
            if self.clock_runs() && self.clock_left(now) <= 0 {
                r == Ok::<Seq<Vertex>, GameError>(Seq::empty()) && g.same(c)
            } else {
                match play {
                    Plae::AttackerResigns => if self.turn == Role::Attacker {
                        c.resigned(play, Status::DefenderWins, g, r)
                    } else {
                        r == Err::<Seq<Vertex>, GameError>(GameError::ResignForOther) && g.same(c)
                    },
                    Plae::DefenderResigns => if self.turn == Role::Defender {
                        c.resigned(play, Status::AttackerWins, g, r)
                    } else {
                        r == Err::<Seq<Vertex>, GameError>(GameError::ResignForOther) && g.same(c)
                    },
                    Plae::Play(p) => {
                        let piece = c.board.at(p.from).spec_role();
                        if piece != p.role {
                            r == Err::<Seq<Vertex>, GameError>(
                                GameError::WrongPiece { piece, play: p.role },
                            ) && g.same(c)
                        } else {
                            match c.board.move_error(p, c.status, c.turn, c.previous_boards) {
                                Some(e) => r == Err::<Seq<Vertex>, GameError>(
                                    GameError::Play(PlayError::Invalid(e)),
                                ) && g.same(c),
                                None => exists|b: Board, caps: Vec<Vertex>, st: Status|
                                    #![trigger c.board.play_result(play, c.status, c.turn, c.previous_boards, Ok::<(Board, Vec<Vertex>, Status), PlayError>((b, caps, st)))]
                                    c.board.play_result(
                                        play,
                                        c.status,
                                        c.turn,
                                        c.previous_boards,
                                        Ok::<(Board, Vec<Vertex>, Status), PlayError>((b, caps, st)),
                                    ) && c.moved(p, b, caps@, st, g, r),
                            }
                        }
                    },
                }
            }
        }
    }

    /// Records a turn.
    fn record(&mut self, plae: Plae) -> (r: Result<(), GameError>)
        ensures
            r is Err == old(self).record_fails(),
            r is Err ==> r == Err::<(), GameError>(GameError::UnTimed) && final(self).same(
                *old(self),
            ) && final(self).board == old(self).board && final(self).previous_boards
                == old(self).previous_boards,
            r is Ok ==> old(self).with_record(plae, *final(self)) && final(self).board == old(
                self,
            ).board && final(self).previous_boards == old(self).previous_boards,
    {
        let attacker_time = self.attacker_time;
        let defender_time = self.defender_time;
        match &mut self.plays {
            Plays::PlayRecordsTimed(plays) => {
                let a = match TimeLeft::try_from_settings(attacker_time) {
                    Ok(t) => t,
                    Err(_) => return Err(GameError::UnTimed),
                };
                let d = match TimeLeft::try_from_settings(defender_time) {
                    Ok(t) => t,
                    Err(_) => return Err(GameError::UnTimed),
                };
                plays.push(PlayRecordTimed { play: Some(plae), attacker_time: a, defender_time: d });
            },
            Plays::PlayRecords(plays) => {
                plays.push(Some(plae));
            },
        }
        Ok(())
    }

    /// Charges the clock of the side to move at `now`; says whether its time ran out.
    fn run_clock(&mut self, now: i64) -> (out: bool)
        requires
            old(self).status == Status::Ongoing,
            old(self).turn != Role::Roleless,
            old(self).clock_fits(now),
        ensures
            out == (old(self).clock_runs() && old(self).clock_left(now) <= 0),
            final(self).same(old(self).clocked(now)),
            final(self).board == old(self).board,
            final(self).previous_boards == old(self).previous_boards,
    {
        if let TimeUnix::Time(time) = self.time {
            let attacker = self.turn == Role::Attacker;
            let timer = if attacker {
                self.attacker_time
            } else {
                self.defender_time
            };
            if let TimeSettings::Timed(t) = timer {
                let left = t.milliseconds_left - (now - time);
                self.time = TimeUnix::Time(now);
                let out = left <= 0;
                let new_left = if out {
                    left
                } else {
                    left + t.add_seconds * 1000
                };
                let new_timer = TimeSettings::Timed(
                    Time { add_seconds: t.add_seconds, milliseconds_left: new_left },
                );
                if attacker {
                    self.attacker_time = new_timer;
                } else {
                    self.defender_time = new_timer;
                }
                if out {
                    self.status = if attacker {
                        Status::DefenderWins
                    } else {
                        Status::AttackerWins
                    };
                }
                proof {
                    assert(self.plays.same(old(self).plays)) by {
                        match self.plays {
                            Plays::PlayRecordsTimed(v) => {},
                            Plays::PlayRecords(v) => {},
                        }
                    }
                }
                return out;
            }
        }
        proof {
            assert(self.plays.same(old(self).plays)) by {
                match self.plays {
                    Plays::PlayRecordsTimed(v) => {},
                    Plays::PlayRecords(v) => {},
                }
            }
        }
        false
    }
}


impl Game {
    /// Plays a turn at time `now`: charges the clock of the side to move (which loses when its
    /// time runs out), then carries out a resignation or a move, records it, and when the game
    /// goes on passes the turn, the other side losing if it has no move.
    #[verifier::rlimit(40)]
    pub fn play_at(&mut self, play: &Plae, now: i64) -> (r: Result<Captures, GameError>)
        requires
            old(self).wf(),
            old(self).status == Status::Ongoing ==> old(self).clock_fits(now),
            old(self).status == Status::Ongoing ==> (*play matches Plae::Play(p) ==> old(
                self,
            ).board.play_on_board(p) && p.to.size == old(self).board.spec_size()),
        ensures
            old(self).play_outcome(*play, now, *final(self), captures_view(r)),
            final(self).wf(),
            final(self).board.spaces@.len() == old(self).board.spaces@.len(),
    {
        if self.status != Status::Ongoing {
            proof {
                assert(self.plays.same(old(self).plays)) by {
                    match self.plays {
                        Plays::PlayRecordsTimed(v) => {},
                        Plays::PlayRecords(v) => {},
                    }
                }
            }
            return Err(GameError::GameOver);
        }
        let ghost g0 = *self;
        if self.run_clock(now) {
            let none = Captures::default();
            assert(none.0@ =~= Seq::<Vertex>::empty());
            return Ok(none);
        }
        let ghost c = *self;
        match play {
            Plae::AttackerResigns => {
                if self.turn == Role::Attacker {
                    self.status = Status::DefenderWins;
                    match self.record(*play) {
                        Ok(()) => {
                            let none = Captures::default();
                            assert(none.0@ =~= Seq::<Vertex>::empty());
                            Ok(none)
                        },
                        Err(e) => Err(e),
                    }
                } else {
                    Err(GameError::ResignForOther)
                }
            },
            Plae::DefenderResigns => {
                if self.turn == Role::Defender {
                    self.status = Status::AttackerWins;
                    match self.record(*play) {
                        Ok(()) => {
                            let none = Captures::default();
                            assert(none.0@ =~= Seq::<Vertex>::empty());
                            Ok(none)
                        },
                        Err(e) => Err(e),
                    }
                } else {
                    Err(GameError::ResignForOther)
                }
            },
            Plae::Play(p) => {
                let piece_role = self.board.get(&p.from).role();
                if piece_role != p.role {
                    return Err(GameError::WrongPiece { piece: piece_role, play: p.role });
                }
                let status = self.status;
                let turn = self.turn;
                proof {
                    self.board.lemma_corners_empty_stays(*p, status, turn, self.previous_boards);
                }
                let result = self.board.play(play, &status, &turn, &mut self.previous_boards);
                let (captures, new_status) = match result {
                    Ok(x) => x,
                    Err(e) => {
                        proof {
                            assert(self.plays.same(c.plays)) by {
                                match self.plays {
                                    Plays::PlayRecordsTimed(v) => {},
                                    Plays::PlayRecords(v) => {},
                                }
                            }
                        }
                        return Err(GameError::Play(e));
                    },
                };
                let ghost (b, cv) = choose|b: Board, cv: Vec<Vertex>|
                    #![trigger c.board.play_result(*play, status, turn, c.previous_boards, Ok::<(Board, Vec<Vertex>, Status), PlayError>((b, cv, new_status)))]
                    c.board.play_result(
                        *play,
                        status,
                        turn,
                        c.previous_boards,
                        Ok::<(Board, Vec<Vertex>, Status), PlayError>((b, cv, new_status)),
                    ) && self.board.equals(b) && cv@ == captures@ && self.previous_boards.0@.len()
                        == c.previous_boards.0@.len() + 1 && self.previous_boards.0@.drop_last()
                        == c.previous_boards.0@ && self.previous_boards.0@.last().equals(b);
                proof {
                    if new_status == Status::Ongoing {
                        lemma_play_keeps_corners(c.board, *play, status, turn, c.previous_boards, b, cv, new_status);
                    }
                }
                self.status = new_status;
                let ghost s1 = *self;
                match self.record(*play) {
                    Ok(()) => {},
                    Err(e) => {
                        proof {
                            assert(c.moved(*p, b, cv@, new_status, *self, Err(e)));
                        }
                        return Err(e);
                    },
                }
                if self.status == Status::Ongoing {
                    self.turn = self.turn.opposite();
                    let st = self.status;
                    let tn = self.turn;
                    if !self.board.a_legal_move_exists(&st, &tn, &self.previous_boards) {
                        match self.turn {
                            Role::Attacker => {
                                self.status = Status::DefenderWins;
                            },
                            Role::Roleless => {},
                            Role::Defender => {
                                self.status = Status::AttackerWins;
                            },
                        }
                    }
                    proof {
                        assert(self.board.equals(b));
                        crate::board_scan::lemma_equals_same_moves(b, self.board, st, tn, self.previous_boards);
                        assert(b.spec_a_legal_move_exists(st, tn, self.previous_boards)
                            == self.board.spec_a_legal_move_exists(st, tn, self.previous_boards));
                    }
                }
                proof {
                    assert(c.moved(*p, b, cv@, new_status, *self, Ok(captures@)));
                }
                Ok(Captures(captures))
            },
        }
    }
}


impl Game {
    /// Whether the clock of the side to move runs.
    pub(crate) fn clock_runs_exec(&self) -> (b: bool)
        ensures
            b == self.clock_runs(),
    {
        let timer = if self.turn == Role::Attacker {
            self.attacker_time
        } else {
            self.defender_time
        };
        timer.is_timed() && match self.time {
            TimeUnix::Time(_) => true,
            TimeUnix::UnTimed => false,
        }
    }

    /// Whether the clock arithmetic at `now` stays within 64 bits.
    pub(crate) fn clock_fits_exec(&self, now: i64) -> (b: bool)
        ensures
            b == self.clock_fits(now),
    {
        let timer = if self.turn == Role::Attacker {
            self.attacker_time
        } else {
            self.defender_time
        };
        match (timer, self.time) {
            (TimeSettings::Timed(t), TimeUnix::Time(time)) => {
                let d = now as i128 - time as i128;
                let left = t.milliseconds_left as i128 - d;
                let added = t.add_seconds as i128 * 1000;
                let small = i64::MIN as i128;
                let big = i64::MAX as i128;
                small <= d && d <= big && small <= left && left <= big && (left <= 0 || (small
                    <= added && added <= big && small <= left + added && left + added <= big))
            },
            _ => true,
        }
    }

    /// Plays a turn now: reads the clock when the side to move's clock runs, and plays the
    /// turn at that time. A reading so far off that the time left would not fit in 64 bits
    /// is refused, and the game is left as it was.
    pub fn play(&mut self, play: &Plae) -> (r: Result<Captures, GameError>)
        requires
            old(self).wf(),
            old(self).status == Status::Ongoing ==> (*play matches Plae::Play(p) ==> old(
                self,
            ).board.play_on_board(p) && p.to.size == old(self).board.spec_size()),
        ensures
            final(self).wf(),
            final(self).board.spaces@.len() == old(self).board.spaces@.len(),
            r == Err::<Captures, GameError>(GameError::ClockOverflow) ==> final(self).same(
                *old(self),
            ) && old(self).status == Status::Ongoing && old(self).clock_runs(),
            r != Err::<Captures, GameError>(GameError::ClockOverflow) ==> exists|now: i64|
                #[trigger] old(self).play_outcome(*play, now, *final(self), captures_view(r)),
    {
        let now = if self.status == Status::Ongoing && self.clock_runs_exec() {
            utc_now_millis()
        } else {
            0
        };
        if self.status == Status::Ongoing && !self.clock_fits_exec(now) {
            proof {
                assert(self.plays.same(old(self).plays)) by {
                    match self.plays {
                        Plays::PlayRecordsTimed(v) => {},
                        Plays::PlayRecords(v) => {},
                    }
                }
            }
            return Err(GameError::ClockOverflow);
        }
        let r = self.play_at(play, now);
        proof {
            if r is Err {
                assert(r->Err_0 != GameError::ClockOverflow) by {
                    assert(old(self).play_outcome(*play, now, *self, captures_view(r)));
                }
            }
        }
        r
    }

    /// A new game on a board of the given size: the starting position, an empty record that
    /// keeps clocks, both clocks at their default, the clock started now, and the attackers to
    /// move.
    pub fn new(board_size: BoardSize) -> (g: Game)
        ensures
            g.is_new(board_size),
            g.time is Time,
    {
        Game::new_at(board_size, utc_now_millis())
    }

    /// A new game, as `new` makes it, whose clock was started at `now`.
    pub fn new_at(board_size: BoardSize, now: i64) -> (g: Game)
        ensures
            g.is_new(board_size),
            g.time == TimeUnix::Time(now),
    {
        let board = Board::new(board_size);
        proof {
            lemma_start_corners_empty(board);
        }
        Game {
            board,
            plays: Plays::default(),
            previous_boards: PreviousBoards::new(board_size),
            status: Status::default(),
            time: TimeUnix::Time(now),
            attacker_time: TimeSettings::default(),
            defender_time: TimeSettings::default(),
            turn: Role::Attacker,
        }
    }

    /// A game as it begins on a board of the given size: the starting position, an empty
    /// record that keeps clocks, both clocks at their default, and the attackers to move.
    pub open spec fn is_new(self, board_size: BoardSize) -> bool {
        &&& self.wf()
        &&& self.board.spec_size() == board_size
        &&& self.board.spaces@ == start_spaces(board_size)
        &&& self.board.king == Some(
            Vertex {
                size: board_size,
                x: (board_size.n() / 2) as usize,
                y: (board_size.n() / 2) as usize,
            },
        )
        &&& self.board.attackers_captured == 0
        &&& self.board.defenders_captured == 0
        &&& self.plays is PlayRecordsTimed
        &&& self.plays.spec_len() == 0
        &&& self.previous_boards.0@.len() == 1
        &&& self.previous_boards.0@[0].spaces@ == start_spaces(board_size)
        &&& self.status == Status::Ongoing
        &&& self.attacker_time == TimeSettings::Timed(
            Time { add_seconds: 10, milliseconds_left: 900_000 },
        )
        &&& self.defender_time == TimeSettings::Timed(
            Time { add_seconds: 10, milliseconds_left: 900_000 },
        )
        &&& self.turn == Role::Attacker
    }
}


impl Game {
    /// A copy of the game.
    pub fn copy(&self) -> (g: Game)
        ensures
            g.same(*self),
    {
        Game {
            board: self.board.copy(),
            plays: self.plays.copy(),
            previous_boards: self.previous_boards.copy(),
            status: self.status,
            time: self.time,
            attacker_time: self.attacker_time,
            defender_time: self.defender_time,
            turn: self.turn,
        }
    }
}


/// A game that is over refuses every turn and stays as it was.
pub proof fn lemma_game_over_refuses(g: Game, play: Plae, now: i64, g2: Game, r: Result<Seq<Vertex>, GameError>)
    requires
        g.status != Status::Ongoing,
        g.play_outcome(play, now, g2, r),
    ensures
        r == Err::<Seq<Vertex>, GameError>(GameError::GameOver),
        g2.same(g),
{
}

/// Every turn that is played is recorded: after a turn that succeeds, unless the side to move
/// lost on time first, the record holds one turn more.
pub proof fn lemma_turn_recorded(g: Game, play: Plae, now: i64, g2: Game, caps: Seq<Vertex>)
    requires
        g.play_outcome(play, now, g2, Ok::<Seq<Vertex>, GameError>(caps)),
        !(g.clock_runs() && g.clock_left(now) <= 0),
    ensures
        g2.plays.spec_len() == g.plays.spec_len() + 1,
{
    let c = g.clocked(now);
    assert(c.plays == g.plays);
    match play {
        Plae::Play(p) => {
            let (b, cv, st) = choose|b: Board, cv: Vec<Vertex>, st: Status|
                #![trigger c.board.play_result(play, c.status, c.turn, c.previous_boards, Ok::<(Board, Vec<Vertex>, Status), PlayError>((b, cv, st)))]
                c.board.play_result(
                    play,
                    c.status,
                    c.turn,
                    c.previous_boards,
                    Ok::<(Board, Vec<Vertex>, Status), PlayError>((b, cv, st)),
                ) && c.moved(p, b, cv@, st, g2, Ok::<Seq<Vertex>, GameError>(caps));
            assert(c.recorded(play, g2.plays));
        },
        _ => {
            let st = if play == Plae::AttackerResigns {
                Status::DefenderWins
            } else {
                Status::AttackerWins
            };
            assert(c.with_status(st).recorded(play, g2.plays));
        },
    }
}

/// After a move that leaves the game going on, the other side is to move.
pub proof fn lemma_turn_passes(g: Game, p: Play, now: i64, g2: Game, caps: Seq<Vertex>)
    requires
        g.wf(),
        g.play_outcome(Plae::Play(p), now, g2, Ok::<Seq<Vertex>, GameError>(caps)),
        g2.status == Status::Ongoing,
    ensures
        g2.turn == g.turn.spec_opposite(),
{
    let c = g.clocked(now);
    if !(g.clock_runs() && g.clock_left(now) <= 0) {
        let (b, cv, st) = choose|b: Board, cv: Vec<Vertex>, st: Status|
            #![trigger c.board.play_result(Plae::Play(p), c.status, c.turn, c.previous_boards, Ok::<(Board, Vec<Vertex>, Status), PlayError>((b, cv, st)))]
            c.board.play_result(
                Plae::Play(p),
                c.status,
                c.turn,
                c.previous_boards,
                Ok::<(Board, Vec<Vertex>, Status), PlayError>((b, cv, st)),
            ) && c.moved(p, b, cv@, st, g2, Ok::<Seq<Vertex>, GameError>(caps));
    }
}

/// A turn that is refused, for any reason but a record that cannot take it, leaves the
/// position, the record and the side to move as they were.
pub proof fn lemma_refused_turn_keeps_position(
    g: Game,
    play: Plae,
    now: i64,
    g2: Game,
    e: GameError,
)
    requires
        g.play_outcome(play, now, g2, Err::<Seq<Vertex>, GameError>(e)),
        e != GameError::UnTimed,
    ensures
        g2.board.equals(g.board),
        g2.plays.same(g.plays),
        g2.turn == g.turn,
{
    let c = g.clocked(now);
    assert(c.board == g.board && c.plays == g.plays && c.turn == g.turn);
    if g.status == Status::Ongoing && !(g.clock_runs() && g.clock_left(now) <= 0) {
        if let Plae::Play(p) = play {
            let piece = c.board.at(p.from).spec_role();
            if piece == p.role && c.board.move_error(p, c.status, c.turn, c.previous_boards) is None {
                let (b, cv, st) = choose|b: Board, cv: Vec<Vertex>, st: Status|
                    #![trigger c.board.play_result(play, c.status, c.turn, c.previous_boards, Ok::<(Board, Vec<Vertex>, Status), PlayError>((b, cv, st)))]
                    c.board.play_result(
                        play,
                        c.status,
                        c.turn,
                        c.previous_boards,
                        Ok::<(Board, Vec<Vertex>, Status), PlayError>((b, cv, st)),
                    ) && c.moved(p, b, cv@, st, g2, Err::<Seq<Vertex>, GameError>(e));
                assert(false);
            }
        }
    }
}

} // verus!
