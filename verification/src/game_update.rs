use vstd::prelude::*;

use crate::board::{BoardSize, BoardSizeError};
use crate::board_play::{lemma_play_captures_within, PlayError};
use crate::board_shield::{all_within, within};
use crate::board_text::{board_text, green_text};
use crate::game::{captures_view, game_error_text, Game, GameError, TimeUnix};
use crate::game_eval::first_from;
use crate::game_moves::entries_within;
use crate::play::{plae_text, vertices_text, Plae, Plays, Vertex};
use crate::role::Role;
use crate::status::Status;
use crate::text::{join_words, push_char, push_str};
use crate::time::TimeSettings;

verus! {

/// The vertex lies on its own board.
pub open spec fn valid_vertex(v: Vertex) -> bool {
    v.valid()
}

/// The names of the squares, joined by single spaces.
pub open spec fn names_joined(vs: Seq<Vertex>) -> Seq<char> {
    join_words(vs.map_values(|v: Vertex| v.name()))
}

/// The squares moved from, in the listed order.
pub open spec fn froms(e: Seq<(Vertex, Seq<Vertex>)>) -> Seq<Vertex> {
    e.map_values(|x: (Vertex, Seq<Vertex>)| x.0)
}

/// Squares of a board can be named.
proof fn lemma_within_valid_vertex(vs: Seq<Vertex>, size: BoardSize)
    requires
        all_within(vs, size),
    ensures
        forall|i: int| 0 <= i < vs.len() ==> valid_vertex(#[trigger] vs[i]),
{
    assert forall|i: int| 0 <= i < vs.len() implies valid_vertex(#[trigger] vs[i]) by {
        assert(within(vs[i], size));
    }
}

/// The names of the squares, joined by single spaces.
fn names_text(vs: &Vec<Vertex>) -> (s: String)
    requires
        forall|i: int| 0 <= i < vs@.len() ==> valid_vertex(#[trigger] vs@[i]),
    ensures
        s@ == names_joined(vs@),
{
    let ghost f = |v: Vertex| v.name();
    let mut s = String::new();
    let mut i: usize = 0;
    while i < vs.len()
        invariant
            i <= vs@.len(),
            forall|j: int| 0 <= j < vs@.len() ==> valid_vertex(#[trigger] vs@[j]),
            f == (|v: Vertex| v.name()),
            s@ == join_words(vs@.take(i as int).map_values(f)),
        decreases vs@.len() - i,
    {
        let v = vs[i];
        assert(valid_vertex(vs@[i as int]));
        if i > 0 {
            push_char(&mut s, ' ');
        }
        let name = v.to_string();
        push_str(&mut s, name.as_str());
        proof {
            let t = vs@.take(i + 1).map_values(f);
            assert(t.drop_last() == vs@.take(i as int).map_values(f));
            assert(t.last() == v.name());
            if i == 0 {
                assert(t.len() == 1);
                assert(s@ == v.name());
            }
        }
        i = i + 1;
    }
    assert(vs@.take(vs@.len() as int) == vs@);
    s
}

/// A command of the text protocol that a game answers.
#[derive(Clone, Copy, Debug, PartialEq, Eq, Structural)]
pub enum Message {
    /// Start a new game on a board with this many squares a side.
    BoardSize(usize),
    /// An empty line.
    Empty,
    /// Play a turn.
    Play(Plae),
    /// List the squares the side to move can move from.
    PlayFrom,
    /// List the squares the piece of the side on this square can move to.
    PlayTo(Role, Vertex),
    /// Give the version of the protocol.
    ProtocolVersion,
    /// Stop.
    Quit,
    /// Draw the board.
    ShowBoard,
    /// Let the banal AI play the first turn it can, and tell it.
    GenerateMove,
    /// Start a new game on the same board size with these clocks.
    TimeSettings(TimeSettings),
}

/// What a game answers a command with.
#[derive(Clone, Debug)]
pub enum Reply {
    /// A line of text.
    Text(String),
    /// Nothing at all.
    Nothing,
    /// The program is to stop.
    Quit,
}

/// Why a game cannot answer a command.
#[derive(Clone, Copy, Debug, PartialEq, Eq, Structural)]
pub enum UpdateError {
    /// No board has that many squares a side.
    BoardSize(BoardSizeError),
    /// The turn was refused.
    Play(GameError),
    /// The moves of a side that is not to move were asked for.
    WrongTurn { tried: Role, turn: Role },
    /// The side to move cannot move from that square.
    InvalidFromVertex,
    /// The AI could not play a turn.
    GenerateMove,
}

impl UpdateError {
    /// The message for the error.
    pub fn message(&self) -> (s: String)
        ensures
            self matches UpdateError::BoardSize(e) ==> s@ == "expected 11 or 13, got "@
                + crate::text::decimal(e.value as nat),
            self matches UpdateError::Play(e) ==> s@ == game_error_text(*e),
            self matches UpdateError::WrongTurn { tried, turn } ==> s@ == "tried play_to "@
                + tried.spec_to_str() + ", but it's "@ + turn.spec_to_str() + " turn"@,
            *self == UpdateError::InvalidFromVertex ==> s@ == "invalid from vertex"@,
            *self == UpdateError::GenerateMove ==> s@ == "failed to generate move"@,
    {
        match self {
            UpdateError::BoardSize(e) => {
                let mut s = String::new();
                push_str(&mut s, "expected 11 or 13, got ");
                crate::text::push_decimal(&mut s, e.value as u128);
                s
            },
            UpdateError::Play(e) => e.message(),
            UpdateError::WrongTurn { tried, turn } => {
                let mut s = String::new();
                push_str(&mut s, "tried play_to ");
                push_str(&mut s, tried.to_str());
                push_str(&mut s, ", but it's ");
                push_str(&mut s, turn.to_str());
                push_str(&mut s, " turn");
                s
            },
            UpdateError::InvalidFromVertex => "invalid from vertex".to_string(),
            UpdateError::GenerateMove => "failed to generate move".to_string(),
        }
    }
}

/// What a turn's outcome is answered with: its captures, each followed by a space, or its
/// error.
pub open spec fn play_reply(pr: Result<Seq<Vertex>, GameError>, r: Result<Reply, UpdateError>) -> bool {
    match pr {
        Ok(caps) => r matches Ok(Reply::Text(s)) && s@ == vertices_text(caps),
        Err(e) => r == Err::<Reply, UpdateError>(UpdateError::Play(e)),
    }
}

impl Game {
    /// `g` is a new game on a board of the given size whose clocks are `ts`, started at `now`
    /// when they are timed.
    pub open spec fn restarted(g: Game, size: BoardSize, ts: TimeSettings, now: i64) -> bool {
        exists|h: Game|
            #![trigger h.is_new(size)]
            h.is_new(size) && g.board == h.board && g.previous_boards == h.previous_boards
                && g.status == h.status && g.turn == h.turn && g.plays.spec_len() == 0 && (
            g.plays is PlayRecordsTimed) == (ts is Timed) && g.attacker_time == ts
                && g.defender_time == ts && g.time == if ts is Timed {
                TimeUnix::Time(now)
            } else {
                TimeUnix::UnTimed
            }
    }

    /// What answering the command `m` at time `now` gives: the game `g` after it and the
    /// answer or the error `r`.
    pub open spec fn updated(self, m: Message, now: i64, g: Game, r: Result<Reply, UpdateError>) -> bool {
        match m {
            Message::BoardSize(n) => if n == 11 || n == 13 {
                let size = if n == 11 {
                    BoardSize::_11
                } else {
                    BoardSize::_13
                };
                &&& g.is_new(size)
                &&& g.time == TimeUnix::Time(now)
                &&& r matches Ok(Reply::Text(s)) && s@.len() == 0
            } else {
                r == Err::<Reply, UpdateError>(UpdateError::BoardSize(BoardSizeError { value: n }))
                    && g.same(self)
            },
            Message::Empty => (r matches Ok(Reply::Nothing)) && g.same(self),
            Message::Play(p) => if self.status == Status::Ongoing && !self.clock_fits(now) {
                r == Err::<Reply, UpdateError>(UpdateError::Play(GameError::ClockOverflow)) && g.same(
                    self,
                )
            } else {
                exists|pr: Result<Seq<Vertex>, GameError>|
                    #[trigger] self.play_outcome(p, now, g, pr) && play_reply(pr, r)
            },
            Message::PlayFrom => {
                &&& g.same(self)
                &&& r matches Ok(Reply::Text(s)) && s@ == self.turn.spec_to_str() + " "@
                    + names_joined(froms(self.spec_legal_moves()))
            },
            Message::PlayTo(role, v) => {
                let e = self.spec_legal_moves();
                &&& g.same(self)
                &&& if role != self.turn {
                    r == Err::<Reply, UpdateError>(UpdateError::WrongTurn { tried: role, turn: self.turn })
                } else {
                    match r {
                        Ok(Reply::Text(s)) => exists|k: int|
                            #[trigger] first_from(e, v, k) && s@ == names_joined(e[k].1),
                        Err(UpdateError::InvalidFromVertex) => forall|k: int|
                            0 <= k < e.len() ==> (#[trigger] e[k]).0 != v,
                        _ => false,
                    }
                }
            },
            Message::ProtocolVersion => g.same(self) && (r matches Ok(Reply::Text(s)) && s@
                == "1-beta"@),
            Message::Quit => g.same(self) && (r matches Ok(Reply::Quit)),
            Message::ShowBoard => {
                let mark = if self.board.display_ascii {
                    "#"@
                } else {
                    "⌘"@
                };
                &&& g.same(self)
                &&& r matches Ok(Reply::Text(s)) && (s@ == board_text(self.board, mark) || s@
                    == board_text(self.board, green_text(mark)))
            },
            Message::GenerateMove => if self.status != Status::Ongoing || !self.clock_fits(now) {
                r == Err::<Reply, UpdateError>(UpdateError::GenerateMove) && g.same(self)
            } else {
                let p = self.spec_all_legal_plays()[0];
                exists|pr: Result<Seq<Vertex>, GameError>|
                    #[trigger] self.play_outcome(p, now, g, pr) && match pr {
                        Ok(_) => r matches Ok(Reply::Text(s)) && s@ == plae_text(p)
                            + ", score: 0, delay milliseconds: 0"@,
                        Err(_) => r == Err::<Reply, UpdateError>(UpdateError::GenerateMove),
                    }
            },
            Message::TimeSettings(ts) => {
                &&& Game::restarted(g, self.board.spec_size(), ts, now)
                &&& r matches Ok(Reply::Text(s)) && s@.len() == 0
            },
        }
    }
}

/// The captures of a turn that succeeds lie on the board.
proof fn lemma_outcome_captures_within(g: Game, play: Plae, now: i64, g2: Game, caps: Seq<Vertex>)
    requires
        g.wf(),
        g.status == Status::Ongoing ==> (play matches Plae::Play(p) ==> g.board.play_on_board(p)
            && p.to.size == g.board.spec_size()),
        g.play_outcome(play, now, g2, Ok::<Seq<Vertex>, GameError>(caps)),
    ensures
        all_within(caps, g.board.spec_size()),
{
    let c = g.clocked(now);
    if g.status == Status::Ongoing && !(g.clock_runs() && g.clock_left(now) <= 0) {
        assert(c.board == g.board && c.status == g.status && c.turn == g.turn
            && c.previous_boards == g.previous_boards);
        if let Plae::Play(p) = play {
            let (b, cv, st) = choose|b: crate::board::Board, cv: Vec<Vertex>, st: Status|
                #![trigger c.board.play_result(play, c.status, c.turn, c.previous_boards, Ok::<(crate::board::Board, Vec<Vertex>, Status), PlayError>((b, cv, st)))]
                c.board.play_result(
                    play,
                    c.status,
                    c.turn,
                    c.previous_boards,
                    Ok::<(crate::board::Board, Vec<Vertex>, Status), PlayError>((b, cv, st)),
                ) && c.moved(p, b, cv@, st, g2, Ok::<Seq<Vertex>, GameError>(caps));
            lemma_play_captures_within(c.board, play, c.status, c.turn, c.previous_boards, b, cv, st);
        }
    }
}

impl Game {
    /// Answers a command of the text protocol at time `now`: starts a new game, plays a turn
    /// (its captures are the answer), lists the moves of the side to move, draws the board,
    /// or resets the clocks.
    /// Answers `GenerateMove` at time `now`.
    fn update_generate(&mut self, now: i64) -> (r: Result<Reply, UpdateError>)
        requires
            old(self).wf(),
        ensures
            old(self).updated(Message::GenerateMove, now, *final(self), r),
            final(self).wf(),
    {
        let ghost g0 = *self;
        match crate::ai::AiBanal.generate_move_at(self, now) {
            Ok(p) => {
                let mut s = p.to_string();
                push_str(&mut s, ", score: 0, delay milliseconds: 0");
                Ok(Reply::Text(s))
            },
            Err(_) => {
                proof {
                    if g0.status != Status::Ongoing || !g0.clock_fits(now) {
                        self.lemma_same_self();
                    }
                }
                Err(UpdateError::GenerateMove)
            },
        }
    }

    #[verifier::rlimit(30)]
    #[verifier::spinoff_prover]
    #[verifier::loop_isolation(false)]
    pub fn update_at(&mut self, message: &Message, now: i64) -> (r: Result<Reply, UpdateError>)
        requires
            old(self).wf(),
            old(self).status == Status::Ongoing ==> (*message matches Message::Play(Plae::Play(p))
                ==> old(self).board.play_on_board(p) && p.to.size == old(self).board.spec_size()),
        ensures
            old(self).updated(*message, now, *final(self), r),
            final(self).wf(),
    {
        match message {
            Message::BoardSize(n) => {
                match BoardSize::try_from_usize(*n) {
                    Ok(size) => {
                        *self = Game::new_at(size, now);
                        Ok(Reply::Text(String::new()))
                    },
                    Err(e) => {
                        proof {
                            self.lemma_same_self();
                        }
                        Err(UpdateError::BoardSize(e))
                    },
                }
            },
            Message::Empty => {
                proof {
                    self.lemma_same_self();
                }
                Ok(Reply::Nothing)
            },
            Message::Play(p) => {
                if self.status == Status::Ongoing && !self.clock_fits_exec(now) {
                    proof {
                        self.lemma_same_self();
                    }
                    return Err(UpdateError::Play(GameError::ClockOverflow));
                }
                let ghost g0 = *self;
                let result = self.play_at(p, now);
                proof {
                    assert(g0.play_outcome(*p, now, *self, captures_view(result)));
                }
                match result {
                    Ok(captures) => {
                        proof {
                            lemma_outcome_captures_within(g0, *p, now, *self, captures.0@);
                            lemma_within_valid_vertex(captures.0@, g0.board.spec_size());
                        }
                        let s = captures.to_string();
                        let r = Ok(Reply::Text(s));
                        assert(play_reply(captures_view(result), r));
                        r
                    },
                    Err(e) => {
                        let r = Err(UpdateError::Play(e));
                        assert(play_reply(captures_view(result), r));
                        r
                    },
                }
            },
            Message::PlayFrom => {
                let moves = self.all_legal_moves();
                let ghost e = moves.entries();
                proof {
                    self.lemma_legal_moves_within();
                }
                let mut vs: Vec<Vertex> = Vec::new();
                let mut i: usize = 0;
                while i < moves.moves.len()
                    invariant
                        i <= moves.moves@.len(),
                        e == moves.entries(),
                        entries_within(e, self.board.spec_size()),
                        vs@ == froms(e.take(i as int)),
                    decreases moves.moves@.len() - i,
                {
                    vs.push(moves.moves[i].0);
                    proof {
                        assert(froms(e.take(i + 1)) == froms(e.take(i as int)).push(e[i as int].0));
                    }
                    i = i + 1;
                }
                assert(e.take(e.len() as int) == e);
                proof {
                    assert forall|j: int| 0 <= j < vs@.len() implies valid_vertex(#[trigger] vs@[j]) by {
                        assert(within(e[j].0, self.board.spec_size()));
                    }
                }
                let mut s = String::new();
                push_str(&mut s, moves.role.to_str());
                push_str(&mut s, " ");
                let names = names_text(&vs);
                push_str(&mut s, names.as_str());
                proof {
                    self.lemma_same_self();
                }
                Ok(Reply::Text(s))
            },
            Message::PlayTo(role, v) => {
                let moves = self.all_legal_moves();
                proof {
                    self.lemma_same_self();
                    self.lemma_legal_moves_within();
                }
                if *role != moves.role {
                    return Err(UpdateError::WrongTurn { tried: *role, turn: moves.role });
                }
                let ghost e = moves.entries();
                let mut i: usize = 0;
                while i < moves.moves.len()
                    invariant
                        i <= moves.moves@.len(),
                        e == moves.entries(),
                        entries_within(e, self.board.spec_size()),
                        forall|k: int| 0 <= k < i ==> (#[trigger] e[k]).0 != *v,
                    decreases moves.moves@.len() - i,
                {
                    if moves.moves[i].0 == *v {
                        let tos = &moves.moves[i].1;
                        assert(e[i as int].1 == tos@);
                        proof {
                            assert(first_from(e, *v, i as int));
                            lemma_within_valid_vertex(tos@, self.board.spec_size());
                        }
                        let s = names_text(tos);
                        return Ok(Reply::Text(s));
                    }
                    i = i + 1;
                }
                Err(UpdateError::InvalidFromVertex)
            },
            Message::ProtocolVersion => {
                proof {
                    self.lemma_same_self();
                }
                Ok(Reply::Text("1-beta".to_string()))
            },
            Message::Quit => {
                proof {
                    self.lemma_same_self();
                }
                Ok(Reply::Quit)
            },
            Message::ShowBoard => {
                proof {
                    self.lemma_same_self();
                }
                Ok(Reply::Text(self.board.to_string()))
            },
            Message::GenerateMove => self.update_generate(now),
            Message::TimeSettings(ts) => {
                let size = self.board.size();
                let fresh = Game::new_at(size, now);
                let ghost h = fresh;
                *self = fresh;
                self.plays = Plays::new(ts);
                match ts {
                    TimeSettings::Timed(t) => {
                        self.attacker_time = TimeSettings::Timed(*t);
                        self.defender_time = TimeSettings::Timed(*t);
                        self.time = TimeUnix::Time(now);
                    },
                    TimeSettings::UnTimed => {
                        self.attacker_time = TimeSettings::UnTimed;
                        self.defender_time = TimeSettings::UnTimed;
                        self.time = TimeUnix::UnTimed;
                    },
                }
                assert(h.is_new(size));
                Ok(Reply::Text(String::new()))
            },
        }
    }

    /// Answers a command of the text protocol now: reads the clock, and answers as
    /// `update_at` does at that reading.
    pub fn update(&mut self, message: &Message) -> (r: Result<Reply, UpdateError>)
        requires
            old(self).wf(),
            old(self).status == Status::Ongoing ==> (*message matches Message::Play(Plae::Play(p))
                ==> old(self).board.play_on_board(p) && p.to.size == old(self).board.spec_size()),
        ensures
            exists|now: i64| #[trigger] old(self).updated(*message, now, *final(self), r),
            final(self).wf(),
    {
        let now = crate::game::utc_now_millis();
        self.update_at(message, now)
    }
}

} // verus!
