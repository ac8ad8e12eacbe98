use vstd::prelude::*;

use std::time::Duration;

use crate::board::BoardSize;
use crate::board_shield::{all_within, within};
use crate::game::{captures_view, Game, GameError};
use crate::game_moves::{entries_within, plays_of};
use crate::play::Plae;
use crate::status::Status;

verus! {

/// The simplest player: it plays the first turn it can.
#[derive(Clone, Copy, Debug, PartialEq, Eq, Structural)]
pub struct AiBanal;

/// A player that searches the game tree to a fixed depth.
#[derive(Clone, Copy, Debug, PartialEq, Eq, Structural)]
pub struct AiBasic {
    depth: u8,
    sequential: bool,
}

impl AiBasic {
    /// The search depth.
    pub closed spec fn spec_depth(self) -> u8 {
        self.depth
    }

    /// Whether the search runs on one thread.
    pub closed spec fn spec_sequential(self) -> bool {
        self.sequential
    }

    /// A player searching to `depth`, on one thread when `sequential`.
    pub fn new(depth: u8, sequential: bool) -> (a: AiBasic)
        ensures
            a.spec_depth() == depth,
            a.spec_sequential() == sequential,
    {
        AiBasic { depth, sequential }
    }
}

/// A player that runs Monte Carlo tree searches for a while, to a fixed depth.
#[derive(Clone, Copy, Debug)]
pub struct AiMonteCarlo {
    duration: Duration,
    depth: u8,
}

impl AiMonteCarlo {
    /// How long the searches run.
    pub closed spec fn spec_duration(self) -> Duration {
        self.duration
    }

    /// How deep the searches go.
    pub closed spec fn spec_depth(self) -> u8 {
        self.depth
    }

    /// A player searching for `duration`, to `depth`.
    pub fn new(duration: Duration, depth: u8) -> (a: AiMonteCarlo)
        ensures
            a.spec_duration() == duration,
            a.spec_depth() == depth,
    {
        AiMonteCarlo { duration, depth }
    }
}


/// Every turn the listed moves make is a move between squares of the board, or a
/// resignation.
pub proof fn lemma_plays_within(e: Seq<(crate::play::Vertex, Seq<crate::play::Vertex>)>, role: crate::role::Role, size: BoardSize)
    requires
        entries_within(e, size),
    ensures
        forall|i: int|
            0 <= i < plays_of(e, role).len() ==> (#[trigger] plays_of(e, role)[i] matches Plae::Play(p)
                ==> within(p.from, size) && within(p.to, size)),
    decreases e.len(),
{
    if e.len() > 0 {
        let d = e.drop_last();
        assert(entries_within(d, size)) by {
            assert forall|i: int| 0 <= i < d.len() implies within((#[trigger] d[i]).0, size)
                && all_within(d[i].1, size) by {
                assert(d[i] == e[i]);
            }
        }
        lemma_plays_within(d, role, size);
        let last = e.last();
        assert(within(e[e.len() - 1].0, size) && all_within(e[e.len() - 1].1, size));
        let front = plays_of(d, role);
        let back = last.1.map_values(
            |to: crate::play::Vertex| Plae::Play(crate::play::Play { role, from: last.0, to }),
        );
        assert(plays_of(e, role) == front + back);
        assert forall|i: int|
            0 <= i < plays_of(e, role).len() implies (#[trigger] plays_of(e, role)[i] matches Plae::Play(p)
                ==> within(p.from, size) && within(p.to, size)) by {
            if i < front.len() {
                assert(plays_of(e, role)[i] == front[i]);
            } else {
                assert(plays_of(e, role)[i] == back[i - front.len()]);
                assert(within(last.1[i - front.len()], size));
            }
        }
    }
}


/// Every listed square of a row has somewhere to move to.
proof fn lemma_row_entries_nonempty(g: Game, y: int, x: int)
    ensures
        forall|i: int| 0 <= i < g.row_entries(y, x).len() ==> (#[trigger] g.row_entries(y, x)[i]).1.len() > 0,
    decreases x,
{
    if x > 0 {
        lemma_row_entries_nonempty(g, y, x - 1);
        let prev = g.row_entries(y, x - 1);
        let v = crate::play::Vertex { size: g.board.spec_size(), x: (x - 1) as usize, y: y as usize };
        let me = g.move_entry(v);
        assert(g.row_entries(y, x) == prev + me);
        assert forall|i: int| 0 <= i < g.row_entries(y, x).len() implies (#[trigger] g.row_entries(y, x)[i]).1.len() > 0 by {
            if i < prev.len() {
                assert(g.row_entries(y, x)[i] == prev[i]);
            } else {
                assert(g.row_entries(y, x)[i] == me[i - prev.len()]);
            }
        }
    }
}

/// Every listed square of the first rows has somewhere to move to.
proof fn lemma_legal_entries_nonempty(g: Game, y: int)
    ensures
        forall|i: int| 0 <= i < g.legal_entries(y).len() ==> (#[trigger] g.legal_entries(y)[i]).1.len() > 0,
    decreases y,
{
    if y > 0 {
        lemma_legal_entries_nonempty(g, y - 1);
        lemma_row_entries_nonempty(g, y - 1, g.board.n() as int);
        let prev = g.legal_entries(y - 1);
        let row = g.row_entries(y - 1, g.board.n() as int);
        assert forall|i: int| 0 <= i < g.legal_entries(y).len() implies (#[trigger] g.legal_entries(y)[i]).1.len() > 0 by {
            if i < prev.len() {
                assert(g.legal_entries(y)[i] == prev[i]);
            } else {
                assert(g.legal_entries(y)[i] == row[i - prev.len()]);
            }
        }
    }
}

/// Listed moves with somewhere to go make at least one turn.
proof fn lemma_plays_nonempty(e: Seq<(crate::play::Vertex, Seq<crate::play::Vertex>)>, role: crate::role::Role)
    requires
        e.len() > 0,
        forall|i: int| 0 <= i < e.len() ==> (#[trigger] e[i]).1.len() > 0,
    ensures
        plays_of(e, role).len() > 0,
{
    assert(e.last().1.len() > 0) by {
        assert(e[e.len() - 1] == e.last());
    }
}

impl AiBanal {
    /// Plays, at time `now`, the first turn the side to move can play, and gives it: the
    /// game must be going on, and the clock arithmetic at `now` must fit in 64 bits.
    pub fn generate_move_at(&self, game: &mut Game, now: i64) -> (r: Result<Plae, GameError>)
        requires
            old(game).wf(),
        ensures
            final(game).wf(),
            old(game).status != Status::Ongoing ==> r == Err::<Plae, GameError>(GameError::GameOver)
                && *final(game) == *old(game),
            old(game).status == Status::Ongoing && !old(game).clock_fits(now) ==> r == Err::<
                Plae,
                GameError,
            >(GameError::ClockOverflow) && *final(game) == *old(game),
            old(game).status == Status::Ongoing && old(game).clock_fits(now) ==> {
                let p = old(game).spec_all_legal_plays()[0];
                &&& p matches Plae::Play(q) ==> q.from.valid() && q.to.valid()
                &&& exists|pr: Result<Seq<crate::play::Vertex>, GameError>|
                    #[trigger] old(game).play_outcome(p, now, *final(game), pr) && match pr {
                        Ok(_) => r == Ok::<Plae, GameError>(p),
                        Err(e) => r == Err::<Plae, GameError>(e),
                    }
            },
    {
        if game.status != Status::Ongoing {
            return Err(GameError::GameOver);
        }
        if !game.clock_fits_exec(now) {
            return Err(GameError::ClockOverflow);
        }
        let plays = game.all_legal_plays();
        proof {
            game.lemma_legal_moves_within();
            lemma_plays_within(game.spec_legal_moves(), game.turn, game.board.spec_size());
        }
        if plays.len() == 0 {
            proof {
                lemma_legal_entries_nonempty(*game, game.board.n() as int);
                if game.spec_legal_moves().len() > 0 {
                    lemma_plays_nonempty(game.spec_legal_moves(), game.turn);
                }
            }
            assert(false);
            return Err(GameError::GameOver);
        }
        let play = plays[0];
        let ghost g0 = *game;
        let result = game.play_at(&play, now);
        proof {
            assert(g0.play_outcome(play, now, *game, captures_view(result)));
        }
        match result {
            Ok(_captures) => Ok(play),
            Err(e) => Err(e),
        }
    }

    /// Plays now the first turn the side to move can play, and gives it (see
    /// `generate_move_at`): reads the clock when the side to move's clock runs.
    pub fn generate_move(&self, game: &mut Game) -> (r: Result<Plae, GameError>)
        requires
            old(game).wf(),
        ensures
            final(game).wf(),
            old(game).status != Status::Ongoing ==> r == Err::<Plae, GameError>(GameError::GameOver)
                && *final(game) == *old(game),
            old(game).status == Status::Ongoing ==> r == Err::<Plae, GameError>(GameError::ClockOverflow)
                || exists|now: i64, pr: Result<Seq<crate::play::Vertex>, GameError>|
                #[trigger] old(game).play_outcome(old(game).spec_all_legal_plays()[0], now, *final(game), pr)
                    && match pr {
                    Ok(_) => r == Ok::<Plae, GameError>(old(game).spec_all_legal_plays()[0]),
                    Err(e) => r == Err::<Plae, GameError>(e),
                },
    {
        let now = if game.status == Status::Ongoing && game.clock_runs_exec() {
            crate::game::utc_now_millis()
        } else {
            0
        };
        self.generate_move_at(game, now)
    }
}

} // verus!
