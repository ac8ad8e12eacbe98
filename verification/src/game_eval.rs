use vstd::prelude::*;

use crate::board::{count, lemma_count_bound, lemma_count_take, Board};
use crate::board_play::PlayError;
use crate::board_scan::spec_exit_squares;
use crate::game::{Game, GameError};
use crate::game_moves::LegalMoves;
use crate::play::{Plae, Play, Vertex};
use crate::role::Role;
use crate::space::Space;
use crate::status::Status;

verus! {

/// The turn is a move to `v`.
pub open spec fn hits(p: Plae, v: Vertex) -> bool {
    p matches Plae::Play(q) && q.to == v
}

/// `r` is the first turn of `plays` that moves to `v`, or none when no turn does.
pub open spec fn first_hit(plays: Seq<Plae>, v: Vertex, r: Option<Plae>) -> bool {
    match r {
        Some(x) => exists|i: int|
            0 <= i < plays.len() && plays[i] == x && #[trigger] hits(plays[i], v) && forall|j: int|
                0 <= j < i ==> !#[trigger] hits(plays[j], v),
        None => forall|i: int| 0 <= i < plays.len() ==> !#[trigger] hits(plays[i], v),
    }
}

/// `e` is the first entry of the listed moves that moves from `k`.
pub open spec fn first_from(entries: Seq<(Vertex, Seq<Vertex>)>, k: Vertex, e: int) -> bool {
    &&& 0 <= e < entries.len()
    &&& entries[e].0 == k
    &&& forall|f: int| 0 <= f < e ==> (#[trigger] entries[f]).0 != k
}

/// `t` is the first of the squares that is a corner.
pub open spec fn first_corner(tos: Seq<Vertex>, t: int) -> bool {
    &&& 0 <= t < tos.len()
    &&& tos[t].spec_on_exit_square()
    &&& forall|u: int| 0 <= u < t ==> !(#[trigger] tos[u]).spec_on_exit_square()
}

/// `r` is the defenders' move of the king from `k` to the first corner among the squares
/// listed for `k`, or none when there is none.
pub open spec fn king_to_corner(entries: Seq<(Vertex, Seq<Vertex>)>, k: Vertex, r: Option<Plae>) -> bool {
    match r {
        Some(x) => exists|e: int, t: int|
            #[trigger] first_from(entries, k, e) && #[trigger] first_corner(entries[e].1, t) && x
                == Plae::Play(Play { role: Role::Defender, from: k, to: entries[e].1[t] }),
        None => forall|e: int, t: int|
            #[trigger] first_from(entries, k, e) ==> !#[trigger] first_corner(entries[e].1, t),
    }
}

impl Game {
    /// The clock of the side to move does not run in a game that goes on, and the record can
    /// take every turn.
    pub open spec fn steady(self) -> bool {
        &&& !(self.status == Status::Ongoing && self.clock_runs())
        &&& !self.record_fails()
    }

    /// The king, with its side to move, can reach a corner in one move.
    pub open spec fn spec_exit_one(self) -> bool {
        &&& self.status == Status::Ongoing
        &&& self.board.king matches Some(k)
        &&& self.board.at(k).spec_role() == self.turn
        &&& exists|i: int|
            0 <= i < 4 && self.board.move_error(
                Play { role: self.turn, from: k, to: #[trigger] spec_exit_squares(self.board.spec_size())[i] },
                self.status,
                self.turn,
                self.previous_boards,
            ) is None
    }
}

/// Games that agree in every field judge every move alike.
pub proof fn lemma_same_game(a: Game, b: Game, p: Play)
    requires
        a.same(b),
    ensures
        a.board.move_error(p, a.status, a.turn, a.previous_boards) == b.board.move_error(
            p,
            b.status,
            b.turn,
            b.previous_boards,
        ),
        a.board.at(p.from) == b.board.at(p.from),
        a.clock_runs() == b.clock_runs(),
        a.record_fails() == b.record_fails(),
        a.steady() == b.steady(),
{
    assert forall|x: int, y: int|
        #![trigger a.board.at_xy(x, y)]
        #![trigger b.board.at_xy(x, y)]
        a.board.at_xy(x, y) == b.board.at_xy(x, y) by {}
    assert(a.board.path_clear(p.from, p.to) == b.board.path_clear(p.from, p.to)) by {
        if a.board.path_clear(p.from, p.to) {
            assert(b.board.path_clear(p.from, p.to));
        }
        if b.board.path_clear(p.from, p.to) {
            assert(a.board.path_clear(p.from, p.to));
        }
    }
    let m = a.board.moved_spaces(p.from, p.to);
    assert(m == b.board.moved_spaces(p.from, p.to));
    assert(a.previous_boards.spec_contains(m) == b.previous_boards.spec_contains(m)) by {
        if a.previous_boards.spec_contains(m) {
            let i = choose|i: int|
                0 <= i < a.previous_boards.0@.len() && (#[trigger] a.previous_boards.0@[i]).spaces@
                    == m;
            assert(a.previous_boards.0@[i].equals(b.previous_boards.0@[i]));
        }
        if b.previous_boards.spec_contains(m) {
            let i = choose|i: int|
                0 <= i < b.previous_boards.0@.len() && (#[trigger] b.previous_boards.0@[i]).spaces@
                    == m;
            assert(a.previous_boards.0@[i].equals(b.previous_boards.0@[i]));
        }
    }
    assert(a.record_fails() == b.record_fails()) by {
        match (a.plays, b.plays) {
            (crate::play::Plays::PlayRecordsTimed(x), crate::play::Plays::PlayRecordsTimed(y)) => {},
            (crate::play::Plays::PlayRecords(x), crate::play::Plays::PlayRecords(y)) => {},
            _ => {},
        }
    }
}

impl Game {
    /// The move of the piece on `k`, for the side to move, to the `i`-th corner.
    pub open spec fn corner_play(self, k: Vertex, i: int) -> Play {
        Play { role: self.turn, from: k, to: spec_exit_squares(self.board.spec_size())[i] }
    }

    /// Playing the move to the `i`-th corner at `now` succeeds: either the clock of the side
    /// to move has run out by then (which ends the game without the move), or the piece on
    /// `k` is of the side to move, the rules allow the move and the record can take it.
    pub open spec fn corner_ok(self, k: Vertex, i: int, now: i64) -> bool {
        ||| self.clock_runs() && self.clock_left(now) <= 0
        ||| {
            &&& self.board.at(k).spec_role() == self.turn
            &&& self.board.move_error(self.corner_play(k, i), self.status, self.turn, self.previous_boards) is None
            &&& !self.record_fails()
        }
    }

    /// With the clock read at `now`, playing the king to some corner succeeds.
    pub open spec fn spec_exit_one_at(self, now: i64) -> bool {
        &&& self.status == Status::Ongoing
        &&& self.board.king matches Some(k)
        &&& exists|i: int| 0 <= i < 4 && #[trigger] self.corner_ok(k, i, now)
    }

    /// What `exit_one` answers when the clock reads `now`: no while the clock arithmetic at
    /// `now` does not fit in 64 bits, else whether the king can reach a corner at `now`.
    pub open spec fn exit_one_reading(self, now: i64, r: bool) -> bool {
        if self.status == Status::Ongoing && !self.clock_fits(now) {
            !r
        } else {
            r == self.spec_exit_one_at(now)
        }
    }
}

/// Playing the king to a corner on a game that agrees with `game` in every field succeeds
/// exactly when `corner_ok` says so.
pub proof fn lemma_corner_outcome(
    game: Game,
    g: Game,
    k: Vertex,
    i: int,
    now: i64,
    g2: Game,
    r: Result<Seq<Vertex>, GameError>,
)
    requires
        g.same(game),
        game.status == Status::Ongoing,
        g.play_outcome(Plae::Play(game.corner_play(k, i)), now, g2, r),
    ensures
        r is Ok <==> game.corner_ok(k, i, now),
{
    let p = game.corner_play(k, i);
    lemma_same_game(g, game, p);
    assert(g.own_timer() == game.own_timer());
    assert(g.clock_left(now) == game.clock_left(now));
    if !(g.clock_runs() && g.clock_left(now) <= 0) {
        let c = g.clocked(now);
        assert(c.board == g.board && c.status == g.status && c.turn == g.turn
            && c.previous_boards == g.previous_boards);
        assert(c.record_fails() == g.record_fails());
        let piece = c.board.at(p.from).spec_role();
        if piece == p.role && c.board.move_error(p, c.status, c.turn, c.previous_boards) is None {
            let (b, cv, st) = choose|b: Board, cv: Vec<Vertex>, st: Status|
                #![trigger c.board.play_result(Plae::Play(p), c.status, c.turn, c.previous_boards, Ok::<(Board, Vec<Vertex>, Status), PlayError>((b, cv, st)))]
                c.board.play_result(
                    Plae::Play(p),
                    c.status,
                    c.turn,
                    c.previous_boards,
                    Ok::<(Board, Vec<Vertex>, Status), PlayError>((b, cv, st)),
                ) && c.moved(p, b, cv@, st, g2, r);
        }
    }
}

impl Game {
    /// Whether, with the clock read at `now`, the king could reach a corner in one move:
    /// tries each corner in turn on a fresh copy of the game.
    pub fn exit_one_at(&self, now: i64) -> (r: bool)
        requires
            self.wf(),
            self.status == Status::Ongoing ==> self.clock_fits(now),
        ensures
            r == self.spec_exit_one_at(now),
    {
        if self.status != Status::Ongoing {
            return false;
        }
        let king = match self.board.king {
            Some(k) => k,
            None => return false,
        };
        let exits = self.board.exit_squares();
        let ghost ex = spec_exit_squares(self.board.spec_size());
        let mut i: usize = 0;
        while i < exits.len()
            invariant
                self.wf(),
                self.status == Status::Ongoing,
                self.clock_fits(now),
                self.board.king == Some(king),
                exits@ == ex,
                ex == spec_exit_squares(self.board.spec_size()),
                i <= 4,
                forall|j: int| 0 <= j < i ==> !#[trigger] self.corner_ok(king, j, now),
            decreases 4 - i,
        {
            let mut game = self.copy();
            let p = Play { role: self.turn, from: king, to: exits[i] };
            assert(p == self.corner_play(king, i as int));
            let ghost before = game;
            let result = game.play_at(&Plae::Play(p), now);
            proof {
                lemma_corner_outcome(*self, before, king, i as int, now, game, crate::game::captures_view(result));
            }
            if result.is_ok() {
                return true;
            }
            i = i + 1;
        }
        false
    }

    /// Whether the king, with its side to move, could reach a corner in one move. Reads the
    /// clock once, when the clock of the side to move runs, and answers as `exit_one_at` does
    /// at that reading; a reading so far off that the clock arithmetic would not fit in 64
    /// bits gives no.
    pub fn exit_one(&self) -> (r: bool)
        requires
            self.wf(),
        ensures
            exists|now: i64| #[trigger] self.exit_one_reading(now, r),
            self.spec_exit_one() && !self.record_fails() && !r ==> self.status == Status::Ongoing
                && self.clock_runs(),
            self.steady() ==> r == self.spec_exit_one(),
    {
        let now = if self.status == Status::Ongoing && self.clock_runs_exec() {
            crate::game::utc_now_millis()
        } else {
            0
        };
        if self.status == Status::Ongoing && !self.clock_fits_exec(now) {
            assert(self.exit_one_reading(now, false));
            return false;
        }
        let r = self.exit_one_at(now);
        proof {
            assert(self.exit_one_reading(now, r));
            if self.spec_exit_one() {
                let k = self.board.king->Some_0;
                let i = choose|i: int|
                    0 <= i < 4 && self.board.move_error(
                        Play { role: self.turn, from: k, to: #[trigger] spec_exit_squares(self.board.spec_size())[i] },
                        self.status,
                        self.turn,
                        self.previous_boards,
                    ) is None;
                assert(self.corner_play(k, i) == Play {
                    role: self.turn,
                    from: k,
                    to: spec_exit_squares(self.board.spec_size())[i],
                });
                if !self.record_fails() {
                    assert(self.corner_ok(k, i, now));
                }
            }
            if self.steady() && r {
                let k = self.board.king->Some_0;
                let i = choose|i: int| 0 <= i < 4 && #[trigger] self.corner_ok(k, i, now);
                assert(self.corner_play(k, i).to == spec_exit_squares(self.board.spec_size())[i]);
            }
        }
        r
    }

    /// How good the game is for the defenders: the most when they have won, the least when
    /// the attackers have, nothing for a draw; while it goes on, twice the defenders left less
    /// the attackers left, and a hundred more when the king can reach a corner in one move.
    pub fn utility(&self) -> (r: i32)
        requires
            self.wf(),
        ensures
            match self.status {
                Status::AttackerWins => r == i32::MIN,
                Status::Draw => r == 0,
                Status::DefenderWins => r == i32::MAX,
                Status::Ongoing => {
                    let base = 2 * count(self.board.spaces@, Space::Defender) - count(
                        self.board.spaces@,
                        Space::Attacker,
                    );
                    let bonus = r == base + 100;
                    &&& r == base || r == base + 100
                    &&& exists|now: i64| #[trigger] self.exit_one_reading(now, bonus)
                    &&& self.steady() ==> r == base + if self.spec_exit_one() {
                        100int
                    } else {
                        0int
                    }
                },
            },
    {
        match self.status {
            Status::Ongoing => {},
            Status::AttackerWins => return i32::MIN,
            Status::Draw => return 0,
            Status::DefenderWins => return i32::MAX,
        }
        let mut defender_left: i32 = 0;
        let mut attacker_left: i32 = 0;
        let mut i: usize = 0;
        proof {
            lemma_count_bound(self.board.spaces@, Space::Defender);
            lemma_count_bound(self.board.spaces@, Space::Attacker);
        }
        while i < self.board.spaces.len()
            invariant
                self.board.wf(),
                i <= self.board.spaces@.len(),
                defender_left == count(self.board.spaces@.take(i as int), Space::Defender),
                attacker_left == count(self.board.spaces@.take(i as int), Space::Attacker),
                defender_left <= i,
                attacker_left <= i,
            decreases self.board.spaces@.len() - i,
        {
            proof {
                lemma_count_take(self.board.spaces@, i as int, Space::Defender);
                lemma_count_take(self.board.spaces@, i as int, Space::Attacker);
            }
            match self.board.spaces[i] {
                Space::Attacker => {
                    attacker_left = attacker_left + 1;
                },
                Space::Empty | Space::King => {},
                Space::Defender => {
                    defender_left = defender_left + 1;
                },
            }
            i = i + 1;
        }
        proof {
            assert(self.board.spaces@.take(self.board.spaces@.len() as int) == self.board.spaces@);
        }
        let mut utility: i32 = 0;
        utility = utility + defender_left * 2;
        utility = utility - attacker_left;
        let base = utility;
        let e = self.exit_one();
        if e {
            utility = utility + 100;
        }
        proof {
            let now = choose|now: i64| #[trigger] self.exit_one_reading(now, e);
            assert(e == (utility == base + 100));
            assert(self.exit_one_reading(now, utility == base + 100));
        }
        utility
    }

    /// A turn that wins at once or nearly: for the attackers, the first of their turns that
    /// moves to the one open side of the king; for the defenders, the king's move to the first
    /// corner it can reach.
    #[verifier::loop_isolation(false)]
    pub fn obvious_play(&self) -> (r: Option<Plae>)
        requires
            self.board.wf(),
            self.turn != Role::Roleless,
            self.turn == Role::Defender ==> self.board.king is Some,
        ensures
            self.turn == Role::Attacker ==> match self.board.spec_capture_the_king_one_move() {
                Some(v) => first_hit(self.spec_all_legal_plays(), v, r),
                None => r is None,
            },
            self.turn == Role::Defender ==> king_to_corner(
                self.spec_legal_moves(),
                self.board.king->Some_0,
                r,
            ),
    {
        match self.turn {
            Role::Attacker => {
                if let Some(vertex) = self.board.capture_the_king_one_move() {
                    let plays = self.all_legal_plays();
                    let mut i: usize = 0;
                    while i < plays.len()
                        invariant
                            i <= plays@.len(),
                            forall|j: int| 0 <= j < i ==> !#[trigger] hits(plays@[j], vertex),
                        decreases plays@.len() - i,
                    {
                        let plae = plays[i];
                        if let Plae::Play(play) = plae {
                            if play.to == vertex {
                                assert(hits(plays@[i as int], vertex));
                                return Some(plae);
                            }
                        }
                        i = i + 1;
                    }
                }
                None
            },
            _ => {
                let kings_position = self.board.king.unwrap();
                let moves: LegalMoves = self.all_legal_moves();
                let ghost entries = moves.entries();
                let mut e: usize = 0;
                while e < moves.moves.len()
                    invariant
                        e <= moves.moves@.len(),
                        entries == moves.entries(),
                        forall|f: int| 0 <= f < e ==> (#[trigger] entries[f]).0 != kings_position,
                    decreases moves.moves@.len() - e,
                {
                    if moves.moves[e].0 == kings_position {
                        let tos = &moves.moves[e].1;
                        assert(first_from(entries, kings_position, e as int));
                        assert(entries[e as int].1 == tos@);
                        let mut t: usize = 0;
                        while t < tos.len()
                            invariant
                                t <= tos@.len(),
                                forall|u: int| 0 <= u < t ==> !(#[trigger] tos@[u]).spec_on_exit_square(),
                            decreases tos@.len() - t,
                        {
                            let to = tos[t];
                            if to.on_exit_square() {
                                assert(first_corner(tos@, t as int));
                                return Some(Plae::Play(Play { role: Role::Defender, from: kings_position, to }));
                            }
                            t = t + 1;
                        }
                        proof {
                            assert forall|e2: int, t2: int|
                                #[trigger] first_from(entries, kings_position, e2) implies !#[trigger] first_corner(
                                    entries[e2].1,
                                    t2,
                                ) by {
                                if e2 > e {
                                    assert(entries[e as int].0 == kings_position);
                                }
                                if e2 < e {
                                }
                            }
                        }
                        return None;
                    }
                    e = e + 1;
                }
                None
            },
        }
    }
}

} // verus!
