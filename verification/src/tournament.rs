use vstd::prelude::*;

use crate::status::Status;
use crate::text::{str_chars, str_eq, string_from_chars};

verus! {

/// How many players a tournament group holds.
#[derive(Clone, Copy, Debug, PartialEq, Eq, Structural)]
pub struct GroupSize {
    pub size: usize,
}

impl GroupSize {
    /// Groups of four.
    pub fn default() -> (g: GroupSize)
        ensures
            g.size == 4,
    {
        GroupSize { size: 4 }
    }
}

/// How many games each pairing of a tournament plays.
#[derive(Clone, Copy, Debug, PartialEq, Eq, Structural)]
pub struct NumberOfGames {
    pub number: usize,
}

impl NumberOfGames {
    /// One game each.
    pub fn default() -> (g: NumberOfGames)
        ensures
            g.number == 1,
    {
        NumberOfGames { number: 1 }
    }
}

/// A place in a tournament's standings: the score, and the players who share it.
#[derive(Clone, Debug)]
pub struct Standing {
    pub score: u64,
    pub players: Vec<String>,
}


/// A player's record in a tournament group: wins, losses, draws, and, to break ties, the moves
/// played in the games counted, in half moves (a draw counts half of its moves).
#[derive(Clone, Copy, Debug, PartialEq, Eq, Structural)]
pub struct Record {
    pub wins: u64,
    pub losses: u64,
    pub draws: u64,
    pub half_moves: u64,
}

impl Record {
    pub open spec fn spec_games_count(self) -> int {
        self.wins + self.losses + self.draws
    }

    pub open spec fn spec_score(self) -> int {
        2 * self.wins + self.draws
    }

    /// How many games the record counts.
    pub fn games_count(&self) -> (r: u64)
        requires
            self.spec_games_count() <= u64::MAX,
        ensures
            r == self.spec_games_count(),
    {
        self.wins + self.losses + self.draws
    }

    /// Clears the wins, losses and draws.
    pub fn reset(&mut self)
        ensures
            *final(self) == (Record { wins: 0, losses: 0, draws: 0, ..*old(self) }),
    {
        self.wins = 0;
        self.losses = 0;
        self.draws = 0;
    }

    /// Two points a win, one a draw.
    pub fn score(&self) -> (r: u64)
        requires
            self.spec_score() <= u64::MAX,
        ensures
            r == self.spec_score(),
    {
        2 * self.wins + self.draws
    }
}

/// A group of a tournament round: the games it is to play, and the players' records.
#[derive(Clone, Debug)]
pub struct Group {
    pub id: u64,
    pub total_games: u64,
    pub records: Vec<(String, Record)>,
}

/// A tournament under way: the players still in it, its rounds of groups, and, for each game
/// being played, the round and the group it counts for.
#[derive(Clone, Debug)]
pub struct Tournament {
    pub players: Vec<String>,
    pub groups: Vec<Vec<Group>>,
    pub tournament_games: Vec<(u128, (usize, usize))>,
}

/// The full moves a game with `plays` turns recorded counts: half the turns, rounded up,
/// less one.
pub open spec fn full_moves(plays: nat) -> int {
    (plays + 1) / 2 - 1
}

/// A record after a finished game between `attacker` and `defender`, for the player `name`.
pub open spec fn recorded(name: Seq<char>, r: Record, attacker: Seq<char>, defender: Seq<char>, status: Status, m: int) -> Record {
    let a = if name == attacker {
        match status {
            Status::AttackerWins => Record { wins: (r.wins + 1) as u64, half_moves: (r.half_moves + 2 * m) as u64, ..r },
            Status::Draw => Record { draws: (r.draws + 1) as u64, half_moves: (r.half_moves + m) as u64, ..r },
            Status::DefenderWins => Record { losses: (r.losses + 1) as u64, ..r },
            Status::Ongoing => r,
        }
    } else {
        r
    };
    if name == defender {
        match status {
            Status::AttackerWins => Record { losses: (a.losses + 1) as u64, ..a },
            Status::Draw => Record { draws: (a.draws + 1) as u64, half_moves: (a.half_moves + m) as u64, ..a },
            Status::DefenderWins => Record { wins: (a.wins + 1) as u64, half_moves: (a.half_moves + 2 * m) as u64, ..a },
            Status::Ongoing => a,
        }
    } else {
        a
    }
}

/// Every count of the records can take one more game of `m` full moves without leaving 64
/// bits.
pub open spec fn room(rs: Seq<(String, Record)>, m: int) -> bool {
    forall|i: int|
        0 <= i < rs.len() ==> {
            let r = (#[trigger] rs[i]).1;
            &&& r.wins + 1 <= u64::MAX && r.losses + 1 <= u64::MAX && r.draws + 2 <= u64::MAX
            &&& r.half_moves + 4 * m <= u64::MAX
        }
}

/// The games a group's records count in all.
pub open spec fn group_games(rs: Seq<(String, Record)>) -> int
    decreases rs.len(),
{
    if rs.len() == 0 {
        0
    } else {
        group_games(rs.drop_last()) + rs.last().1.spec_games_count()
    }
}

/// Every game of the group has been played: each game counts for two records.
pub open spec fn group_finished(g: Group) -> bool {
    g.total_games == group_games(g.records@) / 2
}

/// The best score of the records, if any.
pub open spec fn top_score(rs: Seq<(String, Record)>) -> Option<int>
    decreases rs.len(),
{
    if rs.len() == 0 {
        None
    } else {
        let s = rs.last().1.spec_score();
        match top_score(rs.drop_last()) {
            None => Some(s),
            Some(t) => Some(if s > t { s } else { t }),
        }
    }
}

/// The records with the score `top`.
pub open spec fn leaders(rs: Seq<(String, Record)>, top: int) -> Seq<(String, Record)>
    decreases rs.len(),
{
    if rs.len() == 0 {
        seq![]
    } else {
        leaders(rs.drop_last(), top) + if rs.last().1.spec_score() == top {
            seq![rs.last()]
        } else {
            seq![]
        }
    }
}

/// The fewest half moves among the records.
pub open spec fn fewest_moves(rs: Seq<(String, Record)>) -> int
    decreases rs.len(),
{
    if rs.len() == 0 {
        0
    } else if rs.len() == 1 {
        rs[0].1.half_moves as int
    } else {
        let f = fewest_moves(rs.drop_last());
        let h = rs.last().1.half_moves as int;
        if h < f {
            h
        } else {
            f
        }
    }
}

/// The names of the records with `h` half moves.
pub open spec fn with_moves(rs: Seq<(String, Record)>, h: int) -> Seq<Seq<char>>
    decreases rs.len(),
{
    if rs.len() == 0 {
        seq![]
    } else {
        with_moves(rs.drop_last(), h) + if rs.last().1.half_moves == h {
            seq![rs.last().0@]
        } else {
            seq![]
        }
    }
}

/// Who goes on from a group: the players with the best score; when several share it, those
/// of them who needed the fewest moves (a lone leader has the fewest among the leaders).
pub open spec fn group_winners(g: Group) -> Seq<Seq<char>> {
    match top_score(g.records@) {
        None => seq![],
        Some(t) => {
            let ls = leaders(g.records@, t);
            with_moves(ls, fewest_moves(ls))
        },
    }
}

/// Who goes on from a round, group by group, each player once.
pub open spec fn round_winners(round: Seq<Group>) -> Seq<Seq<char>>
    decreases round.len(),
{
    if round.len() == 0 {
        seq![]
    } else {
        add_new(round_winners(round.drop_last()), group_winners(round.last()))
    }
}

/// `s` with each name of `t` that it lacks added, in order.
pub open spec fn add_new(s: Seq<Seq<char>>, t: Seq<Seq<char>>) -> Seq<Seq<char>>
    decreases t.len(),
{
    if t.len() == 0 {
        s
    } else {
        let u = add_new(s, t.drop_last());
        if u.contains(t.last()) {
            u
        } else {
            u.push(t.last())
        }
    }
}


/// The games the records count, in 128 bits, and that sum is in range.
fn count_games(rs: &Vec<(String, Record)>) -> (r: u128)
    requires
        rs@.len() < 0x1_0000_0000,
    ensures
        r == group_games(rs@),
{
    let mut sum: u128 = 0;
    let mut i: usize = 0;
    while i < rs.len()
        invariant
            i <= rs@.len(),
            rs@.len() < 0x1_0000_0000,
            sum == group_games(rs@.take(i as int)),
            sum <= i * 0x3_0000_0000_0000_0000,
        decreases rs@.len() - i,
    {
        let r = rs[i].1;
        assert(rs@.take(i + 1).drop_last() == rs@.take(i as int));
        sum = sum + r.wins as u128 + r.losses as u128 + r.draws as u128;
        i = i + 1;
    }
    assert(rs@.take(rs@.len() as int) == rs@);
    sum
}

/// The best score of the records, if any.
fn best_score(rs: &Vec<(String, Record)>) -> (r: Option<u128>)
    ensures
        match top_score(rs@) {
            None => r is None,
            Some(t) => r == Some(t as u128) && 0 <= t <= 0x3_0000_0000_0000_0000,
        },
{
    let mut best: Option<u128> = None;
    let mut i: usize = 0;
    while i < rs.len()
        invariant
            i <= rs@.len(),
            match top_score(rs@.take(i as int)) {
                None => best is None,
                Some(t) => best == Some(t as u128) && 0 <= t <= 0x3_0000_0000_0000_0000,
            },
        decreases rs@.len() - i,
    {
        let r = rs[i].1;
        assert(rs@.take(i + 1).drop_last() == rs@.take(i as int));
        assert(rs@.take(i + 1).last() == rs@[i as int]);
        let sc = 2 * (r.wins as u128) + r.draws as u128;
        best = match best {
            None => Some(sc),
            Some(t) => Some(if sc > t { sc } else { t }),
        };
        i = i + 1;
    }
    assert(rs@.take(rs@.len() as int) == rs@);
    best
}

/// Who goes on from a group (see `group_winners`).
fn winners_of(g: &Group) -> (r: Vec<String>)
    ensures
        r@.map_values(|w: String| w@) == group_winners(*g),
{
    let rs = &g.records;
    let t = match best_score(rs) {
        None => {
            let r: Vec<String> = Vec::new();
            assert(r@.map_values(|w: String| w@) =~= Seq::<Seq<char>>::empty());
            return r;
        },
        Some(t) => t,
    };
    let ghost tt = top_score(rs@)->Some_0;
    // The fewest half moves among the leaders.
    let mut fewest: u64 = 0;
    let mut any = false;
    let mut i: usize = 0;
    while i < rs.len()
        invariant
            i <= rs@.len(),
            t == tt,
            any == (leaders(rs@.take(i as int), tt).len() > 0),
            any ==> fewest == fewest_moves(leaders(rs@.take(i as int), tt)),
        decreases rs@.len() - i,
    {
        let r = rs[i].1;
        let ghost before = leaders(rs@.take(i as int), tt);
        assert(rs@.take(i + 1).drop_last() == rs@.take(i as int));
        assert(rs@.take(i + 1).last() == rs@[i as int]);
        let sc = 2 * (r.wins as u128) + r.draws as u128;
        if sc == t {
            let ghost ls = leaders(rs@.take(i + 1), tt);
            assert(ls == before.push(rs@[i as int]));
            assert(ls.drop_last() == before);
            if !any || r.half_moves < fewest {
                fewest = r.half_moves;
            }
            any = true;
        } else {
            assert(leaders(rs@.take(i + 1), tt) == before + Seq::<(String, Record)>::empty());
            assert(before + Seq::<(String, Record)>::empty() == before);
        }
        i = i + 1;
    }
    assert(rs@.take(rs@.len() as int) == rs@);
    let ghost ls = leaders(rs@, tt);
    let ghost h = fewest_moves(ls);
    let mut out: Vec<String> = Vec::new();
    let mut j: usize = 0;
    while j < rs.len()
        invariant
            j <= rs@.len(),
            t == tt,
            ls == leaders(rs@, tt),
            h == fewest_moves(ls),
            ls.len() > 0 ==> fewest == h,
            out@.map_values(|w: String| w@) == with_moves(leaders(rs@.take(j as int), tt), h),
        decreases rs@.len() - j,
    {
        let r = rs[j].1;
        let ghost before = leaders(rs@.take(j as int), tt);
        let ghost bw = out@.map_values(|w: String| w@);
        assert(rs@.take(j + 1).drop_last() == rs@.take(j as int));
        assert(rs@.take(j + 1).last() == rs@[j as int]);
        let sc = 2 * (r.wins as u128) + r.draws as u128;
        if sc == t {
            let ghost ls1 = leaders(rs@.take(j + 1), tt);
            assert(ls1 == before.push(rs@[j as int]));
            assert(ls1.drop_last() == before);
            proof {
                assert(leaders(rs@.take(j + 1), tt).len() > 0);
                lemma_leaders_prefix(rs@, j + 1, tt);
            }
            if r.half_moves == fewest {
                let name = string_from_chars(str_chars(rs[j].0.as_str()).as_slice());
                out.push(name);
                assert(out@.map_values(|w: String| w@) =~= bw.push(rs@[j as int].0@));
            } else {
                assert(out@.map_values(|w: String| w@) =~= bw + Seq::<Seq<char>>::empty());
            }
        } else {
            assert(leaders(rs@.take(j + 1), tt) == before + Seq::<(String, Record)>::empty());
            assert(before + Seq::<(String, Record)>::empty() == before);
        }
        j = j + 1;
    }
    assert(rs@.take(rs@.len() as int) == rs@);
    out
}

/// The leaders of a beginning of the records are there among all the leaders.
proof fn lemma_leaders_prefix(rs: Seq<(String, Record)>, k: int, t: int)
    requires
        0 <= k <= rs.len(),
    ensures
        leaders(rs.take(k), t).len() > 0 ==> leaders(rs, t).len() > 0,
    decreases rs.len() - k,
{
    if k < rs.len() {
        lemma_leaders_prefix(rs, k + 1, t);
        assert(rs.take(k + 1).drop_last() == rs.take(k));
    } else {
        assert(rs.take(k) == rs);
    }
}


/// A record after a finished game, as `recorded` says.
fn record_game(name: &str, r: Record, attacker: &str, defender: &str, status: Status, m: u64) -> (out: Record)
    requires
        r.wins + 1 <= u64::MAX && r.losses + 1 <= u64::MAX && r.draws + 2 <= u64::MAX,
        r.half_moves + 4 * m <= u64::MAX,
    ensures
        out == recorded(name@, r, attacker@, defender@, status, m as int),
{
    let mut a = r;
    if str_eq(name, attacker) {
        match status {
            Status::AttackerWins => {
                a.wins = a.wins + 1;
                a.half_moves = a.half_moves + 2 * m;
            },
            Status::Draw => {
                a.draws = a.draws + 1;
                a.half_moves = a.half_moves + m;
            },
            Status::DefenderWins => {
                a.losses = a.losses + 1;
            },
            Status::Ongoing => {},
        }
    }
    if str_eq(name, defender) {
        match status {
            Status::AttackerWins => {
                a.losses = a.losses + 1;
            },
            Status::Draw => {
                a.draws = a.draws + 1;
                a.half_moves = a.half_moves + m;
            },
            Status::DefenderWins => {
                a.wins = a.wins + 1;
                a.half_moves = a.half_moves + 2 * m;
            },
            Status::Ongoing => {},
        }
    }
    a
}

/// The records after a finished game.
fn record_games(rs: &mut Vec<(String, Record)>, attacker: &str, defender: &str, status: Status, m: u64)
    requires
        room(old(rs)@, m as int),
    ensures
        final(rs)@.len() == old(rs)@.len(),
        forall|i: int|
            0 <= i < old(rs)@.len() ==> (#[trigger] final(rs)@[i]).0 == old(rs)@[i].0
                && final(rs)@[i].1 == recorded(old(rs)@[i].0@, old(rs)@[i].1, attacker@, defender@, status, m as int),
{
    let mut i: usize = 0;
    while i < rs.len()
        invariant
            i <= rs@.len(),
            rs@.len() == old(rs)@.len(),
            room(old(rs)@, m as int),
            forall|j: int| i <= j < rs@.len() ==> rs@[j] == old(rs)@[j],
            forall|j: int|
                0 <= j < i ==> (#[trigger] rs@[j]).0 == old(rs)@[j].0 && rs@[j].1 == recorded(
                    old(rs)@[j].0@,
                    old(rs)@[j].1,
                    attacker@,
                    defender@,
                    status,
                    m as int,
                ),
        decreases rs@.len() - i,
    {
        let (name, r) = rs.remove(i);
        assert(room(old(rs)@, m as int) && old(rs)@[i as int].1 == r);
        let r2 = record_game(name.as_str(), r, attacker, defender, status, m);
        rs.insert(i, (name, r2));
        i = i + 1;
    }
}

impl Tournament {
    /// The tournament is sound: every game being played points at a group of a round, no
    /// game is listed twice, no player is listed twice, and no group is too large to count.
    pub open spec fn wf(self) -> bool {
        &&& forall|k: int|
            0 <= k < self.tournament_games@.len() ==> {
                let (ri, gi) = (#[trigger] self.tournament_games@[k]).1;
                ri < self.groups@.len() && gi < self.groups@[ri as int]@.len()
            }
        &&& forall|a: int, b: int|
            0 <= a < b < self.tournament_games@.len() ==> (#[trigger] self.tournament_games@[a]).0
                != (#[trigger] self.tournament_games@[b]).0
        &&& forall|a: int, b: int|
            0 <= a < b < self.players@.len() ==> (#[trigger] self.players@[a])@ != (
            #[trigger] self.players@[b])@
        &&& forall|ri: int, gi: int|
            0 <= ri < self.groups@.len() && 0 <= gi < self.groups@[ri]@.len() ==> (
            #[trigger] self.groups@[ri]@[gi]).records@.len() < 0x1_0000_0000
    }

    /// Every record of every group has room for one more game of `m` full moves.
    pub open spec fn roomy(self, m: int) -> bool {
        forall|ri: int, gi: int|
            0 <= ri < self.groups@.len() && 0 <= gi < self.groups@[ri]@.len() ==> room(
                (#[trigger] self.groups@[ri]@[gi]).records@,
                m,
            )
    }

    /// Every group of the round has played all its games.
    pub open spec fn round_finished(round: Seq<Group>) -> bool {
        forall|gi: int| 0 <= gi < round.len() ==> group_finished(#[trigger] round[gi])
    }

    /// Where the game `id` is listed among the games being played, if it is.
    pub open spec fn entry(self, id: u128) -> Option<int> {
        if exists|k: int| 0 <= k < self.tournament_games@.len() && (#[trigger] self.tournament_games@[k]).0 == id {
            Some(choose|k: int| 0 <= k < self.tournament_games@.len() && (#[trigger] self.tournament_games@[k]).0 == id)
        } else {
            None
        }
    }

    /// What the end of the game `id` between `attacker` and `defender`, with `status` and
    /// `plays` turns recorded, does to the tournament: nothing unless it is a tournament game;
    /// else the group it counts for records it (see `recorded`), it is no longer being
    /// played, and, when every group of the last round has played all its games and fewer
    /// players go on than were in it, the players who go on (see `round_winners`) are the
    /// tournament's players and the next round is due (`next`).
    pub open spec fn after_game(
        self,
        id: u128,
        attacker: Seq<char>,
        defender: Seq<char>,
        status: Status,
        plays: nat,
        t2: Tournament,
        next: bool,
    ) -> bool {
        match self.entry(id) {
            None => t2 == self && !next,
            Some(k) => {
                let (ri, gi) = self.tournament_games@[k].1;
                let g = self.groups@[ri as int]@[gi as int];
                let g2 = t2.groups@[ri as int]@[gi as int];
                let m = full_moves(plays);
                let last = t2.groups@.last()@;
                &&& t2.tournament_games@ == self.tournament_games@.remove(k)
                &&& t2.groups@.len() == self.groups@.len()
                &&& forall|r: int| 0 <= r < self.groups@.len() && r != ri ==> #[trigger] t2.groups@[r] == self.groups@[r]
                &&& t2.groups@[ri as int]@.len() == self.groups@[ri as int]@.len()
                &&& forall|j: int|
                    0 <= j < self.groups@[ri as int]@.len() && j != gi ==> #[trigger] t2.groups@[ri as int]@[j]
                        == self.groups@[ri as int]@[j]
                &&& g2.id == g.id && g2.total_games == g.total_games
                &&& g2.records@.len() == g.records@.len()
                &&& forall|i: int|
                    0 <= i < g.records@.len() ==> (#[trigger] g2.records@[i]).0 == g.records@[i].0
                        && g2.records@[i].1 == recorded(g.records@[i].0@, g.records@[i].1, attacker, defender, status, m)
                &&& if Tournament::round_finished(last) && round_winners(last).len() < self.players@.len() {
                    t2.players@.map_values(|p: String| p@) == round_winners(last) && next
                } else {
                    t2.players == self.players && !next
                }
            },
        }
    }
}


/// Whether the name is one of the list.
fn has_name(v: &Vec<String>, name: &str) -> (r: bool)
    ensures
        r == v@.map_values(|w: String| w@).contains(name@),
{
    let ghost vs = v@.map_values(|w: String| w@);
    let mut i: usize = 0;
    while i < v.len()
        invariant
            i <= v@.len(),
            vs == v@.map_values(|w: String| w@),
            forall|j: int| 0 <= j < i ==> vs[j] != name@,
        decreases v@.len() - i,
    {
        if str_eq(v[i].as_str(), name) {
            assert(vs[i as int] == name@);
            return true;
        }
        i = i + 1;
    }
    false
}

/// Adding the names a list lacks keeps a list without repeats without repeats.
proof fn lemma_add_new_distinct(s: Seq<Seq<char>>, t: Seq<Seq<char>>)
    requires
        s.no_duplicates(),
    ensures
        add_new(s, t).no_duplicates(),
    decreases t.len(),
{
    if t.len() > 0 {
        lemma_add_new_distinct(s, t.drop_last());
        let u = add_new(s, t.drop_last());
        if !u.contains(t.last()) {
            assert forall|a: int, b: int| 0 <= a < u.push(t.last()).len() && 0 <= b < u.push(t.last()).len() && a != b
                implies u.push(t.last())[a] != u.push(t.last())[b] by {
                if a == u.len() as int {
                    assert(u.push(t.last())[b] == u[b]);
                } else if b == u.len() as int {
                    assert(u.push(t.last())[a] == u[a]);
                }
            }
        }
    }
}

/// Who goes on from a round (see `round_winners`).
fn winners_of_round(round: &Vec<Group>) -> (r: Vec<String>)
    ensures
        r@.map_values(|w: String| w@) == round_winners(round@),
        r@.map_values(|w: String| w@).no_duplicates(),
{
    let mut out: Vec<String> = Vec::new();
    let mut i: usize = 0;
    assert(out@.map_values(|w: String| w@) =~= Seq::<Seq<char>>::empty());
    while i < round.len()
        invariant
            i <= round@.len(),
            out@.map_values(|w: String| w@) == round_winners(round@.take(i as int)),
            out@.map_values(|w: String| w@).no_duplicates(),
        decreases round@.len() - i,
    {
        let w = winners_of(&round[i]);
        let ghost wv = w@.map_values(|x: String| x@);
        let ghost base = out@.map_values(|x: String| x@);
        assert(round@.take(i + 1).drop_last() == round@.take(i as int));
        assert(round@.take(i + 1).last() == round@[i as int]);
        let mut j: usize = 0;
        assert(wv.take(0) =~= Seq::<Seq<char>>::empty());
        while j < w.len()
            invariant
                j <= w@.len(),
                wv == w@.map_values(|x: String| x@),
                out@.map_values(|x: String| x@) == add_new(base, wv.take(j as int)),
                out@.map_values(|x: String| x@).no_duplicates(),
            decreases w@.len() - j,
        {
            let ghost before = out@.map_values(|x: String| x@);
            assert(wv.take(j + 1).drop_last() == wv.take(j as int));
            assert(wv.take(j + 1).last() == w@[j as int]@);
            if !has_name(&out, w[j].as_str()) {
                let name = string_from_chars(str_chars(w[j].as_str()).as_slice());
                out.push(name);
                assert(out@.map_values(|x: String| x@) =~= before.push(w@[j as int]@));
                proof {
                    assert forall|a: int, b: int|
                        0 <= a < before.push(w@[j as int]@).len() && 0 <= b < before.push(
                            w@[j as int]@,
                        ).len() && a != b implies before.push(w@[j as int]@)[a] != before.push(
                            w@[j as int]@,
                        )[b] by {
                        if a == before.len() as int {
                            assert(before.push(w@[j as int]@)[b] == before[b]);
                        } else if b == before.len() as int {
                            assert(before.push(w@[j as int]@)[a] == before[a]);
                        }
                    }
                }
            }
            j = j + 1;
        }
        assert(wv.take(w@.len() as int) == wv);
        i = i + 1;
    }
    assert(round@.take(round@.len() as int) == round@);
    out
}

/// Whether every group of the round has played all its games.
fn round_done(round: &Vec<Group>) -> (r: bool)
    requires
        forall|gi: int| 0 <= gi < round@.len() ==> (#[trigger] round@[gi]).records@.len() < 0x1_0000_0000,
    ensures
        r == Tournament::round_finished(round@),
{
    let mut i: usize = 0;
    while i < round.len()
        invariant
            i <= round@.len(),
            forall|gi: int| 0 <= gi < round@.len() ==> (#[trigger] round@[gi]).records@.len() < 0x1_0000_0000,
            forall|gi: int| 0 <= gi < i ==> group_finished(#[trigger] round@[gi]),
        decreases round@.len() - i,
    {
        let c = count_games(&round[i].records);
        if round[i].total_games as u128 != c / 2 {
            assert(!group_finished(round@[i as int]));
            return false;
        }
        i = i + 1;
    }
    true
}

impl Tournament {
    /// Where the game `id` is listed among the games being played, if it is.
    fn entry_position(&self, id: u128) -> (r: Option<usize>)
        requires
            self.wf(),
        ensures
            match r {
                Some(k) => k < self.tournament_games@.len() && self.entry(id) == Some(k as int),
                None => self.entry(id) is None,
            },
    {
        let mut k: usize = 0;
        while k < self.tournament_games.len()
            invariant
                self.wf(),
                k <= self.tournament_games@.len(),
                forall|j: int| 0 <= j < k ==> (#[trigger] self.tournament_games@[j]).0 != id,
            decreases self.tournament_games@.len() - k,
        {
            if self.tournament_games[k].0 == id {
                proof {
                    let c = choose|j: int|
                        0 <= j < self.tournament_games@.len() && (#[trigger] self.tournament_games@[j]).0 == id;
                    if c > k {
                        assert(self.tournament_games@[k as int].0 != self.tournament_games@[c].0);
                    }
                }
                return Some(k);
            }
            k = k + 1;
        }
        None
    }

    /// Whether the game `id` counts for the tournament.
    pub fn is_tournament_game(&self, id: u128) -> (r: bool)
        ensures
            r == (self.entry(id) is Some),
    {
        let mut k: usize = 0;
        while k < self.tournament_games.len()
            invariant
                k <= self.tournament_games@.len(),
                forall|j: int| 0 <= j < k ==> (#[trigger] self.tournament_games@[j]).0 != id,
            decreases self.tournament_games@.len() - k,
        {
            if self.tournament_games[k].0 == id {
                assert(self.tournament_games@[k as int].0 == id);
                return true;
            }
            k = k + 1;
        }
        false
    }

    /// Records the end of the game `id` between `attacker` and `defender`, with `status` and
    /// `plays` turns recorded, and says whether the next round is due (see `after_game`).
    #[verifier::rlimit(40)]
    pub fn game_over(&mut self, id: u128, attacker: &str, defender: &str, status: Status, plays: usize) -> (next: bool)
        requires
            old(self).wf(),
            plays >= 1,
            old(self).roomy(full_moves(plays as nat)),
        ensures
            final(self).wf(),
            old(self).after_game(id, attacker@, defender@, status, plays as nat, *final(self), next),
    {
        let k = match self.entry_position(id) {
            None => return false,
            Some(k) => k,
        };
        let (ri, gi) = self.tournament_games[k].1;
        let m: u64 = ((plays - 1) / 2) as u64;
        assert(m == full_moves(plays as nat));
        let ghost old_groups = self.groups@;
        let mut round = self.groups.remove(ri);
        let mut group = round.remove(gi);
        assert(room(group.records@, m as int));
        record_games(&mut group.records, attacker, defender, status, m);
        round.insert(gi, group);
        self.groups.insert(ri, round);
        let _gone = self.tournament_games.remove(k);
        proof {
            assert forall|r: int| 0 <= r < old_groups.len() && r != ri implies #[trigger] self.groups@[r]
                == old_groups[r] by {}
        }
        let li = self.groups.len() - 1;
        assert(self.groups@.last() == self.groups@[li as int]);
        if !round_done(&self.groups[li]) {
            return false;
        }
        let w = winners_of_round(&self.groups[li]);
        if w.len() < self.players.len() {
            proof {
                let wv = w@.map_values(|x: String| x@);
                assert forall|a: int, b: int| 0 <= a < b < w@.len() implies (#[trigger] w@[a])@ != (
                #[trigger] w@[b])@ by {
                    assert(wv[a] == w@[a]@ && wv[b] == w@[b]@);
                }
            }
            self.players = w;
            return true;
        }
        false
    }
}

/// After a tournament game, in the group it counts for, the side that the status names as the
/// winner gains exactly one win and the other side exactly one loss, and after a draw both
/// gain one draw; the winner's half moves grow by twice the game's full moves and each
/// drawer's by the full moves. The other counts of the two players, and every count of
/// everyone else, stay as they were (as long as the counts that grow have room to).
pub proof fn lemma_result_credited(
    t: Tournament,
    id: u128,
    attacker: Seq<char>,
    defender: Seq<char>,
    status: Status,
    plays: nat,
    t2: Tournament,
    next: bool,
    k: int,
    i: int,
)
    requires
        t.after_game(id, attacker, defender, status, plays, t2, next),
        t.entry(id) == Some(k),
        attacker != defender,
        plays >= 1,
        0 <= i < t.groups@[t.tournament_games@[k].1.0 as int]@[t.tournament_games@[k].1.1 as int].records@.len(),
    ensures
        ({
            let (ri, gi) = t.tournament_games@[k].1;
            let (name, r) = t.groups@[ri as int]@[gi as int].records@[i];
            let (name2, r2) = t2.groups@[ri as int]@[gi as int].records@[i];
            let won = (status == Status::AttackerWins && name@ == attacker) || (status
                == Status::DefenderWins && name@ == defender);
            let lost = (status == Status::AttackerWins && name@ == defender) || (status
                == Status::DefenderWins && name@ == attacker);
            let drew = status == Status::Draw && (name@ == attacker || name@ == defender);
            let m = full_moves(plays);
            &&& name2 == name
            &&& won && r.wins < u64::MAX && r.half_moves + 2 * m <= u64::MAX ==> r2.wins == r.wins
                + 1 && r2.losses == r.losses && r2.draws == r.draws && r2.half_moves
                == r.half_moves + 2 * m
            &&& lost && r.losses < u64::MAX ==> r2.losses == r.losses + 1 && r2.wins == r.wins
                && r2.draws == r.draws && r2.half_moves == r.half_moves
            &&& drew && r.draws < u64::MAX && r.half_moves + m <= u64::MAX ==> r2.draws == r.draws
                + 1 && r2.wins == r.wins && r2.losses == r.losses && r2.half_moves == r.half_moves
                + m
            &&& !won && !lost && !drew ==> r2 == r
        }),
{
}

/// The best score is that of some record, and no record scores more.
proof fn lemma_top_score(rs: Seq<(String, Record)>)
    requires
        rs.len() > 0,
    ensures
        top_score(rs) is Some,
        exists|i: int| 0 <= i < rs.len() && (#[trigger] rs[i]).1.spec_score() == top_score(rs)->Some_0,
        forall|i: int| 0 <= i < rs.len() ==> (#[trigger] rs[i]).1.spec_score() <= top_score(rs)->Some_0,
    decreases rs.len(),
{
    let front = rs.drop_last();
    let last = rs.len() - 1;
    assert(rs.last() == rs[last]);
    if front.len() == 0 {
        assert(rs[0].1.spec_score() == top_score(rs)->Some_0);
    } else {
        lemma_top_score(front);
        let t = top_score(front)->Some_0;
        let i0 = choose|i: int| 0 <= i < front.len() && (#[trigger] front[i]).1.spec_score() == t;
        assert(front[i0] == rs[i0]);
        assert forall|i: int| 0 <= i < rs.len() implies (#[trigger] rs[i]).1.spec_score() <= top_score(rs)->Some_0 by {
            if i < last {
                assert(front[i] == rs[i]);
            }
        }
    }
}

/// The leaders with score `top` are the records with that score.
proof fn lemma_leaders(rs: Seq<(String, Record)>, top: int)
    ensures
        forall|k: int| 0 <= k < leaders(rs, top).len() ==> (#[trigger] leaders(rs, top)[k]).1.spec_score() == top
            && rs.contains(leaders(rs, top)[k]),
        forall|i: int| 0 <= i < rs.len() && (#[trigger] rs[i]).1.spec_score() == top ==> leaders(rs, top).contains(rs[i]),
    decreases rs.len(),
{
    if rs.len() > 0 {
        let front = rs.drop_last();
        let last = rs.len() - 1;
        lemma_leaders(front, top);
        let lf = leaders(front, top);
        let tail = if rs.last().1.spec_score() == top { seq![rs.last()] } else { Seq::<(String, Record)>::empty() };
        let l = leaders(rs, top);
        assert(l == lf + tail);
        assert forall|k: int| 0 <= k < l.len() implies (#[trigger] l[k]).1.spec_score() == top && rs.contains(l[k]) by {
            if k < lf.len() {
                assert(l[k] == lf[k]);
                let j = choose|j: int| 0 <= j < front.len() && front[j] == lf[k];
                assert(rs[j] == front[j]);
            } else {
                assert(l[k] == rs.last());
                assert(rs[last] == rs.last());
            }
        }
        assert forall|i: int| 0 <= i < rs.len() && (#[trigger] rs[i]).1.spec_score() == top implies l.contains(rs[i]) by {
            if i < last {
                assert(front[i] == rs[i]);
                let k = choose|k: int| 0 <= k < lf.len() && lf[k] == front[i];
                assert(l[k] == lf[k]);
            } else {
                assert(rs[i] == rs.last());
                assert(l[lf.len() as int] == rs.last());
            }
        }
    }
}

/// The fewest half moves are those of some record, and no record has fewer.
proof fn lemma_fewest_moves(rs: Seq<(String, Record)>)
    requires
        rs.len() > 0,
    ensures
        exists|k: int| 0 <= k < rs.len() && (#[trigger] rs[k]).1.half_moves == fewest_moves(rs),
        forall|k: int| 0 <= k < rs.len() ==> (#[trigger] rs[k]).1.half_moves >= fewest_moves(rs),
    decreases rs.len(),
{
    if rs.len() == 1 {
        assert(rs[0].1.half_moves == fewest_moves(rs));
    } else {
        let front = rs.drop_last();
        let last = rs.len() - 1;
        assert(rs.last() == rs[last]);
        lemma_fewest_moves(front);
        let k0 = choose|k: int| 0 <= k < front.len() && (#[trigger] front[k]).1.half_moves == fewest_moves(front);
        assert(front[k0] == rs[k0]);
        assert forall|k: int| 0 <= k < rs.len() implies (#[trigger] rs[k]).1.half_moves >= fewest_moves(rs) by {
            if k < last {
                assert(front[k] == rs[k]);
            }
        }
    }
}

/// The names with `h` half moves are those of the records with `h` half moves.
proof fn lemma_with_moves(rs: Seq<(String, Record)>, h: int, name: Seq<char>)
    ensures
        with_moves(rs, h).contains(name) <==> exists|k: int|
            0 <= k < rs.len() && (#[trigger] rs[k]).0@ == name && rs[k].1.half_moves == h,
    decreases rs.len(),
{
    if rs.len() > 0 {
        let front = rs.drop_last();
        let last = rs.len() - 1;
        lemma_with_moves(front, h, name);
        let wf = with_moves(front, h);
        let tail = if rs.last().1.half_moves == h { seq![rs.last().0@] } else { Seq::<Seq<char>>::empty() };
        let w = with_moves(rs, h);
        assert(w == wf + tail);
        assert(rs.last() == rs[last]);
        if w.contains(name) {
            let j = choose|j: int| 0 <= j < w.len() && w[j] == name;
            if j < wf.len() {
                assert(wf[j] == w[j]);
                let k = choose|k: int| 0 <= k < front.len() && (#[trigger] front[k]).0@ == name && front[k].1.half_moves == h;
                assert(rs[k] == front[k]);
            } else {
                assert(rs[last].0@ == name);
            }
        }
        if exists|k: int| 0 <= k < rs.len() && (#[trigger] rs[k]).0@ == name && rs[k].1.half_moves == h {
            let k = choose|k: int| 0 <= k < rs.len() && (#[trigger] rs[k]).0@ == name && rs[k].1.half_moves == h;
            if k < last {
                assert(front[k] == rs[k]);
                let j = choose|j: int| 0 <= j < wf.len() && wf[j] == name;
                assert(w[j] == wf[j]);
            } else {
                assert(w[wf.len() as int] == name);
            }
        }
    }
}

/// Who goes on from a group: a player goes on exactly when one of the group's records under
/// that name scores (two points a win, one a draw) at least as much as every record, and took
/// no more half moves than any record with the same score.
pub proof fn lemma_group_winners_best(g: Group, name: Seq<char>)
    ensures
        group_winners(g).contains(name) <==> exists|i: int|
            0 <= i < g.records@.len() && (#[trigger] g.records@[i]).0@ == name && (forall|j: int|
                0 <= j < g.records@.len() ==> 2 * (#[trigger] g.records@[j]).1.wins + g.records@[j].1.draws
                    <= 2 * g.records@[i].1.wins + g.records@[i].1.draws) && (forall|j: int|
                0 <= j < g.records@.len() && 2 * (#[trigger] g.records@[j]).1.wins
                    + g.records@[j].1.draws == 2 * g.records@[i].1.wins + g.records@[i].1.draws
                    ==> g.records@[j].1.half_moves >= g.records@[i].1.half_moves),
{
    let rs = g.records@;
    if rs.len() == 0 {
        return;
    }
    lemma_top_score(rs);
    let t = top_score(rs)->Some_0;
    lemma_leaders(rs, t);
    let ls = leaders(rs, t);
    let i0 = choose|i: int| 0 <= i < rs.len() && (#[trigger] rs[i]).1.spec_score() == t;
    assert(ls.contains(rs[i0]));
    assert(ls.len() > 0);
    lemma_fewest_moves(ls);
    let f = fewest_moves(ls);
    lemma_with_moves(ls, f, name);
    if group_winners(g).contains(name) {
        let k = choose|k: int| 0 <= k < ls.len() && (#[trigger] ls[k]).0@ == name && ls[k].1.half_moves == f;
        assert(ls[k].1.spec_score() == t && rs.contains(ls[k]));
        let i = choose|i: int| 0 <= i < rs.len() && rs[i] == ls[k];
        assert forall|j: int| 0 <= j < rs.len() && 2 * (#[trigger] rs[j]).1.wins + rs[j].1.draws == 2
            * rs[i].1.wins + rs[i].1.draws implies rs[j].1.half_moves >= rs[i].1.half_moves by {
            assert(rs[j].1.spec_score() == t);
            assert(ls.contains(rs[j]));
            let kj = choose|kj: int| 0 <= kj < ls.len() && ls[kj] == rs[j];
            assert(ls[kj].1.half_moves >= f);
        }
        assert(rs[i].0@ == name);
        assert forall|j: int| 0 <= j < rs.len() implies 2 * (#[trigger] rs[j]).1.wins + rs[j].1.draws
            <= 2 * rs[i].1.wins + rs[i].1.draws by {
            assert(rs[j].1.spec_score() <= t);
        }
    }
    if exists|i: int|
        0 <= i < rs.len() && (#[trigger] rs[i]).0@ == name && (forall|j: int|
            0 <= j < rs.len() ==> 2 * (#[trigger] rs[j]).1.wins + rs[j].1.draws
                <= 2 * rs[i].1.wins + rs[i].1.draws) && (forall|j: int|
            0 <= j < rs.len() && 2 * (#[trigger] rs[j]).1.wins + rs[j].1.draws == 2 * rs[i].1.wins
                + rs[i].1.draws ==> rs[j].1.half_moves >= rs[i].1.half_moves) {
        let i = choose|i: int|
            0 <= i < rs.len() && (#[trigger] rs[i]).0@ == name && (forall|j: int|
                0 <= j < rs.len() ==> 2 * (#[trigger] rs[j]).1.wins + rs[j].1.draws
                    <= 2 * rs[i].1.wins + rs[i].1.draws) && (forall|j: int|
                0 <= j < rs.len() && 2 * (#[trigger] rs[j]).1.wins + rs[j].1.draws == 2 * rs[i].1.wins
                    + rs[i].1.draws ==> rs[j].1.half_moves >= rs[i].1.half_moves);
        assert(rs[i0].1.spec_score() <= rs[i].1.spec_score());
        assert(rs[i].1.spec_score() == t);
        assert(ls.contains(rs[i]));
        let k = choose|k: int| 0 <= k < ls.len() && ls[k] == rs[i];
        let kf = choose|kf: int| 0 <= kf < ls.len() && (#[trigger] ls[kf]).1.half_moves == f;
        assert(ls[kf].1.spec_score() == t && rs.contains(ls[kf]));
        let jf = choose|jf: int| 0 <= jf < rs.len() && rs[jf] == ls[kf];
        assert(rs[jf].1.half_moves >= rs[i].1.half_moves);
        assert(ls[k].1.half_moves >= f);
        assert(ls[k].0@ == name && ls[k].1.half_moves == f);
    }
}

} // verus!
