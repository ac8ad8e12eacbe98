use vstd::prelude::*;

use crate::board_shield::{all_within, within};
use crate::game::Game;
use crate::play::{Plae, Play, Vertex};
use crate::role::Role;
use crate::status::Status;

verus! {

/// The moves the side to move can make: for each square it can move from, row by row, the
/// squares it can move to.
#[derive(Clone, Debug)]
pub struct LegalMoves {
    pub role: Role,
    pub moves: Vec<(Vertex, Vec<Vertex>)>,
}

impl LegalMoves {
    /// Each square moved from with the squares it can move to.
    pub open spec fn entries(self) -> Seq<(Vertex, Seq<Vertex>)> {
        self.moves@.map_values(|e: (Vertex, Vec<Vertex>)| (e.0, e.1@))
    }
}

/// The turns of the side `role` that the listed moves make, in the listed order.
pub open spec fn plays_of(entries: Seq<(Vertex, Seq<Vertex>)>, role: Role) -> Seq<Plae>
    decreases entries.len(),
{
    if entries.len() == 0 {
        seq![]
    } else {
        let from = entries.last().0;
        plays_of(entries.drop_last(), role) + entries.last().1.map_values(
            |to: Vertex| Plae::Play(Play { role, from, to }),
        )
    }
}

impl Game {
    /// The move from `from` to `to` breaks no rule in this game.
    pub open spec fn allows(self, from: Vertex, to: Vertex) -> bool {
        self.board.move_allowed(from, to, self.status, self.turn, self.previous_boards)
    }

    /// The squares of `from`'s column, among the first `k` rows, that it can move to, top to
    /// bottom.
    pub open spec fn column_dests(self, from: Vertex, k: int) -> Seq<Vertex>
        decreases k,
    {
        if k <= 0 {
            seq![]
        } else {
            let v = Vertex { size: self.board.spec_size(), x: from.x, y: (k - 1) as usize };
            self.column_dests(from, k - 1) + if self.allows(from, v) {
                seq![v]
            } else {
                seq![]
            }
        }
    }

    /// The squares of `from`'s row, among the first `k` columns, that it can move to, left to
    /// right.
    pub open spec fn row_dests(self, from: Vertex, k: int) -> Seq<Vertex>
        decreases k,
    {
        if k <= 0 {
            seq![]
        } else {
            let v = Vertex { size: self.board.spec_size(), x: (k - 1) as usize, y: from.y };
            self.row_dests(from, k - 1) + if self.allows(from, v) {
                seq![v]
            } else {
                seq![]
            }
        }
    }

    /// The squares `from` can move to: along its column, then along its row.
    pub open spec fn dests(self, from: Vertex) -> Seq<Vertex> {
        self.column_dests(from, self.board.n() as int) + self.row_dests(from, self.board.n() as int)
    }

    /// The entry of a square, when it holds a piece of the side to move that can move.
    pub open spec fn move_entry(self, v: Vertex) -> Seq<(Vertex, Seq<Vertex>)> {
        if self.board.at(v).spec_role() == self.turn && self.dests(v).len() > 0 {
            seq![(v, self.dests(v))]
        } else {
            seq![]
        }
    }

    /// The entries of the first `x` squares of row `y`.
    pub open spec fn row_entries(self, y: int, x: int) -> Seq<(Vertex, Seq<Vertex>)>
        decreases x,
    {
        if x <= 0 {
            seq![]
        } else {
            self.row_entries(y, x - 1) + self.move_entry(
                Vertex { size: self.board.spec_size(), x: (x - 1) as usize, y: y as usize },
            )
        }
    }

    /// The entries of the first `y` rows.
    pub open spec fn legal_entries(self, y: int) -> Seq<(Vertex, Seq<Vertex>)>
        decreases y,
    {
        if y <= 0 {
            seq![]
        } else {
            self.legal_entries(y - 1) + self.row_entries(y - 1, self.board.n() as int)
        }
    }

    /// The moves of the side to move, square by square, row by row.
    pub open spec fn spec_legal_moves(self) -> Seq<(Vertex, Seq<Vertex>)> {
        self.legal_entries(self.board.n() as int)
    }

    /// The turns the side to move can play: its moves, or, when it has none in a game that
    /// goes on, its resignation.
    pub open spec fn spec_all_legal_plays(self) -> Seq<Plae> {
        let e = self.spec_legal_moves();
        if e.len() == 0 && self.status == Status::Ongoing {
            match self.turn {
                Role::Attacker => seq![Plae::AttackerResigns],
                Role::Defender => seq![Plae::DefenderResigns],
                Role::Roleless => seq![],
            }
        } else {
            plays_of(e, self.turn)
        }
    }

    /// The squares the piece on `from` can move to: along its column, then along its row.
    fn dests_exec(&self, from: &Vertex) -> (tos: Vec<Vertex>)
        requires
            self.board.wf(),
            self.board.on_board(*from),
        ensures
            tos@ == self.dests(*from),
    {
        let size = self.board.size();
        let n = size.to_usize();
        let mut tos: Vec<Vertex> = Vec::new();
        let mut y: usize = 0;
        while y < n
            invariant
                self.board.wf(),
                self.board.on_board(*from),
                n == self.board.n(),
                size == self.board.spec_size(),
                y <= n,
                tos@ == self.column_dests(*from, y as int),
            decreases n - y,
        {
            let to = Vertex { size, x: from.x, y };
            let play = Play { role: self.turn, from: *from, to };
            let ghost before = tos@;
            if self.board.legal_move(&play, &self.status, &self.turn, &self.previous_boards).is_ok() {
                tos.push(to);
            }
            proof {
                if self.allows(*from, to) {
                    assert(tos@ == before + seq![to]);
                } else {
                    assert(tos@ == before + Seq::<Vertex>::empty());
                }
            }
            y = y + 1;
        }
        let mut x: usize = 0;
        while x < n
            invariant
                self.board.wf(),
                self.board.on_board(*from),
                n == self.board.n(),
                size == self.board.spec_size(),
                x <= n,
                tos@ == self.column_dests(*from, n as int) + self.row_dests(*from, x as int),
            decreases n - x,
        {
            let to = Vertex { size, x, y: from.y };
            let play = Play { role: self.turn, from: *from, to };
            let ghost before = tos@;
            if self.board.legal_move(&play, &self.status, &self.turn, &self.previous_boards).is_ok() {
                tos.push(to);
            }
            proof {
                let c = self.column_dests(*from, n as int);
                let r0 = self.row_dests(*from, x as int);
                if self.allows(*from, to) {
                    assert(c + (r0 + seq![to]) == (c + r0) + seq![to]);
                } else {
                    assert(c + (r0 + Seq::<Vertex>::empty()) == c + r0);
                }
            }
            x = x + 1;
        }
        tos
    }

    /// The moves of the side to move: for each square it can move from, row by row, the
    /// squares it can move to, along the column first, then along the row.
    pub fn all_legal_moves(&self) -> (r: LegalMoves)
        requires
            self.board.wf(),
        ensures
            r.role == self.turn,
            r.entries() == self.spec_legal_moves(),
    {
        let size = self.board.size();
        let n = size.to_usize();
        let mut moves: Vec<(Vertex, Vec<Vertex>)> = Vec::new();
        let mut y: usize = 0;
        while y < n
            invariant
                self.board.wf(),
                n == self.board.n(),
                size == self.board.spec_size(),
                y <= n,
                (LegalMoves { role: self.turn, moves }).entries() == self.legal_entries(y as int),
            decreases n - y,
        {
            let mut x: usize = 0;
            while x < n
                invariant
                    self.board.wf(),
                    n == self.board.n(),
                    size == self.board.spec_size(),
                    y < n,
                    x <= n,
                    (LegalMoves { role: self.turn, moves }).entries() == self.legal_entries(y as int)
                        + self.row_entries(y as int, x as int),
                decreases n - x,
            {
                let v = Vertex { size, x, y };
                let ghost before = moves@;
                let ghost pre = self.legal_entries(y as int) + self.row_entries(y as int, x as int);
                if self.board.get(&v).role() == self.turn {
                    let tos = self.dests_exec(&v);
                    if tos.len() > 0 {
                        moves.push((v, tos));
                        proof {
                            let f = |e: (Vertex, Vec<Vertex>)| (e.0, e.1@);
                            assert(moves@.map_values(f) == before.map_values(f).push(f((v, tos))));
                            assert(pre + seq![(v, tos@)] == self.legal_entries(y as int)
                                + self.row_entries(y as int, x as int + 1));
                        }
                    } else {
                        proof {
                            assert(pre + Seq::<(Vertex, Seq<Vertex>)>::empty() == pre);
                        }
                    }
                } else {
                    proof {
                        assert(pre + Seq::<(Vertex, Seq<Vertex>)>::empty() == pre);
                    }
                }
                x = x + 1;
            }
            y = y + 1;
        }
        LegalMoves { role: self.turn, moves }
    }

    /// The turns the side to move can play: each of its moves, square by square; or, when it
    /// has none in a game that goes on, its resignation (none for the roleless).
    pub fn all_legal_plays(&self) -> (r: Vec<Plae>)
        requires
            self.board.wf(),
        ensures
            r@ == self.spec_all_legal_plays(),
    {
        let moves = self.all_legal_moves();
        if moves.moves.len() == 0 && self.status == Status::Ongoing {
            let mut v = Vec::new();
            match moves.role {
                Role::Attacker => v.push(Plae::AttackerResigns),
                Role::Defender => v.push(Plae::DefenderResigns),
                Role::Roleless => {},
            }
            return v;
        }
        let ghost e = moves.entries();
        let role = moves.role;
        let mut plays: Vec<Plae> = Vec::new();
        let mut i: usize = 0;
        while i < moves.moves.len()
            invariant
                i <= moves.moves@.len(),
                e == moves.entries(),
                role == self.turn,
                plays@ == plays_of(e.take(i as int), role),
            decreases moves.moves@.len() - i,
        {
            let from = moves.moves[i].0;
            let tos = &moves.moves[i].1;
            let ghost base = plays@;
            let ghost f = |to: Vertex| Plae::Play(Play { role, from, to });
            let mut j: usize = 0;
            while j < tos.len()
                invariant
                    j <= tos@.len(),
                    f == (|to: Vertex| Plae::Play(Play { role, from, to })),
                    plays@ == base + tos@.take(j as int).map_values(f),
                decreases tos@.len() - j,
            {
                plays.push(Plae::Play(Play { role, from, to: tos[j] }));
                proof {
                    let prev = tos@.take(j as int).map_values(f);
                    assert(f(tos@[j as int]) == Plae::Play(Play { role, from, to: tos@[j as int] }));
                    assert(plays@ == (base + prev).push(f(tos@[j as int])));
                    assert(tos@.take(j as int + 1).map_values(f) == prev.push(f(tos@[j as int])));
                    assert(base + prev.push(f(tos@[j as int])) == (base + prev).push(
                        f(tos@[j as int]),
                    ));
                }
                j = j + 1;
            }
            proof {
                assert(tos@.take(tos@.len() as int) == tos@);
                assert(e.take(i as int + 1).drop_last() == e.take(i as int));
                assert(e.take(i as int + 1).last() == e[i as int]);
                assert(e[i as int].1 == tos@);
                assert(e[i as int].0 == from);
            }
            i = i + 1;
        }
        proof {
            assert(e.take(e.len() as int) == e);
        }
        plays
    }
}


impl Game {
    /// A square is among the first `k` of `from`'s column that `from` can move to exactly when
    /// the move is allowed and the square lies in that column, in those rows.
    proof fn lemma_column_dests(self, from: Vertex, k: int, to: Vertex)
        requires
            self.board.wf(),
            0 <= k <= self.board.n(),
        ensures
            self.column_dests(from, k).contains(to) <==> (self.allows(from, to) && to.x == from.x
                && to.y < k),
        decreases k,
    {
        if k > 0 {
            self.lemma_column_dests(from, k - 1, to);
            let v = Vertex { size: self.board.spec_size(), x: from.x, y: (k - 1) as usize };
            let prev = self.column_dests(from, k - 1);
            let add = if self.allows(from, v) {
                seq![v]
            } else {
                seq![]
            };
            if (prev + add).contains(to) {
                let i = choose|i: int| 0 <= i < (prev + add).len() && (prev + add)[i] == to;
                if i >= prev.len() {
                    assert(add[i - prev.len()] == to);
                } else {
                    assert(prev[i] == to);
                }
            }
            if self.allows(from, to) && to.x == from.x && to.y < k {
                if to.y < k - 1 {
                    let i = choose|i: int| 0 <= i < prev.len() && prev[i] == to;
                    assert((prev + add)[i] == to);
                } else {
                    assert(to == v);
                    assert((prev + add)[prev.len() as int] == to);
                }
            }
        }
    }

    /// A square is among the first `k` of `from`'s row that `from` can move to exactly when
    /// the move is allowed and the square lies in that row, in those columns.
    proof fn lemma_row_dests(self, from: Vertex, k: int, to: Vertex)
        requires
            self.board.wf(),
            0 <= k <= self.board.n(),
        ensures
            self.row_dests(from, k).contains(to) <==> (self.allows(from, to) && to.y == from.y
                && to.x < k),
        decreases k,
    {
        if k > 0 {
            self.lemma_row_dests(from, k - 1, to);
            let v = Vertex { size: self.board.spec_size(), x: (k - 1) as usize, y: from.y };
            let prev = self.row_dests(from, k - 1);
            let add = if self.allows(from, v) {
                seq![v]
            } else {
                seq![]
            };
            if (prev + add).contains(to) {
                let i = choose|i: int| 0 <= i < (prev + add).len() && (prev + add)[i] == to;
                if i >= prev.len() {
                    assert(add[i - prev.len()] == to);
                } else {
                    assert(prev[i] == to);
                }
            }
            if self.allows(from, to) && to.y == from.y && to.x < k {
                if to.x < k - 1 {
                    let i = choose|i: int| 0 <= i < prev.len() && prev[i] == to;
                    assert((prev + add)[i] == to);
                } else {
                    assert(to == v);
                    assert((prev + add)[prev.len() as int] == to);
                }
            }
        }
    }

    /// The squares listed for `from` are exactly those it may move to.
    pub proof fn lemma_dests_exact(self, from: Vertex, to: Vertex)
        requires
            self.board.wf(),
        ensures
            self.dests(from).contains(to) <==> self.allows(from, to),
    {
        let n = self.board.n() as int;
        self.lemma_column_dests(from, n, to);
        self.lemma_row_dests(from, n, to);
        let c = self.column_dests(from, n);
        let r = self.row_dests(from, n);
        if (c + r).contains(to) {
            let i = choose|i: int| 0 <= i < (c + r).len() && (c + r)[i] == to;
            if i < c.len() {
                assert(c[i] == to);
            } else {
                assert(r[i - c.len()] == to);
            }
        }
        if self.allows(from, to) {
            if to.x == from.x {
                let i = choose|i: int| 0 <= i < c.len() && c[i] == to;
                assert((c + r)[i] == to);
            } else {
                assert(to.y == from.y);
                let i = choose|i: int| 0 <= i < r.len() && r[i] == to;
                assert((c + r)[c.len() + i] == to);
            }
        }
    }

    /// The entries of the first `x` squares of row `y` list `to` under `from` exactly when
    /// `from` is one of those squares and may move to `to`.
    proof fn lemma_row_entries(self, y: int, x: int, from: Vertex, to: Vertex)
        requires
            self.board.wf(),
            0 <= y < self.board.n(),
            0 <= x <= self.board.n(),
        ensures
            (exists|e: int|
                0 <= e < self.row_entries(y, x).len() && #[trigger] self.row_entries(y, x)[e].0 == from
                    && self.row_entries(y, x)[e].1.contains(to)) <==> (self.allows(from, to)
                && from.y == y && from.x < x),
        decreases x,
    {
        if x > 0 {
            self.lemma_row_entries(y, x - 1, from, to);
            let v = Vertex { size: self.board.spec_size(), x: (x - 1) as usize, y: y as usize };
            let prev = self.row_entries(y, x - 1);
            let add = self.move_entry(v);
            let all = self.row_entries(y, x);
            assert(all == prev + add);
            self.lemma_dests_exact(v, to);
            if exists|e: int| 0 <= e < all.len() && #[trigger] all[e].0 == from && all[e].1.contains(to) {
                let e = choose|e: int| 0 <= e < all.len() && #[trigger] all[e].0 == from && all[e].1.contains(to);
                if e >= prev.len() {
                    assert(add[e - prev.len()] == all[e]);
                    assert(from == v);
                } else {
                    assert(prev[e] == all[e]);
                }
            }
            if self.allows(from, to) && from.y == y && from.x < x {
                if from.x < x - 1 {
                    let e = choose|e: int|
                        0 <= e < prev.len() && #[trigger] prev[e].0 == from && prev[e].1.contains(to);
                    assert(all[e] == prev[e]);
                    assert(all[e].0 == from && all[e].1.contains(to));
                } else {
                    assert(from == v);
                    assert(self.dests(v).contains(to));
                    assert(self.board.at(v).spec_role() == self.turn);
                    assert(all[prev.len() as int] == (v, self.dests(v)));
                    assert(all[prev.len() as int].0 == from && all[prev.len() as int].1.contains(to));
                }
            }
        }
    }

    /// The entries of the first `y` rows list `to` under `from` exactly when `from` lies in
    /// those rows and may move to `to`.
    proof fn lemma_legal_entries(self, y: int, from: Vertex, to: Vertex)
        requires
            self.board.wf(),
            0 <= y <= self.board.n(),
        ensures
            (exists|e: int|
                0 <= e < self.legal_entries(y).len() && #[trigger] self.legal_entries(y)[e].0 == from
                    && self.legal_entries(y)[e].1.contains(to)) <==> (self.allows(from, to)
                && from.y < y),
        decreases y,
    {
        if y > 0 {
            let n = self.board.n() as int;
            self.lemma_legal_entries(y - 1, from, to);
            self.lemma_row_entries(y - 1, n, from, to);
            let prev = self.legal_entries(y - 1);
            let row = self.row_entries(y - 1, n);
            let all = self.legal_entries(y);
            assert(all == prev + row);
            if exists|e: int| 0 <= e < all.len() && #[trigger] all[e].0 == from && all[e].1.contains(to) {
                let e = choose|e: int| 0 <= e < all.len() && #[trigger] all[e].0 == from && all[e].1.contains(to);
                if e >= prev.len() {
                    assert(row[e - prev.len()] == all[e]);
                } else {
                    assert(prev[e] == all[e]);
                }
            }
            if self.allows(from, to) && from.y < y {
                if from.y < y - 1 {
                    let e = choose|e: int|
                        0 <= e < prev.len() && #[trigger] prev[e].0 == from && prev[e].1.contains(to);
                    assert(all[e] == prev[e]);
                    assert(all[e].0 == from && all[e].1.contains(to));
                } else {
                    assert(from.x < n);
                    let e = choose|e: int|
                        0 <= e < row.len() && #[trigger] row[e].0 == from && row[e].1.contains(to);
                    assert(all[prev.len() + e] == row[e]);
                    assert(all[prev.len() + e].0 == from && all[prev.len() + e].1.contains(to));
                }
            }
        }
    }
}

/// The moves listed for the side to move are exactly the moves that break no rule: `to` is
/// listed under `from` exactly when the move from `from` to `to` is allowed.
pub proof fn lemma_legal_moves_exact(g: Game, from: Vertex, to: Vertex)
    requires
        g.board.wf(),
    ensures
        (exists|e: int|
            0 <= e < g.spec_legal_moves().len() && #[trigger] g.spec_legal_moves()[e].0 == from
                && g.spec_legal_moves()[e].1.contains(to)) <==> g.allows(from, to),
{
    g.lemma_legal_entries(g.board.n() as int, from, to);
}

/// The side to move has a move that breaks no rule exactly when its list of moves is not
/// empty.
pub proof fn lemma_legal_move_exists_listed(g: Game)
    requires
        g.board.wf(),
    ensures
        g.board.spec_a_legal_move_exists(g.status, g.turn, g.previous_boards) <==> g.spec_legal_moves().len() > 0,
{
    let l = g.spec_legal_moves();
    if g.board.spec_a_legal_move_exists(g.status, g.turn, g.previous_boards) {
        let (f, t) = choose|f: Vertex, t: Vertex|
            #[trigger] g.board.move_allowed(f, t, g.status, g.turn, g.previous_boards);
        lemma_legal_moves_exact(g, f, t);
        assert(g.allows(f, t));
    }
    if l.len() > 0 {
        g.lemma_entries_nonempty(g.board.n() as int, 0);
        let to = l[0].1[0];
        lemma_legal_moves_exact(g, l[0].0, to);
        assert(l[0].1.contains(to));
        assert(g.board.move_allowed(l[0].0, to, g.status, g.turn, g.previous_boards));
    }
}

impl Game {
    /// Every entry of the first `y` rows lists at least one square.
    proof fn lemma_entries_nonempty(self, y: int, e: int)
        requires
            self.board.wf(),
            0 <= y <= self.board.n(),
            0 <= e < self.legal_entries(y).len(),
        ensures
            self.legal_entries(y)[e].1.len() > 0,
        decreases y,
    {
        let n = self.board.n() as int;
        let prev = self.legal_entries(y - 1);
        let row = self.row_entries(y - 1, n);
        assert(self.legal_entries(y) == prev + row);
        if e < prev.len() {
            self.lemma_entries_nonempty(y - 1, e);
            assert(self.legal_entries(y)[e] == prev[e]);
        } else {
            self.lemma_row_entries_nonempty(y - 1, n, e - prev.len());
            assert(self.legal_entries(y)[e] == row[e - prev.len()]);
        }
    }

    /// Every entry of the first `x` squares of row `y` lists at least one square.
    proof fn lemma_row_entries_nonempty(self, y: int, x: int, e: int)
        requires
            0 <= e < self.row_entries(y, x).len(),
        ensures
            self.row_entries(y, x)[e].1.len() > 0,
        decreases x,
    {
        let v = Vertex { size: self.board.spec_size(), x: (x - 1) as usize, y: y as usize };
        let prev = self.row_entries(y, x - 1);
        let add = self.move_entry(v);
        assert(self.row_entries(y, x) == prev + add);
        if e < prev.len() {
            self.lemma_row_entries_nonempty(y, x - 1, e);
            assert(self.row_entries(y, x)[e] == prev[e]);
        } else {
            assert(self.row_entries(y, x)[e] == add[e - prev.len()]);
        }
    }
}


/// Every entry of the listed moves names squares of a board of the given size.
pub open spec fn entries_within(e: Seq<(Vertex, Seq<Vertex>)>, size: crate::board::BoardSize) -> bool {
    forall|i: int|
        0 <= i < e.len() ==> within((#[trigger] e[i]).0, size) && all_within(e[i].1, size)
}

impl Game {
    /// The squares of a column a piece can move to lie on the board.
    proof fn lemma_column_dests_within(self, from: Vertex, k: int)
        requires
            from.x < self.board.n(),
            k <= self.board.n(),
        ensures
            all_within(self.column_dests(from, k), self.board.spec_size()),
        decreases k,
    {
        if k > 0 {
            self.lemma_column_dests_within(from, k - 1);
        }
    }

    /// The squares of a row a piece can move to lie on the board.
    proof fn lemma_row_dests_within(self, from: Vertex, k: int)
        requires
            from.y < self.board.n(),
            k <= self.board.n(),
        ensures
            all_within(self.row_dests(from, k), self.board.spec_size()),
        decreases k,
    {
        if k > 0 {
            self.lemma_row_dests_within(from, k - 1);
        }
    }

    /// The entries of a row name squares of the board.
    proof fn lemma_row_entries_within(self, y: int, x: int)
        requires
            self.board.wf(),
            0 <= y < self.board.n(),
            x <= self.board.n(),
        ensures
            entries_within(self.row_entries(y, x), self.board.spec_size()),
        decreases x,
    {
        if x > 0 {
            self.lemma_row_entries_within(y, x - 1);
            let v = Vertex { size: self.board.spec_size(), x: (x - 1) as usize, y: y as usize };
            self.lemma_column_dests_within(v, self.board.n() as int);
            self.lemma_row_dests_within(v, self.board.n() as int);
            let d = self.dests(v);
            assert(all_within(d, self.board.spec_size())) by {
                let c = self.column_dests(v, self.board.n() as int);
                let r = self.row_dests(v, self.board.n() as int);
                assert forall|i: int| 0 <= i < d.len() implies within(#[trigger] d[i], self.board.spec_size()) by {
                    if i < c.len() {
                        assert(d[i] == c[i]);
                    } else {
                        assert(d[i] == r[i - c.len()]);
                    }
                }
            }
        }
    }

    /// The entries of the first rows name squares of the board.
    proof fn lemma_legal_entries_within(self, y: int)
        requires
            self.board.wf(),
            y <= self.board.n(),
        ensures
            entries_within(self.legal_entries(y), self.board.spec_size()),
        decreases y,
    {
        if y > 0 {
            self.lemma_legal_entries_within(y - 1);
            self.lemma_row_entries_within(y - 1, self.board.n() as int);
        }
    }

    /// The listed moves name only squares of the board.
    pub proof fn lemma_legal_moves_within(self)
        requires
            self.board.wf(),
        ensures
            entries_within(self.spec_legal_moves(), self.board.spec_size()),
    {
        self.lemma_legal_entries_within(self.board.n() as int);
    }
}

} // verus!
