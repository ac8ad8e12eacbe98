use vstd::prelude::*;

use crate::board::{area, cell, Board};
use crate::board_capture::{step, Direction4};
use crate::play::Vertex;
use crate::role::Role;
use crate::space::Space;

verus! {

/// `v` is one of the four neighbours of `u`.
pub open spec fn adjacent(u: Vertex, v: Vertex) -> bool {
    ||| step(u, Direction4::Up) == Some(v)
    ||| step(u, Direction4::Left) == Some(v)
    ||| step(u, Direction4::Down) == Some(v)
    ||| step(u, Direction4::Right) == Some(v)
}

impl Board {
    /// The king's side can pass over the square: it is empty or holds a defender or the king.
    pub open spec fn open_to_king(self, v: Vertex) -> bool {
        self.at(v).spec_role() != Role::Attacker
    }

    /// A walk over squares open to the king's side, each step to a neighbour.
    pub open spec fn king_walk(self, p: Seq<Vertex>) -> bool {
        &&& p.len() > 0
        &&& forall|i: int|
            0 <= i < p.len() ==> self.on_board(#[trigger] p[i]) && self.open_to_king(p[i])
        &&& forall|i: int| 0 <= i < p.len() - 1 ==> adjacent(#[trigger] p[i], p[i + 1])
    }

    /// The king's side can walk from `from` to `to`.
    pub open spec fn king_reaches(self, from: Vertex, to: Vertex) -> bool {
        exists|p: Seq<Vertex>| #[trigger] self.king_walk(p) && p[0] == from && p.last() == to
    }

    /// The attackers have won by enclosure: the king is on the board, no square the king's
    /// side can walk to from the king lies on an edge, and every defender can be walked to.
    pub open spec fn attackers_enclose(self) -> bool {
        match self.king {
            None => false,
            Some(k) => {
                &&& forall|v: Vertex| #[trigger]
                    self.king_reaches(k, v) ==> !v.spec_touches_wall()
                &&& forall|v: Vertex|
                    self.on_board(v) && #[trigger] self.at(v).spec_role() == Role::Defender
                        ==> self.king_reaches(k, v)
            },
        }
    }

    /// A square that the search may have marked: one the king's side can walk to, or a
    /// neighbour of one.
    pub open spec fn near_king_region(self, k: Vertex, v: Vertex) -> bool {
        ||| v == k
        ||| self.king_reaches(k, v)
        ||| exists|u: Vertex| #[trigger] self.king_reaches(k, u) && adjacent(u, v)
    }
}

/// Stepping keeps a vertex on its board.
pub proof fn lemma_step_on_board(b: Board, v: Vertex, d: Direction4)
    requires
        b.wf(),
        b.on_board(v),
    ensures
        step(v, d) matches Some(w) ==> b.on_board(w),
        step(v, d) is None <==> match d {
            Direction4::Up => v.y == 0,
            Direction4::Left => v.x == 0,
            Direction4::Down => v.y + 1 == b.n(),
            Direction4::Right => v.x + 1 == b.n(),
        },
{
}

/// A walk extends by a step to an open neighbour.
pub proof fn lemma_walk_push(b: Board, p: Seq<Vertex>, v: Vertex)
    requires
        b.king_walk(p),
        adjacent(p.last(), v),
        b.on_board(v),
        b.open_to_king(v),
    ensures
        b.king_walk(p.push(v)),
        p.push(v)[0] == p[0],
        p.push(v).last() == v,
{
    let q = p.push(v);
    assert forall|i: int| 0 <= i < q.len() - 1 implies adjacent(#[trigger] q[i], q[i + 1]) by {
        if i < p.len() - 1 {
            assert(q[i] == p[i] && q[i + 1] == p[i + 1]);
        } else {
            assert(q[i] == p.last());
        }
    }
}

/// Marks, on a board-sized list of flags, the square of a vertex.
pub open spec fn marked(checked: Seq<bool>, n: nat, v: Vertex) -> bool {
    checked[cell(n, v.x as int, v.y as int)]
}

/// The number of unmarked squares.
pub open spec fn unmarked(s: Seq<bool>) -> nat
    decreases s.len(),
{
    if s.len() == 0 {
        0
    } else {
        unmarked(s.drop_last()) + if !s.last() {
            1nat
        } else {
            0nat
        }
    }
}

pub proof fn lemma_unmarked_mark(s: Seq<bool>, i: int)
    requires
        0 <= i < s.len(),
        !s[i],
    ensures
        unmarked(s.update(i, true)) + 1 == unmarked(s),
    decreases s.len(),
{
    if i == s.len() - 1 {
        assert(s.update(i, true).drop_last() =~= s.drop_last());
    } else {
        lemma_unmarked_mark(s.drop_last(), i);
        assert(s.update(i, true).drop_last() =~= s.drop_last().update(i, true));
    }
}

/// The square of a board vertex is a valid index of a board-sized list.
pub proof fn lemma_cell_in_range(b: Board, v: Vertex)
    requires
        b.wf(),
        b.on_board(v),
    ensures
        0 <= cell(b.n(), v.x as int, v.y as int) < b.spaces@.len(),
        b.spaces@.len() == area(b.n()),
{
}

/// Two board vertices with the same square are the same vertex.
pub proof fn lemma_cell_injective(b: Board, u: Vertex, v: Vertex)
    requires
        b.wf(),
        b.on_board(u),
        b.on_board(v),
        cell(b.n(), u.x as int, u.y as int) == cell(b.n(), v.x as int, v.y as int),
    ensures
        u == v,
{
}

/// All four neighbours of a square exist and are marked.
pub open spec fn expanded(checked: Seq<bool>, n: nat, v: Vertex) -> bool {
    &&& step(v, Direction4::Up) matches Some(w) && marked(checked, n, w)
    &&& step(v, Direction4::Left) matches Some(w) && marked(checked, n, w)
    &&& step(v, Direction4::Down) matches Some(w) && marked(checked, n, w)
    &&& step(v, Direction4::Right) matches Some(w) && marked(checked, n, w)
}

/// When a search has marked the start and, for every marked open square, all its neighbours,
/// every square reachable from the start is marked.
pub proof fn lemma_walk_marked(b: Board, checked: Seq<bool>, p: Seq<Vertex>, i: int)
    requires
        b.wf(),
        b.king_walk(p),
        checked.len() == b.spaces@.len(),
        marked(checked, b.n(), p[0]),
        forall|v: Vertex|
            b.on_board(v) && #[trigger] marked(checked, b.n(), v) && b.open_to_king(v) ==> expanded(
                checked,
                b.n(),
                v,
            ),
        0 <= i < p.len(),
    ensures
        marked(checked, b.n(), p[i]),
    decreases i,
{
    if i > 0 {
        lemma_walk_marked(b, checked, p, i - 1);
        assert(adjacent(p[i - 1], p[i]));
        assert(b.on_board(p[i - 1]) && b.open_to_king(p[i - 1]));
    }
}

impl Board {
    /// Marks the square of a neighbour and stacks it, when there is one and it is unmarked;
    /// says whether there is one.
    pub(crate) fn expand_flood_fill(
        &self,
        vertex: Option<Vertex>,
        already_checked: &mut Vec<bool>,
        stack: &mut Vec<Vertex>,
    ) -> (r: bool)
        requires
            self.wf(),
            old(already_checked)@.len() == self.spaces@.len(),
            vertex matches Some(v) ==> self.on_board(v),
        ensures
            r == (vertex is Some),
            final(already_checked)@.len() == self.spaces@.len(),
            match vertex {
                None => final(already_checked)@ == old(already_checked)@ && final(stack)@ == old(
                    stack,
                )@,
                Some(v) => {
                    let i = cell(self.n(), v.x as int, v.y as int);
                    if old(already_checked)@[i] {
                        final(already_checked)@ == old(already_checked)@ && final(stack)@ == old(
                            stack,
                        )@
                    } else {
                        &&& final(already_checked)@ == old(already_checked)@.update(i, true)
                        &&& final(stack)@ == old(stack)@.push(v)
                    }
                },
            },
    {
        if let Some(v) = vertex {
            let i = if self.spaces.len() == 121 {
                v.y * 11 + v.x
            } else {
                v.y * 13 + v.x
            };
            if !already_checked[i] {
                stack.push(v);
                already_checked.set(i, true);
            }
            true
        } else {
            false
        }
    }

    /// The bookkeeping of the search from the king: the list has the board's length, the king
    /// is marked, stacked squares are marked board squares, every marked square is near the
    /// king's region, and every marked open square that is not stacked (and not `except`) has
    /// all four neighbours marked.
    pub open spec fn flood_inv(
        self,
        k: Vertex,
        c: Seq<bool>,
        st: Seq<Vertex>,
        except: Option<Vertex>,
    ) -> bool {
        &&& c.len() == self.spaces@.len()
        &&& marked(c, self.n(), k)
        &&& forall|t: int|
            0 <= t < st.len() ==> self.on_board(#[trigger] st[t]) && marked(c, self.n(), st[t])
        &&& forall|v: Vertex|
            self.on_board(v) && #[trigger] marked(c, self.n(), v) ==> self.near_king_region(k, v)
        &&& forall|v: Vertex|
            self.on_board(v) && #[trigger] marked(c, self.n(), v) && self.open_to_king(v)
                && !st.contains(v) && Some(v) != except ==> expanded(c, self.n(), v)
    }

    /// An open square near the king's region is in it.
    proof fn lemma_near_open_reaches(self, k: Vertex, v: Vertex)
        requires
            self.wf(),
            self.on_board(k),
            self.on_board(v),
            self.open_to_king(v),
            self.near_king_region(k, v),
        ensures
            self.king_reaches(k, v),
    {
        if v == k {
            assert(self.king_walk(seq![k]));
        } else if !self.king_reaches(k, v) {
            let u = choose|u: Vertex| #[trigger] self.king_reaches(k, u) && adjacent(u, v);
            let p = choose|p: Seq<Vertex>| #[trigger] self.king_walk(p) && p[0] == k && p.last() == u;
            lemma_walk_push(self, p, v);
            assert(self.king_walk(p.push(v)));
        }
    }

    /// One expansion of the popped square `v` toward its neighbour in direction `d` keeps the
    /// bookkeeping, marks the neighbour, and does not raise the search's measure.
    proof fn lemma_expand_keeps(
        self,
        k: Vertex,
        v: Vertex,
        d: Direction4,
        c0: Seq<bool>,
        s0: Seq<Vertex>,
        c1: Seq<bool>,
        s1: Seq<Vertex>,
    )
        requires
            self.wf(),
            self.on_board(v),
            self.king_reaches(k, v),
            self.flood_inv(k, c0, s0, Some(v)),
            step(v, d) matches Some(w) && {
                let i = cell(self.n(), w.x as int, w.y as int);
                if c0[i] {
                    c1 == c0 && s1 == s0
                } else {
                    c1 == c0.update(i, true) && s1 == s0.push(w)
                }
            },
        ensures
            self.flood_inv(k, c1, s1, Some(v)),
            step(v, d) matches Some(w) && marked(c1, self.n(), w),
            forall|u: Vertex| self.on_board(u) && #[trigger] marked(c0, self.n(), u) ==> marked(c1, self.n(), u),
            5 * unmarked(c1) + s1.len() <= 5 * unmarked(c0) + s0.len(),
    {
        let n = self.n();
        let w = step(v, d).unwrap();
        lemma_step_on_board(self, v, d);
        lemma_cell_in_range(self, w);
        let i = cell(n, w.x as int, w.y as int);
        assert forall|u: Vertex| self.on_board(u) && #[trigger] marked(c0, n, u) implies marked(c1, n, u) by {
            lemma_cell_in_range(self, u);
            if !c0[i] {
                let j = cell(n, u.x as int, u.y as int);
                if j != i {
                    assert(c1[j] == c0[j]);
                }
            }
        }
        if !c0[i] {
            lemma_unmarked_mark(c0, i);
            assert forall|t: int|
                0 <= t < s1.len() implies self.on_board(#[trigger] s1[t]) && marked(c1, n, s1[t]) by {
                if t < s0.len() {
                    assert(s1[t] == s0[t]);
                    assert(marked(c0, n, s0[t]));
                }
            }
            assert forall|u: Vertex|
                self.on_board(u) && #[trigger] marked(c1, n, u) implies self.near_king_region(k, u) by {
                if u == w {
                    assert(adjacent(v, w));
                } else {
                    lemma_cell_in_range(self, u);
                    if cell(n, u.x as int, u.y as int) == i {
                        lemma_cell_injective(self, u, w);
                    }
                    assert(marked(c0, n, u));
                }
            }
            assert forall|u: Vertex|
                self.on_board(u) && #[trigger] marked(c1, n, u) && self.open_to_king(u)
                    && !s1.contains(u) && Some(u) != Some(v) implies expanded(c1, n, u) by {
                lemma_cell_in_range(self, u);
                if cell(n, u.x as int, u.y as int) == i {
                    lemma_cell_injective(self, u, w);
                    assert(s1[s1.len() - 1] == w);
                }
                assert(marked(c0, n, u));
                assert(!s0.contains(u)) by {
                    if s0.contains(u) {
                        let t = choose|t: int| 0 <= t < s0.len() && s0[t] == u;
                        assert(s1[t] == u);
                    }
                }
                assert(expanded(c0, n, u));
            }
        } else {
            assert forall|u: Vertex|
                self.on_board(u) && #[trigger] marked(c1, n, u) && self.open_to_king(u)
                    && !s1.contains(u) && Some(u) != Some(v) implies expanded(c1, n, u) by {
                assert(expanded(c0, n, u));
            }
        }
    }

    /// Whether every defender (and the king) is marked.
    fn all_defenders_marked(&self, checked: &Vec<bool>) -> (r: bool)
        requires
            self.wf(),
            checked@.len() == self.spaces@.len(),
        ensures
            r == forall|v: Vertex|
                self.on_board(v) && #[trigger] self.at(v).spec_role() == Role::Defender ==> marked(
                    checked@,
                    self.n(),
                    v,
                ),
    {
        let size = self.size();
        let n = size.to_usize();
        let mut y: usize = 0;
        while y < n
            invariant
                self.wf(),
                n == self.n(),
                size == self.spec_size(),
                checked@.len() == self.spaces@.len(),
                y <= n,
                forall|v: Vertex|
                    self.on_board(v) && v.y < y && #[trigger] self.at(v).spec_role() == Role::Defender
                        ==> marked(checked@, self.n(), v),
            decreases n - y,
        {
            let mut x: usize = 0;
            while x < n
                invariant
                    self.wf(),
                    n == self.n(),
                    size == self.spec_size(),
                    checked@.len() == self.spaces@.len(),
                    y < n,
                    x <= n,
                    forall|v: Vertex|
                        self.on_board(v) && (v.y < y || (v.y == y && v.x < x))
                            && #[trigger] self.at(v).spec_role() == Role::Defender ==> marked(
                            checked@,
                            self.n(),
                            v,
                        ),
                decreases n - x,
            {
                let v = Vertex { size, x, y };
                let i = if n == 11 {
                    y * 11 + x
                } else {
                    y * 13 + x
                };
                if self.get(&v).role() == Role::Defender && !checked[i] {
                    assert(self.on_board(v));
                    return false;
                }
                x = x + 1;
            }
            y = y + 1;
        }
        true
    }

    /// Whether the attackers have enclosed the king and every defender, so that none can reach
    /// an edge.
    pub(crate) fn flood_fill_attacker_wins(&self) -> (r: bool)
        requires
            self.wf(),
        ensures
            r == self.attackers_enclose(),
    {
        let kings_vertex = match self.king {
            Some(k) => k,
            None => return false,
        };
        let ghost k = kings_vertex;
        let ghost n = self.n();
        let len = self.spaces.len();
        let mut already_checked: Vec<bool> = Vec::new();
        let mut j: usize = 0;
        while j < len
            invariant
                j <= len,
                len == self.spaces@.len(),
                already_checked@.len() == j,
                forall|t: int| 0 <= t < j ==> !(#[trigger] already_checked@[t]),
            decreases len - j,
        {
            already_checked.push(false);
            j = j + 1;
        }
        let ki = if len == 121 {
            kings_vertex.y * 11 + kings_vertex.x
        } else {
            kings_vertex.y * 13 + kings_vertex.x
        };
        proof {
            lemma_cell_in_range(*self, k);
        }
        let ghost c_start = already_checked@;
        already_checked.set(ki, true);
        let mut stack: Vec<Vertex> = Vec::new();
        stack.push(kings_vertex);
        proof {
            assert forall|v: Vertex|
                self.on_board(v) && #[trigger] marked(already_checked@, n, v)
                    implies self.near_king_region(k, v) by {
                lemma_cell_in_range(*self, v);
                if cell(n, v.x as int, v.y as int) != ki {
                    assert(already_checked@[cell(n, v.x as int, v.y as int)] == c_start[cell(
                        n,
                        v.x as int,
                        v.y as int,
                    )]);
                }
                lemma_cell_injective(*self, v, k);
            }
            assert forall|v: Vertex|
                self.on_board(v) && #[trigger] marked(already_checked@, n, v) && self.open_to_king(v)
                    && !stack@.contains(v) && Some(v) != None::<Vertex> implies expanded(
                already_checked@,
                n,
                v,
            ) by {
                lemma_cell_in_range(*self, v);
                if cell(n, v.x as int, v.y as int) != ki {
                    assert(already_checked@[cell(n, v.x as int, v.y as int)] == c_start[cell(
                        n,
                        v.x as int,
                        v.y as int,
                    )]);
                }
                lemma_cell_injective(*self, v, k);
                assert(stack@[0] == k);
            }
            assert(self.flood_inv(k, already_checked@, stack@, None));
        }
        while stack.len() > 0
            invariant
                self.wf(),
                self.king == Some(k),
                n == self.n(),
                self.flood_inv(k, already_checked@, stack@, None),
            decreases 5 * unmarked(already_checked@) + stack@.len(),
        {
            let ghost stack_before = stack@;
            let ghost c_before = already_checked@;
            let vertex = stack.pop().unwrap();
            proof {
                assert(stack_before == stack@.push(vertex));
                assert(stack_before[stack_before.len() - 1] == vertex);
                assert forall|u: Vertex|
                    self.on_board(u) && #[trigger] marked(already_checked@, n, u)
                        && self.open_to_king(u) && !stack@.contains(u) && Some(u) != Some(vertex)
                        implies expanded(already_checked@, n, u) by {
                    if stack_before.contains(u) {
                        let t = choose|t: int| 0 <= t < stack_before.len() && stack_before[t] == u;
                        if t < stack@.len() {
                            assert(stack@[t] == u);
                        }
                    }
                }
                assert(self.flood_inv(k, already_checked@, stack@, Some(vertex)));
            }
            let space = self.get(&vertex);
            if space == Space::Empty || space.role() == Role::Defender {
                proof {
                    assert(self.open_to_king(vertex));
                    self.lemma_near_open_reaches(k, vertex);
                    lemma_step_on_board(*self, vertex, Direction4::Up);
                    lemma_step_on_board(*self, vertex, Direction4::Left);
                    lemma_step_on_board(*self, vertex, Direction4::Down);
                    lemma_step_on_board(*self, vertex, Direction4::Right);
                    lemma_cell_in_range(*self, vertex);
                }
                let ghost c0 = already_checked@;
                let ghost s0 = stack@;
                if !self.expand_flood_fill(vertex.up(), &mut already_checked, &mut stack) {
                    assert(vertex.spec_touches_wall());
                    return false;
                }
                proof {
                    self.lemma_expand_keeps(k, vertex, Direction4::Up, c0, s0, already_checked@, stack@);
                }
                let ghost c1 = already_checked@;
                let ghost s1 = stack@;
                if !self.expand_flood_fill(vertex.left(), &mut already_checked, &mut stack) {
                    assert(vertex.spec_touches_wall());
                    return false;
                }
                proof {
                    self.lemma_expand_keeps(k, vertex, Direction4::Left, c1, s1, already_checked@, stack@);
                }
                let ghost c2 = already_checked@;
                let ghost s2 = stack@;
                if !self.expand_flood_fill(vertex.down(), &mut already_checked, &mut stack) {
                    assert(vertex.spec_touches_wall());
                    return false;
                }
                proof {
                    self.lemma_expand_keeps(k, vertex, Direction4::Down, c2, s2, already_checked@, stack@);
                }
                let ghost c3 = already_checked@;
                let ghost s3 = stack@;
                if !self.expand_flood_fill(vertex.right(), &mut already_checked, &mut stack) {
                    assert(vertex.spec_touches_wall());
                    return false;
                }
                proof {
                    self.lemma_expand_keeps(k, vertex, Direction4::Right, c3, s3, already_checked@, stack@);
                    let c4 = already_checked@;
                    assert(marked(c4, n, vertex.spec_up().unwrap()));
                    assert(marked(c4, n, vertex.spec_left().unwrap()));
                    assert(marked(c4, n, vertex.spec_down().unwrap()));
                    assert(expanded(c4, n, vertex));
                    assert(self.flood_inv(k, c4, stack@, None));
                }
            } else {
                proof {
                    assert(!self.open_to_king(vertex));
                    assert(self.flood_inv(k, already_checked@, stack@, None));
                }
            }
        }
        proof {
            // With nothing left to search, every square the king's side can walk to is marked
            // and has all four neighbours, so none lies on an edge.
            assert forall|v: Vertex| #[trigger] self.king_reaches(k, v) implies !v.spec_touches_wall()
                && marked(already_checked@, n, v) by {
                let p = choose|p: Seq<Vertex>| #[trigger] self.king_walk(p) && p[0] == k && p.last() == v;
                lemma_walk_marked(*self, already_checked@, p, p.len() - 1);
                assert(self.on_board(p[p.len() - 1]) && self.open_to_king(p[p.len() - 1]));
                assert(!stack@.contains(v));
                assert(expanded(already_checked@, n, v));
            }
        }
        let all = self.all_defenders_marked(&already_checked);
        proof {
            if all {
                assert forall|v: Vertex|
                    self.on_board(v) && #[trigger] self.at(v).spec_role() == Role::Defender
                        implies self.king_reaches(k, v) by {
                    assert(marked(already_checked@, n, v));
                    self.lemma_near_open_reaches(k, v);
                }
            } else {
                let v = choose|v: Vertex|
                    self.on_board(v) && #[trigger] self.at(v).spec_role() == Role::Defender && !marked(
                        already_checked@,
                        n,
                        v,
                    );
                assert(!self.king_reaches(k, v));
            }
        }
        all
    }
}

} // verus!
