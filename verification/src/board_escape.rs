use vstd::prelude::*;

use crate::board::{cell, Board};
use crate::board_capture::{opt_seq, step, Direction4};
use crate::board_flood::{
    adjacent, lemma_cell_in_range, lemma_cell_injective, lemma_step_on_board, lemma_unmarked_mark,
    marked, unmarked,
};
use crate::play::Vertex;
use crate::role::Role;
use crate::space::Space;

verus! {

/// The two directions in which a corner has neighbours, in the order up, left, down, right.
pub open spec fn corner_dirs(e: Vertex) -> (Direction4, Direction4) {
    if e.y == 0 {
        if e.x == 0 {
            (Direction4::Down, Direction4::Right)
        } else {
            (Direction4::Left, Direction4::Down)
        }
    } else {
        if e.x == 0 {
            (Direction4::Up, Direction4::Right)
        } else {
            (Direction4::Up, Direction4::Left)
        }
    }
}

/// The neighbour of a square in a direction, or the square itself where there is none.
pub open spec fn toward(v: Vertex, d: Direction4) -> Vertex {
    match step(v, d) {
        Some(w) => w,
        None => v,
    }
}

/// The corner `e` itself or a square next to it.
pub open spec fn by_corner(e: Vertex, v: Vertex) -> bool {
    v == e || adjacent(e, v)
}

/// One of the squares that hold corner `e` closed when attackers stand on both its arms: the
/// corner and the first two squares of each arm.
pub open spec fn sealed_square(e: Vertex, v: Vertex) -> bool {
    let (d1, d2) = corner_dirs(e);
    ||| v == e
    ||| v == toward(e, d1)
    ||| v == toward(toward(e, d1), d1)
    ||| v == toward(e, d2)
    ||| v == toward(toward(e, d2), d2)
}

/// Every neighbour of `v` is marked.
pub open spec fn nbrs_marked(c: Seq<bool>, n: nat, v: Vertex) -> bool {
    &&& (step(v, Direction4::Up) matches Some(w) ==> marked(c, n, w))
    &&& (step(v, Direction4::Left) matches Some(w) ==> marked(c, n, w))
    &&& (step(v, Direction4::Down) matches Some(w) ==> marked(c, n, w))
    &&& (step(v, Direction4::Right) matches Some(w) ==> marked(c, n, w))
}

/// A list of flags, all down.
pub(crate) fn blank_marks(len: usize) -> (v: Vec<bool>)
    ensures
        v@.len() == len,
        forall|t: int| 0 <= t < len ==> !(#[trigger] v@[t]),
{
    let mut v: Vec<bool> = Vec::new();
    let mut j: usize = 0;
    while j < len
        invariant
            j <= len,
            v@.len() == j,
            forall|t: int| 0 <= t < j ==> !(#[trigger] v@[t]),
        decreases len - j,
    {
        v.push(false);
        j = j + 1;
    }
    v
}

impl Board {
    /// The first two squares from corner `e` in direction `d` hold attackers.
    pub open spec fn arm_held(self, e: Vertex, d: Direction4) -> bool {
        &&& self.at(toward(e, d)) == Space::Attacker
        &&& self.at(toward(toward(e, d), d)) == Space::Attacker
    }

    /// Both arms of corner `e` are held by attackers two deep.
    pub open spec fn corner_sealed(self, e: Vertex) -> bool {
        self.arm_held(e, corner_dirs(e).0) && self.arm_held(e, corner_dirs(e).1)
    }

    /// A square next to corner `e` from which the search spreads: empty or an attacker.
    pub open spec fn escape_seed(self, e: Vertex, v: Vertex) -> bool {
        adjacent(e, v) && (self.at(v) == Space::Empty || self.at(v) == Space::Attacker)
    }

    /// A walk of the search from corner `e`: it starts on a seed, steps from square to
    /// neighbouring square, never comes back by the corner, and passes only over empty squares.
    pub open spec fn escape_walk(self, e: Vertex, p: Seq<Vertex>) -> bool {
        &&& p.len() >= 2
        &&& self.escape_seed(e, p[0])
        &&& forall|i: int| 1 <= i < p.len() ==> self.on_board(#[trigger] p[i]) && !by_corner(e, p[i])
        &&& forall|i: int| 0 <= i < p.len() - 1 ==> adjacent(#[trigger] p[i], p[i + 1])
        &&& forall|i: int| 1 <= i < p.len() - 1 ==> self.at(#[trigger] p[i]) == Space::Empty
    }

    /// The search from corner `e` reaches `v`.
    pub open spec fn escape_reaches(self, e: Vertex, v: Vertex) -> bool {
        exists|p: Seq<Vertex>| #[trigger] self.escape_walk(e, p) && p.last() == v
    }

    /// The search from corner `e` reaches no defender and not the king.
    pub open spec fn escape_closed(self, e: Vertex) -> bool {
        forall|v: Vertex| #[trigger]
            self.escape_reaches(e, v) ==> self.at(v).spec_role() != Role::Defender
    }

    /// Corner `e` is closed off from the king's side: attackers hold both its arms, or its
    /// search reaches no defender and not the king.
    pub open spec fn closed_off(self, e: Vertex) -> bool {
        self.corner_sealed(e) || self.escape_closed(e)
    }

    /// The squares that a closed-off corner `e` counts as held: the sealing squares when its
    /// arms are held, else the corner, the seeds on an edge, and the empty squares on an edge
    /// that its search reaches.
    pub open spec fn closed_off_square(self, e: Vertex, v: Vertex) -> bool {
        if self.corner_sealed(e) {
            sealed_square(e, v)
        } else {
            ||| v == e
            ||| self.escape_seed(e, v) && v.spec_touches_wall()
            ||| self.escape_reaches(e, v) && self.at(v) == Space::Empty && v.spec_touches_wall()
        }
    }

    /// A square the search has finished with: marked, not by the corner, neither stacked nor
    /// the one in hand.
    pub open spec fn escape_done(
        self,
        e: Vertex,
        c: Seq<bool>,
        st: Seq<Vertex>,
        cur: Option<Vertex>,
        v: Vertex,
    ) -> bool {
        &&& self.on_board(v)
        &&& marked(c, self.n(), v)
        &&& !by_corner(e, v)
        &&& !st.contains(v)
        &&& cur != Some(v)
    }

    /// One of the first `done` squares next to the corner, a seed on an edge.
    pub open spec fn seed_counted(self, e: Vertex, pre: Seq<Vertex>, done: int, v: Vertex) -> bool {
        exists|t: int|
            0 <= t < done && #[trigger] pre[t] == v && self.escape_seed(e, v)
                && v.spec_touches_wall()
    }

    /// The bookkeeping of the search from corner `e`: the marks, the stack `st`, the square in
    /// hand `cur`, the squares next to the corner `pre` of which the first `done` have been
    /// spread from, and the held squares `d` grown from `d0`.
    pub open spec fn escape_inv(
        self,
        e: Vertex,
        c: Seq<bool>,
        st: Seq<Vertex>,
        cur: Option<Vertex>,
        pre: Seq<Vertex>,
        done: int,
        d0: Seq<bool>,
        d: Seq<bool>,
    ) -> bool {
        let n = self.n();
        &&& c.len() == self.spaces@.len()
        &&& d.len() == self.spaces@.len()
        &&& d0.len() == self.spaces@.len()
        &&& marked(c, n, e)
        &&& 0 <= done <= pre.len()
        &&& forall|t: int|
            0 <= t < pre.len() ==> adjacent(e, #[trigger] pre[t]) && self.on_board(pre[t])
                && marked(c, n, pre[t])
        &&& forall|v: Vertex| #[trigger] adjacent(e, v) ==> pre.contains(v)
        &&& forall|t: int|
            0 <= t < done && self.escape_seed(e, #[trigger] pre[t]) ==> nbrs_marked(c, n, pre[t])
        &&& st.no_duplicates()
        &&& forall|t: int|
            0 <= t < st.len() ==> self.on_board(#[trigger] st[t]) && marked(c, n, st[t])
                && !by_corner(e, st[t]) && self.escape_reaches(e, st[t])
        &&& forall|v: Vertex|
            self.on_board(v) && #[trigger] marked(c, n, v) ==> by_corner(e, v)
                || self.escape_reaches(e, v)
        &&& forall|v: Vertex| #[trigger]
            self.escape_done(e, c, st, cur, v) ==> self.at(v).spec_role() != Role::Defender && (
            self.at(v) == Space::Empty ==> nbrs_marked(c, n, v))
        &&& forall|v: Vertex|
            self.on_board(v) ==> (#[trigger] marked(d, n, v) == (marked(d0, n, v)
                || self.seed_counted(e, pre, done, v) || (self.escape_done(e, c, st, cur, v)
                && self.at(v) == Space::Empty && v.spec_touches_wall())))
    }

    /// One spreading step of the search, from a seed or from an empty square it reached,
    /// toward the neighbour in direction `d`, keeps the bookkeeping and marks the neighbour.
    proof fn lemma_escape_expand(
        self,
        e: Vertex,
        v: Vertex,
        dir: Direction4,
        c0: Seq<bool>,
        s0: Seq<Vertex>,
        c1: Seq<bool>,
        s1: Seq<Vertex>,
        cur: Option<Vertex>,
        pre: Seq<Vertex>,
        done: int,
        d0: Seq<bool>,
        d: Seq<bool>,
    )
        requires
            self.wf(),
            self.on_board(e),
            self.on_board(v),
            self.escape_inv(e, c0, s0, cur, pre, done, d0, d),
            self.escape_seed(e, v) || (self.escape_reaches(e, v) && self.at(v) == Space::Empty),
            step(v, dir) matches Some(w) && {
                let i = cell(self.n(), w.x as int, w.y as int);
                if c0[i] {
                    c1 == c0 && s1 == s0
                } else {
                    c1 == c0.update(i, true) && s1 == s0.push(w)
                }
            },
        ensures
            self.escape_inv(e, c1, s1, cur, pre, done, d0, d),
            step(v, dir) matches Some(w) && marked(c1, self.n(), w),
            forall|u: Vertex| self.on_board(u) && #[trigger] marked(c0, self.n(), u) ==> marked(c1, self.n(), u),
            5 * unmarked(c1) + s1.len() <= 5 * unmarked(c0) + s0.len(),
    {
        let n = self.n();
        let w = step(v, dir).unwrap();
        lemma_step_on_board(self, v, dir);
        lemma_cell_in_range(self, w);
        let i = cell(n, w.x as int, w.y as int);
        assert forall|u: Vertex| self.on_board(u) && #[trigger] marked(c0, n, u) implies marked(c1, n, u) by {
            lemma_cell_in_range(self, u);
            if !c0[i] {
                let j = cell(n, u.x as int, u.y as int);
                if j != i {
                    assert(c1[j] == c0[j]);
                }
            }
        }
        if !c0[i] {
            lemma_unmarked_mark(c0, i);
            // The neighbour is new: it is not by the corner and the search reaches it.
            assert(!by_corner(e, w)) by {
                if w == e {
                    assert(marked(c0, n, e));
                }
                if adjacent(e, w) {
                    assert(pre.contains(w));
                    let t = choose|t: int| 0 <= t < pre.len() && pre[t] == w;
                    assert(marked(c0, n, pre[t]));
                }
            }
            assert(self.escape_reaches(e, w)) by {
                if self.escape_seed(e, v) {
                    let p = seq![v, w];
                    assert(p[1] == w);
                    assert(self.escape_walk(e, p));
                    assert(p.last() == w);
                } else {
                    let p = choose|p: Seq<Vertex>| #[trigger] self.escape_walk(e, p) && p.last() == v;
                    let q = p.push(w);
                    assert forall|k: int| 1 <= k < q.len() implies self.on_board(#[trigger] q[k])
                        && !by_corner(e, q[k]) by {
                        if k < p.len() {
                            assert(q[k] == p[k]);
                        }
                    }
                    assert forall|k: int| 0 <= k < q.len() - 1 implies adjacent(#[trigger] q[k], q[k + 1]) by {
                        if k < p.len() - 1 {
                            assert(q[k] == p[k] && q[k + 1] == p[k + 1]);
                        } else {
                            assert(q[k] == p.last());
                        }
                    }
                    assert forall|k: int| 1 <= k < q.len() - 1 implies self.at(#[trigger] q[k]) == Space::Empty by {
                        if k < p.len() - 1 {
                            assert(q[k] == p[k]);
                        } else {
                            assert(q[k] == p.last());
                        }
                    }
                    assert(self.escape_walk(e, q));
                    assert(q.last() == w);
                }
            }
            assert(!s0.contains(w)) by {
                if s0.contains(w) {
                    let t = choose|t: int| 0 <= t < s0.len() && s0[t] == w;
                    assert(marked(c0, n, s0[t]));
                }
            }
            assert forall|t: int|
                0 <= t < s1.len() implies self.on_board(#[trigger] s1[t]) && marked(c1, n, s1[t])
                    && !by_corner(e, s1[t]) && self.escape_reaches(e, s1[t]) by {
                if t < s0.len() {
                    assert(s1[t] == s0[t]);
                    assert(marked(c0, n, s0[t]));
                }
            }
            assert forall|u: Vertex|
                self.on_board(u) && #[trigger] marked(c1, n, u) implies by_corner(e, u)
                    || self.escape_reaches(e, u) by {
                lemma_cell_in_range(self, u);
                if cell(n, u.x as int, u.y as int) == i {
                    lemma_cell_injective(self, u, w);
                } else {
                    assert(marked(c0, n, u));
                }
            }
            assert forall|t: int|
                0 <= t < pre.len() implies adjacent(e, #[trigger] pre[t]) && self.on_board(pre[t])
                    && marked(c1, n, pre[t]) by {
                assert(marked(c0, n, pre[t]));
            }
            assert forall|t: int|
                0 <= t < done && self.escape_seed(e, #[trigger] pre[t]) implies nbrs_marked(c1, n, pre[t]) by {
                assert(nbrs_marked(c0, n, pre[t]));
                lemma_step_on_board(self, pre[t], Direction4::Up);
                lemma_step_on_board(self, pre[t], Direction4::Left);
                lemma_step_on_board(self, pre[t], Direction4::Down);
                lemma_step_on_board(self, pre[t], Direction4::Right);
            }
            // What the search has finished with does not change.
            assert forall|u: Vertex|
                #[trigger] self.escape_done(e, c1, s1, cur, u) == self.escape_done(e, c0, s0, cur, u) by {
                if self.on_board(u) {
                    lemma_cell_in_range(self, u);
                    if cell(n, u.x as int, u.y as int) == i {
                        lemma_cell_injective(self, u, w);
                        assert(s1[s1.len() - 1] == w);
                    } else {
                        assert(marked(c1, n, u) == marked(c0, n, u));
                        if s0.contains(u) {
                            let t = choose|t: int| 0 <= t < s0.len() && s0[t] == u;
                            assert(s1[t] == u);
                        }
                        if s1.contains(u) {
                            let t = choose|t: int| 0 <= t < s1.len() && s1[t] == u;
                            if t < s0.len() {
                                assert(s0[t] == u);
                            }
                        }
                    }
                }
            }
            assert forall|u: Vertex| #[trigger]
                self.escape_done(e, c1, s1, cur, u) implies self.at(u).spec_role() != Role::Defender
                    && (self.at(u) == Space::Empty ==> nbrs_marked(c1, n, u)) by {
                assert(self.escape_done(e, c0, s0, cur, u));
                if self.at(u) == Space::Empty {
                    assert(nbrs_marked(c0, n, u));
                    lemma_step_on_board(self, u, Direction4::Up);
                    lemma_step_on_board(self, u, Direction4::Left);
                    lemma_step_on_board(self, u, Direction4::Down);
                    lemma_step_on_board(self, u, Direction4::Right);
                }
            }
            assert forall|u: Vertex| self.on_board(u) implies (#[trigger] marked(d, n, u) == (marked(
                d0,
                n,
                u,
            ) || self.seed_counted(e, pre, done, u) || (self.escape_done(e, c1, s1, cur, u)
                && self.at(u) == Space::Empty && u.spec_touches_wall()))) by {
                assert(self.escape_done(e, c1, s1, cur, u) == self.escape_done(e, c0, s0, cur, u));
            }
            assert(s1.no_duplicates());
        }
    }

    /// When the search has spread from every seed and from every empty square it reached, it
    /// has marked every square it reaches.
    proof fn lemma_escape_walk_marked(
        self,
        e: Vertex,
        c: Seq<bool>,
        st: Seq<Vertex>,
        pre: Seq<Vertex>,
        d0: Seq<bool>,
        d: Seq<bool>,
        p: Seq<Vertex>,
        i: int,
    )
        requires
            self.wf(),
            self.escape_inv(e, c, st, None, pre, pre.len() as int, d0, d),
            st.len() == 0,
            self.escape_walk(e, p),
            1 <= i < p.len(),
        ensures
            marked(c, self.n(), p[i]),
        decreases i,
    {
        let n = self.n();
        if i == 1 {
            assert(adjacent(e, p[0]));
            assert(pre.contains(p[0]));
            let t = choose|t: int| 0 <= t < pre.len() && pre[t] == p[0];
            assert(nbrs_marked(c, n, pre[t]));
            assert(adjacent(p[0], p[1]));
        } else {
            self.lemma_escape_walk_marked(e, c, st, pre, d0, d, p, i - 1);
            assert(self.on_board(p[i - 1]) && !by_corner(e, p[i - 1]));
            assert(self.at(p[i - 1]) == Space::Empty);
            assert(!st.contains(p[i - 1]));
            assert(self.escape_done(e, c, st, None, p[i - 1]));
            assert(adjacent(p[i - 1], p[i]));
        }
    }

    /// One square of the ring round corner `e` is marked and stacked when it exists.
    proof fn lemma_ring_expand(
        self,
        e: Vertex,
        dir: Direction4,
        c0: Seq<bool>,
        p0: Seq<Vertex>,
        c1: Seq<bool>,
        p1: Seq<Vertex>,
    )
        requires
            self.wf(),
            self.on_board(e),
            c0.len() == self.spaces@.len(),
            marked(c0, self.n(), e),
            forall|v: Vertex|
                self.on_board(v) && #[trigger] marked(c0, self.n(), v) ==> v == e || p0.contains(v),
            forall|t: int|
                0 <= t < p0.len() ==> adjacent(e, #[trigger] p0[t]) && self.on_board(p0[t])
                    && marked(c0, self.n(), p0[t]),
            step(e, dir) matches Some(w) ==> !p0.contains(w),
            match step(e, dir) {
                None => c1 == c0 && p1 == p0,
                Some(w) => {
                    let i = cell(self.n(), w.x as int, w.y as int);
                    if c0[i] {
                        c1 == c0 && p1 == p0
                    } else {
                        c1 == c0.update(i, true) && p1 == p0.push(w)
                    }
                },
            },
        ensures
            c1.len() == self.spaces@.len(),
            marked(c1, self.n(), e),
            forall|v: Vertex|
                self.on_board(v) && #[trigger] marked(c1, self.n(), v) ==> v == e || p1.contains(v),
            forall|t: int|
                0 <= t < p1.len() ==> adjacent(e, #[trigger] p1[t]) && self.on_board(p1[t])
                    && marked(c1, self.n(), p1[t]),
            p1 == p0 + opt_seq(step(e, dir)),
            step(e, dir) matches Some(w) ==> p1.contains(w),
            forall|v: Vertex| p0.contains(v) ==> p1.contains(v),
    {
        let n = self.n();
        lemma_step_on_board(self, e, dir);
        if let Some(w) = step(e, dir) {
            lemma_cell_in_range(self, w);
            lemma_cell_in_range(self, e);
            let i = cell(n, w.x as int, w.y as int);
            assert(w != e);
            assert(!c0[i]) by {
                if c0[i] {
                    assert(marked(c0, n, w));
                }
            }
            assert forall|v: Vertex|
                self.on_board(v) && #[trigger] marked(c1, n, v) implies v == e || p1.contains(v) by {
                lemma_cell_in_range(self, v);
                if cell(n, v.x as int, v.y as int) == i {
                    lemma_cell_injective(self, v, w);
                    assert(p1[p1.len() - 1] == w);
                } else {
                    assert(marked(c0, n, v));
                    if p0.contains(v) {
                        let t = choose|t: int| 0 <= t < p0.len() && p0[t] == v;
                        assert(p1[t] == v);
                    }
                }
            }
            assert forall|t: int|
                0 <= t < p1.len() implies adjacent(e, #[trigger] p1[t]) && self.on_board(p1[t])
                    && marked(c1, n, p1[t]) by {
                if t < p0.len() {
                    assert(p1[t] == p0[t]);
                    lemma_cell_in_range(self, p0[t]);
                    if cell(n, p0[t].x as int, p0[t].y as int) != i {
                        assert(c1[cell(n, p0[t].x as int, p0[t].y as int)] == c0[cell(
                            n,
                            p0[t].x as int,
                            p0[t].y as int,
                        )]);
                    }
                }
            }
            assert(p1 == p0 + opt_seq(step(e, dir)));
            assert(p1[p0.len() as int] == w);
            assert forall|v: Vertex| p0.contains(v) implies p1.contains(v) by {
                let t = choose|t: int| 0 <= t < p0.len() && p0[t] == v;
                assert(p1[t] == v);
            }
        } else {
            assert(p0 + opt_seq(step(e, dir)) == p0);
        }
    }

    /// Whether the four squares of the two arms of a corner hold attackers; if so, marks them
    /// and the corner as held.
    fn closed_off_exit_2(
        &self,
        d1_v1: &Vertex,
        d1_v2: &Vertex,
        d2_v1: &Vertex,
        d2_v2: &Vertex,
        exit: &Vertex,
        defended: &mut Vec<bool>,
    ) -> (r: bool)
        requires
            self.wf(),
            self.on_board(*d1_v1),
            self.on_board(*d1_v2),
            self.on_board(*d2_v1),
            self.on_board(*d2_v2),
            self.on_board(*exit),
            old(defended)@.len() == self.spaces@.len(),
        ensures
            r == (self.at(*d1_v1) == Space::Attacker && self.at(*d1_v2) == Space::Attacker
                && self.at(*d2_v1) == Space::Attacker && self.at(*d2_v2) == Space::Attacker),
            final(defended)@.len() == self.spaces@.len(),
            !r ==> final(defended)@ == old(defended)@,
            r ==> forall|v: Vertex|
                self.on_board(v) ==> (#[trigger] marked(final(defended)@, self.n(), v) == (marked(
                    old(defended)@,
                    self.n(),
                    v,
                ) || v == *exit || v == *d1_v1 || v == *d1_v2 || v == *d2_v1 || v == *d2_v2)),
    {
        if self.get(d1_v1) == Space::Attacker && self.get(d1_v2) == Space::Attacker && self.get(
            d2_v1,
        ) == Space::Attacker && self.get(d2_v2) == Space::Attacker {
            let ghost before = defended@;
            let ghost n = self.n();
            defended.set(exit.index(), true);
            defended.set(d1_v1.index(), true);
            defended.set(d1_v2.index(), true);
            defended.set(d2_v1.index(), true);
            defended.set(d2_v2.index(), true);
            proof {
                assert forall|v: Vertex| self.on_board(v) implies (#[trigger] marked(
                    defended@,
                    n,
                    v,
                ) == (marked(before, n, v) || v == *exit || v == *d1_v1 || v == *d1_v2 || v
                    == *d2_v1 || v == *d2_v2)) by {
                    lemma_cell_in_range(*self, v);
                    let j = cell(n, v.x as int, v.y as int);
                    if j == exit.spec_index() {
                        lemma_cell_injective(*self, v, *exit);
                    }
                    if j == d1_v1.spec_index() {
                        lemma_cell_injective(*self, v, *d1_v1);
                    }
                    if j == d1_v2.spec_index() {
                        lemma_cell_injective(*self, v, *d1_v2);
                    }
                    if j == d2_v1.spec_index() {
                        lemma_cell_injective(*self, v, *d2_v1);
                    }
                    if j == d2_v2.spec_index() {
                        lemma_cell_injective(*self, v, *d2_v2);
                    }
                }
            }
            true
        } else {
            false
        }
    }
}


impl Board {
    /// Whether corner `exit` is closed off from the king's side; if so, marks the squares it
    /// counts as held.
    #[verifier::rlimit(60)]
    pub(crate) fn closed_off_exit(&self, exit: &Vertex, defended: &mut Vec<bool>) -> (r: bool)
        requires
            self.wf(),
            self.on_board(*exit),
            exit.spec_on_exit_square(),
            old(defended)@.len() == self.spaces@.len(),
        ensures
            r == self.closed_off(*exit),
            final(defended)@.len() == self.spaces@.len(),
            r ==> forall|v: Vertex|
                self.on_board(v) ==> (#[trigger] marked(final(defended)@, self.n(), v) == (marked(
                    old(defended)@,
                    self.n(),
                    v,
                ) || self.closed_off_square(*exit, v))),
    {
        let ghost e = *exit;
        let ghost n = self.n();
        let ghost d0 = defended@;
        let len = self.spaces.len();
        let mut already_checked = blank_marks(len);
        let ei = exit.index();
        let ghost c_start = already_checked@;
        proof {
            lemma_cell_in_range(*self, e);
        }
        already_checked.set(ei, true);
        let mut pre_stack: Vec<Vertex> = Vec::new();
        proof {
            assert forall|v: Vertex|
                self.on_board(v) && #[trigger] marked(already_checked@, n, v) implies v == e
                    || pre_stack@.contains(v) by {
                lemma_cell_in_range(*self, v);
                if cell(n, v.x as int, v.y as int) != ei {
                    assert(already_checked@[cell(n, v.x as int, v.y as int)] == c_start[cell(
                        n,
                        v.x as int,
                        v.y as int,
                    )]);
                } else {
                    lemma_cell_injective(*self, v, e);
                }
            }
        }
        let ghost c0 = already_checked@;
        let ghost p0 = pre_stack@;
        let up = self.expand_flood_fill(exit.up(), &mut already_checked, &mut pre_stack);
        proof {
            self.lemma_ring_expand(e, Direction4::Up, c0, p0, already_checked@, pre_stack@);
        }
        let ghost c1 = already_checked@;
        let ghost p1 = pre_stack@;
        proof {
            if let Some(w) = step(e, Direction4::Left) {
                if p1.contains(w) {
                    let t = choose|t: int| 0 <= t < p1.len() && p1[t] == w;
                    assert(p1 == opt_seq(step(e, Direction4::Up)));
                }
            }
        }
        let left = self.expand_flood_fill(exit.left(), &mut already_checked, &mut pre_stack);
        proof {
            self.lemma_ring_expand(e, Direction4::Left, c1, p1, already_checked@, pre_stack@);
        }
        let ghost c2 = already_checked@;
        let ghost p2 = pre_stack@;
        proof {
            if let Some(w) = step(e, Direction4::Down) {
                if p2.contains(w) {
                    let t = choose|t: int| 0 <= t < p2.len() && p2[t] == w;
                    assert(p2 == opt_seq(step(e, Direction4::Up)) + opt_seq(
                        step(e, Direction4::Left),
                    ));
                }
            }
        }
        let down = self.expand_flood_fill(exit.down(), &mut already_checked, &mut pre_stack);
        proof {
            self.lemma_ring_expand(e, Direction4::Down, c2, p2, already_checked@, pre_stack@);
        }
        let ghost c3 = already_checked@;
        let ghost p3 = pre_stack@;
        proof {
            if let Some(w) = step(e, Direction4::Right) {
                if p3.contains(w) {
                    let t = choose|t: int| 0 <= t < p3.len() && p3[t] == w;
                    assert(p3 == opt_seq(step(e, Direction4::Up)) + opt_seq(
                        step(e, Direction4::Left),
                    ) + opt_seq(step(e, Direction4::Down)));
                }
            }
        }
        let right = self.expand_flood_fill(exit.right(), &mut already_checked, &mut pre_stack);
        proof {
            self.lemma_ring_expand(e, Direction4::Right, c3, p3, already_checked@, pre_stack@);
            assert(pre_stack@ == opt_seq(step(e, Direction4::Up)) + opt_seq(
                step(e, Direction4::Left),
            ) + opt_seq(step(e, Direction4::Down)) + opt_seq(step(e, Direction4::Right)));
        }
        if up && left {
            proof {
                assert(pre_stack@ == seq![toward(e, Direction4::Up), toward(e, Direction4::Left)]);
            }
            let v1 = pre_stack[0];
            let v2 = v1.up().unwrap();
            let w1 = pre_stack[1];
            let w2 = w1.left().unwrap();
            if self.closed_off_exit_2(&v1, &v2, &w1, &w2, exit, defended) {
                return true;
            }
        }
        if up && right {
            proof {
                assert(pre_stack@ == seq![toward(e, Direction4::Up), toward(e, Direction4::Right)]);
            }
            let v1 = pre_stack[0];
            let v2 = v1.up().unwrap();
            let w1 = pre_stack[1];
            let w2 = w1.right().unwrap();
            if self.closed_off_exit_2(&v1, &v2, &w1, &w2, exit, defended) {
                return true;
            }
        }
        if left && down {
            proof {
                assert(pre_stack@ == seq![toward(e, Direction4::Left), toward(e, Direction4::Down)]);
            }
            let v1 = pre_stack[0];
            let v2 = v1.left().unwrap();
            let w1 = pre_stack[1];
            let w2 = w1.down().unwrap();
            if self.closed_off_exit_2(&v1, &v2, &w1, &w2, exit, defended) {
                return true;
            }
        }
        if down && right {
            proof {
                assert(pre_stack@ == seq![toward(e, Direction4::Down), toward(e, Direction4::Right)]);
            }
            let v1 = pre_stack[0];
            let v2 = v1.down().unwrap();
            let w1 = pre_stack[1];
            let w2 = w1.right().unwrap();
            if self.closed_off_exit_2(&v1, &v2, &w1, &w2, exit, defended) {
                return true;
            }
        }
        assert(!self.corner_sealed(e));
        let ghost pre = pre_stack@;
        let mut stack: Vec<Vertex> = Vec::new();
        proof {
            assert forall|v: Vertex| #[trigger] adjacent(e, v) implies pre.contains(v) by {
                if step(e, Direction4::Up) == Some(v) {
                } else if step(e, Direction4::Left) == Some(v) {
                } else if step(e, Direction4::Down) == Some(v) {
                } else {
                }
            }
            assert forall|v: Vertex|
                self.on_board(v) && #[trigger] marked(already_checked@, n, v) implies by_corner(e, v)
                    || self.escape_reaches(e, v) by {
                if v != e {
                    assert(pre.contains(v));
                    let t = choose|t: int| 0 <= t < pre.len() && pre[t] == v;
                    assert(adjacent(e, pre[t]));
                }
            }
            assert forall|v: Vertex| #[trigger]
                self.escape_done(e, already_checked@, stack@, None, v) implies self.at(v).spec_role()
                    != Role::Defender && (self.at(v) == Space::Empty ==> nbrs_marked(
                    already_checked@,
                    n,
                    v,
                )) by {
                if v != e {
                    assert(pre.contains(v));
                    let t = choose|t: int| 0 <= t < pre.len() && pre[t] == v;
                    assert(adjacent(e, pre[t]));
                }
            }
            assert forall|v: Vertex| self.on_board(v) implies (#[trigger] marked(defended@, n, v) == (
            marked(d0, n, v) || self.seed_counted(e, pre, 0, v) || (self.escape_done(
                e,
                already_checked@,
                stack@,
                None,
                v,
            ) && self.at(v) == Space::Empty && v.spec_touches_wall()))) by {
                if self.escape_done(e, already_checked@, stack@, None, v) {
                    if v != e {
                        assert(pre.contains(v));
                        let t = choose|t: int| 0 <= t < pre.len() && pre[t] == v;
                        assert(adjacent(e, pre[t]));
                    }
                }
            }
            assert(self.escape_inv(e, already_checked@, stack@, None, pre, 0, d0, defended@));
        }
        let mut i: usize = 0;
        while i < pre_stack.len()
            invariant
                self.wf(),
                self.on_board(e),
                e == *exit,
                n == self.n(),
                !self.corner_sealed(e),
                pre == pre_stack@,
                i <= pre.len(),
                self.escape_inv(e, already_checked@, stack@, None, pre, i as int, d0, defended@),
            decreases pre.len() - i,
        {
            let vertex = pre_stack[i];
            let space = self.get(&vertex);
            proof {
                lemma_step_on_board(*self, vertex, Direction4::Up);
                lemma_step_on_board(*self, vertex, Direction4::Left);
                lemma_step_on_board(*self, vertex, Direction4::Down);
                lemma_step_on_board(*self, vertex, Direction4::Right);
                lemma_cell_in_range(*self, vertex);
            }
            if space == Space::Empty || space == Space::Attacker {
                let ghost ca = already_checked@;
                let ghost sa = stack@;
                let _ = self.expand_flood_fill(vertex.up(), &mut already_checked, &mut stack);
                proof {
                    if step(vertex, Direction4::Up) is Some {
                        self.lemma_escape_expand(e, vertex, Direction4::Up, ca, sa, already_checked@, stack@, None, pre, i as int, d0, defended@);
                    }
                }
                let ghost cb = already_checked@;
                let ghost sb = stack@;
                let _ = self.expand_flood_fill(vertex.left(), &mut already_checked, &mut stack);
                proof {
                    if step(vertex, Direction4::Left) is Some {
                        self.lemma_escape_expand(e, vertex, Direction4::Left, cb, sb, already_checked@, stack@, None, pre, i as int, d0, defended@);
                    }
                }
                let ghost cc = already_checked@;
                let ghost sc = stack@;
                let _ = self.expand_flood_fill(vertex.down(), &mut already_checked, &mut stack);
                proof {
                    if step(vertex, Direction4::Down) is Some {
                        self.lemma_escape_expand(e, vertex, Direction4::Down, cc, sc, already_checked@, stack@, None, pre, i as int, d0, defended@);
                    }
                }
                let ghost cd = already_checked@;
                let ghost sd = stack@;
                let _ = self.expand_flood_fill(vertex.right(), &mut already_checked, &mut stack);
                proof {
                    if step(vertex, Direction4::Right) is Some {
                        self.lemma_escape_expand(e, vertex, Direction4::Right, cd, sd, already_checked@, stack@, None, pre, i as int, d0, defended@);
                    }
                    assert(nbrs_marked(already_checked@, n, vertex));
                }
                let ghost ce = already_checked@;
                let ghost de = defended@;
                let wall = vertex.touches_wall();
                if wall {
                    defended.set(vertex.index(), true);
                }
                proof {
                    assert forall|u: Vertex| self.on_board(u) implies (#[trigger] marked(
                        defended@,
                        n,
                        u,
                    ) == (marked(d0, n, u) || self.seed_counted(e, pre, i + 1, u) || (
                    self.escape_done(e, already_checked@, stack@, None, u) && self.at(u)
                        == Space::Empty && u.spec_touches_wall()))) by {
                        lemma_cell_in_range(*self, u);
                        if u == vertex {
                            if wall {
                                assert(pre[i as int] == u);
                            }
                        } else {
                            if cell(n, u.x as int, u.y as int) == cell(n, vertex.x as int, vertex.y as int) {
                                lemma_cell_injective(*self, u, vertex);
                            }
                            assert(marked(defended@, n, u) == marked(de, n, u));
                            if self.seed_counted(e, pre, i + 1, u) {
                                let t = choose|t: int|
                                    0 <= t < i + 1 && #[trigger] pre[t] == u && self.escape_seed(e, u)
                                        && u.spec_touches_wall();
                                assert(t < i);
                            }
                        }
                    }
                    assert forall|t: int|
                        0 <= t < i + 1 && self.escape_seed(e, #[trigger] pre[t]) implies nbrs_marked(
                        already_checked@,
                        n,
                        pre[t],
                    ) by {
                        if t == i {
                        }
                    }
                    assert(self.escape_inv(e, already_checked@, stack@, None, pre, i + 1, d0, defended@));
                }
            } else {
                proof {
                    assert forall|u: Vertex| self.on_board(u) implies (#[trigger] marked(
                        defended@,
                        n,
                        u,
                    ) == (marked(d0, n, u) || self.seed_counted(e, pre, i + 1, u) || (
                    self.escape_done(e, already_checked@, stack@, None, u) && self.at(u)
                        == Space::Empty && u.spec_touches_wall()))) by {
                        if self.seed_counted(e, pre, i + 1, u) {
                            let t = choose|t: int|
                                0 <= t < i + 1 && #[trigger] pre[t] == u && self.escape_seed(e, u)
                                    && u.spec_touches_wall();
                            assert(t < i);
                        }
                    }
                    assert(self.escape_inv(e, already_checked@, stack@, None, pre, i + 1, d0, defended@));
                }
            }
            i = i + 1;
        }
        while stack.len() > 0
            invariant
                self.wf(),
                self.on_board(e),
                e == *exit,
                n == self.n(),
                !self.corner_sealed(e),
                self.escape_inv(e, already_checked@, stack@, None, pre, pre.len() as int, d0, defended@),
            decreases 5 * unmarked(already_checked@) + stack@.len(),
        {
            let ghost sb = stack@;
            let ghost cb = already_checked@;
            let vertex = stack.pop().unwrap();
            proof {
                assert(sb == stack@.push(vertex));
                assert(sb[sb.len() - 1] == vertex);
                assert(self.on_board(vertex) && self.escape_reaches(e, vertex));
                assert(!stack@.contains(vertex)) by {
                    if stack@.contains(vertex) {
                        let t = choose|t: int| 0 <= t < stack@.len() && stack@[t] == vertex;
                        assert(sb[t] == sb[sb.len() - 1]);
                    }
                }
                assert forall|u: Vertex|
                    #[trigger] self.escape_done(e, already_checked@, stack@, Some(vertex), u)
                        == self.escape_done(e, already_checked@, sb, None, u) by {
                    if u != vertex {
                        if sb.contains(u) {
                            let t = choose|t: int| 0 <= t < sb.len() && sb[t] == u;
                            assert(t < stack@.len());
                            assert(stack@[t] == u);
                        }
                        if stack@.contains(u) {
                            let t = choose|t: int| 0 <= t < stack@.len() && stack@[t] == u;
                            assert(sb[t] == u);
                        }
                    } else {
                        assert(sb.contains(vertex));
                    }
                }
                assert forall|t: int|
                    0 <= t < stack@.len() implies self.on_board(#[trigger] stack@[t]) && marked(
                        already_checked@,
                        n,
                        stack@[t],
                    ) && !by_corner(e, stack@[t]) && self.escape_reaches(e, stack@[t]) by {
                    assert(stack@[t] == sb[t]);
                }
                assert(stack@.no_duplicates()) by {
                    assert forall|a: int, b: int|
                        0 <= a < stack@.len() && 0 <= b < stack@.len() && a != b implies stack@[a]
                            != stack@[b] by {
                        assert(stack@[a] == sb[a] && stack@[b] == sb[b]);
                    }
                }
                assert(self.escape_inv(e, already_checked@, stack@, Some(vertex), pre, pre.len() as int, d0, defended@));
                lemma_step_on_board(*self, vertex, Direction4::Up);
                lemma_step_on_board(*self, vertex, Direction4::Left);
                lemma_step_on_board(*self, vertex, Direction4::Down);
                lemma_step_on_board(*self, vertex, Direction4::Right);
                lemma_cell_in_range(*self, vertex);
            }
            let space = self.get(&vertex);
            if space == Space::Empty {
                let ghost cr = already_checked@;
                let ghost sr = stack@;
                let _ = self.expand_flood_fill(vertex.right(), &mut already_checked, &mut stack);
                proof {
                    if step(vertex, Direction4::Right) is Some {
                        self.lemma_escape_expand(e, vertex, Direction4::Right, cr, sr, already_checked@, stack@, Some(vertex), pre, pre.len() as int, d0, defended@);
                    }
                }
                let ghost cl = already_checked@;
                let ghost sl = stack@;
                let _ = self.expand_flood_fill(vertex.left(), &mut already_checked, &mut stack);
                proof {
                    if step(vertex, Direction4::Left) is Some {
                        self.lemma_escape_expand(e, vertex, Direction4::Left, cl, sl, already_checked@, stack@, Some(vertex), pre, pre.len() as int, d0, defended@);
                    }
                }
                let ghost cd = already_checked@;
                let ghost sd = stack@;
                let _ = self.expand_flood_fill(vertex.down(), &mut already_checked, &mut stack);
                proof {
                    if step(vertex, Direction4::Down) is Some {
                        self.lemma_escape_expand(e, vertex, Direction4::Down, cd, sd, already_checked@, stack@, Some(vertex), pre, pre.len() as int, d0, defended@);
                    }
                }
                let ghost cu = already_checked@;
                let ghost su = stack@;
                let _ = self.expand_flood_fill(vertex.up(), &mut already_checked, &mut stack);
                proof {
                    if step(vertex, Direction4::Up) is Some {
                        self.lemma_escape_expand(e, vertex, Direction4::Up, cu, su, already_checked@, stack@, Some(vertex), pre, pre.len() as int, d0, defended@);
                    }
                    assert(nbrs_marked(already_checked@, n, vertex));
                    assert(marked(already_checked@, n, vertex));
                    assert(!stack@.contains(vertex)) by {
                        if stack@.contains(vertex) {
                            let t = choose|t: int| 0 <= t < stack@.len() && stack@[t] == vertex;
                            assert(!by_corner(e, stack@[t]));
                        }
                    }
                }
                let ghost de = defended@;
                let wall = vertex.touches_wall();
                if wall {
                    defended.set(vertex.index(), true);
                }
                proof {
                    assert forall|u: Vertex|
                        #[trigger] self.escape_done(e, already_checked@, stack@, None, u) == (
                        self.escape_done(e, already_checked@, stack@, Some(vertex), u) || u
                            == vertex) by {
                    }
                    assert forall|u: Vertex| self.on_board(u) implies (#[trigger] marked(
                        defended@,
                        n,
                        u,
                    ) == (marked(d0, n, u) || self.seed_counted(e, pre, pre.len() as int, u) || (
                    self.escape_done(e, already_checked@, stack@, None, u) && self.at(u)
                        == Space::Empty && u.spec_touches_wall()))) by {
                        lemma_cell_in_range(*self, u);
                        if u != vertex {
                            if cell(n, u.x as int, u.y as int) == cell(n, vertex.x as int, vertex.y as int) {
                                lemma_cell_injective(*self, u, vertex);
                            }
                            assert(marked(defended@, n, u) == marked(de, n, u));
                            assert(self.escape_done(e, already_checked@, stack@, None, u)
                                == self.escape_done(e, already_checked@, stack@, Some(vertex), u));
                        } else {
                            if !wall {
                                assert(marked(defended@, n, u) == marked(de, n, u));
                                assert(!self.escape_done(e, already_checked@, stack@, Some(vertex), u));
                                assert(!self.seed_counted(e, pre, pre.len() as int, u)) by {
                                    if self.seed_counted(e, pre, pre.len() as int, u) {
                                        let t = choose|t: int|
                                            0 <= t < pre.len() && #[trigger] pre[t] == u
                                                && self.escape_seed(e, u) && u.spec_touches_wall();
                                    }
                                }
                            }
                        }
                    }
                    assert(self.escape_inv(e, already_checked@, stack@, None, pre, pre.len() as int, d0, defended@));
                }
            } else if space.role() == Role::Defender {
                proof {
                    assert(!self.escape_closed(e));
                }
                return false;
            } else {
                proof {
                    assert forall|u: Vertex|
                        #[trigger] self.escape_done(e, already_checked@, stack@, None, u) == (
                        self.escape_done(e, already_checked@, stack@, Some(vertex), u) || u
                            == vertex) by {
                    }
                    assert forall|u: Vertex| self.on_board(u) implies (#[trigger] marked(
                        defended@,
                        n,
                        u,
                    ) == (marked(d0, n, u) || self.seed_counted(e, pre, pre.len() as int, u) || (
                    self.escape_done(e, already_checked@, stack@, None, u) && self.at(u)
                        == Space::Empty && u.spec_touches_wall()))) by {
                        assert(self.escape_done(e, already_checked@, stack@, None, u) && self.at(u)
                            == Space::Empty ==> self.escape_done(e, already_checked@, stack@, Some(vertex), u));
                    }
                    assert(self.escape_inv(e, already_checked@, stack@, None, pre, pre.len() as int, d0, defended@));
                }
            }
        }
        proof {
            // The search is over: every square it reaches is marked and finished with.
            assert forall|v: Vertex| #[trigger] self.escape_reaches(e, v) implies self.escape_done(
                e,
                already_checked@,
                stack@,
                None,
                v,
            ) by {
                let p = choose|p: Seq<Vertex>| #[trigger] self.escape_walk(e, p) && p.last() == v;
                self.lemma_escape_walk_marked(e, already_checked@, stack@, pre, d0, defended@, p, p.len() - 1);
                assert(self.on_board(p[p.len() - 1]) && !by_corner(e, p[p.len() - 1]));
            }
            assert(self.escape_closed(e));
        }
        let ghost df = defended@;
        defended.set(ei, true);
        proof {
            assert forall|v: Vertex| self.on_board(v) implies (#[trigger] marked(defended@, n, v) == (
            marked(d0, n, v) || self.closed_off_square(e, v))) by {
                lemma_cell_in_range(*self, v);
                if v != e {
                    if cell(n, v.x as int, v.y as int) == ei {
                        lemma_cell_injective(*self, v, e);
                    }
                    assert(marked(defended@, n, v) == marked(df, n, v));
                    if self.escape_seed(e, v) && v.spec_touches_wall() {
                        assert(pre.contains(v));
                        let t = choose|t: int| 0 <= t < pre.len() && pre[t] == v;
                        assert(self.seed_counted(e, pre, pre.len() as int, v));
                    }
                    if self.seed_counted(e, pre, pre.len() as int, v) {
                        let t = choose|t: int|
                            0 <= t < pre.len() && #[trigger] pre[t] == v && self.escape_seed(e, v)
                                && v.spec_touches_wall();
                    }
                    if self.escape_done(e, already_checked@, stack@, None, v) {
                        assert(by_corner(e, v) || self.escape_reaches(e, v));
                    }
                    if self.escape_reaches(e, v) {
                        assert(self.escape_done(e, already_checked@, stack@, None, v));
                    }
                }
            }
        }
        true
    }
}

} // verus!
