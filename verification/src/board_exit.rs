use vstd::prelude::*;

use rustc_hash::{FxBuildHasher, FxHashSet};

use crate::board::{area, cell, count, Board};
use crate::board_flood::{lemma_cell_in_range, lemma_step_on_board, lemma_unmarked_mark, unmarked};
use crate::board_capture::Direction4;
use crate::play::Vertex;
use crate::role::Role;
use crate::space::Space;

verus! {

/// rustc-hash's `FxBuildHasher`, the hasher of its `FxHashSet`, carried as it is.
#[verifier::external_type_specification]
#[verifier::external_body]
pub struct ExFxBuildHasher(FxBuildHasher);

/// An empty `FxHashSet` (calls `FxHashSet::default`).
#[verifier::external_body]
fn fx_set_new() -> (s: FxHashSet<usize>)
    ensures
        s@ == Set::<usize>::empty(),
{
    FxHashSet::default()
}

/// Whether the set holds `k` (calls `HashSet::contains`).
#[verifier::external_body]
fn fx_set_contains(s: &FxHashSet<usize>, k: usize) -> (r: bool)
    ensures
        r == s@.contains(k),
{
    s.contains(&k)
}

/// Adds `k` to the set (calls `HashSet::insert`).
#[verifier::external_body]
fn fx_set_insert(s: &mut FxHashSet<usize>, k: usize)
    ensures
        final(s)@ == old(s)@.insert(k),
{
    s.insert(k);
}

/// How a square was reached in the search from the king: from above or below, so that the
/// squares to its left and right matter, or from the side, so that those above and below do.
#[derive(Clone, Copy, Debug, PartialEq, Eq, Structural)]
pub enum Direction {
    LeftRight,
    UpDown,
}

/// The square of a vertex is a defender's (or the king's), or the vertex is off the board.
pub open spec fn guarded(b: Board, o: Option<Vertex>) -> bool {
    match o {
        Some(u) => b.at(u).spec_role() == Role::Defender,
        None => true,
    }
}

/// Stacks a neighbour when it exists and is unmarked, marking it.
pub open spec fn push_unchecked(
    b: Board,
    c: Seq<bool>,
    st: Seq<(Vertex, Direction)>,
    o: Option<Vertex>,
    d: Direction,
) -> (Seq<bool>, Seq<(Vertex, Direction)>) {
    match o {
        None => (c, st),
        Some(w) => {
            let i = cell(b.n(), w.x as int, w.y as int);
            if c[i] {
                (c, st)
            } else {
                (c.update(i, true), st.push((w, d)))
            }
        },
    }
}

/// The stack and marks are in shape for the search: the marks cover the board, and every
/// stacked square is on it.
pub open spec fn search_shape(b: Board, c: Seq<bool>, st: Seq<(Vertex, Direction)>) -> bool {
    &&& b.wf()
    &&& c.len() == b.spaces@.len()
    &&& forall|t: int| 0 <= t < st.len() ==> b.on_board(#[trigger] st[t].0)
}

pub proof fn lemma_push_unchecked(
    b: Board,
    c: Seq<bool>,
    st: Seq<(Vertex, Direction)>,
    v: Vertex,
    dir: Direction4,
    d: Direction,
)
    requires
        search_shape(b, c, st),
        b.on_board(v),
    ensures
        search_shape(
            b,
            push_unchecked(b, c, st, crate::board_capture::step(v, dir), d).0,
            push_unchecked(b, c, st, crate::board_capture::step(v, dir), d).1,
        ),
        5 * unmarked(push_unchecked(b, c, st, crate::board_capture::step(v, dir), d).0)
            + push_unchecked(b, c, st, crate::board_capture::step(v, dir), d).1.len() <= 5
            * unmarked(c) + st.len() - 4 || push_unchecked(
            b,
            c,
            st,
            crate::board_capture::step(v, dir),
            d,
        ) == (c, st),
{
    lemma_step_on_board(b, v, dir);
    if let Some(w) = crate::board_capture::step(v, dir) {
        lemma_cell_in_range(b, w);
        let i = cell(b.n(), w.x as int, w.y as int);
        if !c[i] {
            lemma_unmarked_mark(c, i);
            let st2 = st.push((w, d));
            assert forall|t: int| 0 <= t < st2.len() implies b.on_board(#[trigger] st2[t].0) by {
                if t < st.len() {
                    assert(st2[t] == st[t]);
                }
            }
        }
    }
}

impl Board {
    /// The search from a square next to the king's edge square, over empty squares, that
    /// decides whether the king has made an exit fort: an attacker met ends it in failure, and
    /// so does a defender met with no defender (or edge) on either side across the direction
    /// it was reached from, once the attackers have two or more pieces. The squares are taken
    /// from the top of the stack; an empty square stacks its unmarked neighbours (up, left,
    /// down, right), marking them.
    pub open spec fn defender_search(
        self,
        enough: bool,
        st: Seq<(Vertex, Direction)>,
        c: Seq<bool>,
    ) -> bool
        decreases 5 * unmarked(c) + st.len(),
        when search_shape(self, c, st)
    {
        if st.len() == 0 {
            true
        } else {
            let (v, dir) = st.last();
            let rest = st.drop_last();
            let space = self.at(v);
            if space == Space::Empty {
                let (c1, s1) = push_unchecked(self, c, rest, v.spec_up(), Direction::LeftRight);
                let (c2, s2) = push_unchecked(self, c1, s1, v.spec_left(), Direction::UpDown);
                let (c3, s3) = push_unchecked(self, c2, s2, v.spec_down(), Direction::LeftRight);
                let (c4, s4) = push_unchecked(self, c3, s3, v.spec_right(), Direction::UpDown);
                proof {
                    assert forall|t: int| 0 <= t < rest.len() implies self.on_board(
                        #[trigger] rest[t].0,
                    ) by {
                        assert(rest[t] == st[t]);
                    }
                    assert(self.on_board(v)) by {
                        assert(st[st.len() - 1] == st.last());
                    }
                    lemma_push_unchecked(self, c, rest, v, Direction4::Up, Direction::LeftRight);
                    lemma_push_unchecked(self, c1, s1, v, Direction4::Left, Direction::UpDown);
                    lemma_push_unchecked(self, c2, s2, v, Direction4::Down, Direction::LeftRight);
                    lemma_push_unchecked(self, c3, s3, v, Direction4::Right, Direction::UpDown);
                }
                self.defender_search(enough, s4, c4)
            } else if space.spec_role() == Role::Attacker {
                false
            } else if dir == Direction::UpDown {
                if !guarded(self, v.spec_up()) && !guarded(self, v.spec_down()) && enough {
                    false
                } else {
                    proof {
                        assert forall|t: int| 0 <= t < rest.len() implies self.on_board(
                            #[trigger] rest[t].0,
                        ) by {
                            assert(rest[t] == st[t]);
                        }
                    }
                    self.defender_search(enough, rest, c)
                }
            } else {
                if !guarded(self, v.spec_right()) && !guarded(self, v.spec_left()) && enough {
                    false
                } else {
                    proof {
                        assert forall|t: int| 0 <= t < rest.len() implies self.on_board(
                            #[trigger] rest[t].0,
                        ) by {
                            assert(rest[t] == st[t]);
                        }
                    }
                    self.defender_search(enough, rest, c)
                }
            }
        }
    }
}


/// The marks of a set of square indices, as a board-sized list.
pub open spec fn mirror(set: Set<usize>, len: nat) -> Seq<bool> {
    Seq::new(len, |i: int| set.contains(i as usize))
}

/// The neighbours of a square with the directions they are reached from, up, left, down,
/// right: where the search for an exit fort starts.
pub open spec fn seeds(v: Vertex) -> Seq<(Vertex, Direction)> {
    let s1 = match v.spec_up() {
        Some(u) => seq![(u, Direction::LeftRight)],
        None => seq![],
    };
    let s2 = match v.spec_left() {
        Some(u) => seq![(u, Direction::UpDown)],
        None => seq![],
    };
    let s3 = match v.spec_down() {
        Some(u) => seq![(u, Direction::LeftRight)],
        None => seq![],
    };
    let s4 = match v.spec_right() {
        Some(u) => seq![(u, Direction::UpDown)],
        None => seq![],
    };
    s1 + s2 + s3 + s4
}

impl Board {
    /// Whether the search from a square for an exit fort succeeds: see `defender_search`.
    pub open spec fn spec_flood_fill_defender_wins(self, v: Vertex) -> bool {
        self.defender_search(
            count(self.spaces@, Space::Attacker) >= 2,
            seeds(v),
            Seq::new(self.spaces@.len(), |i: int| false),
        )
    }

    fn push_if_unchecked(
        &self,
        set: &mut FxHashSet<usize>,
        stack: &mut Vec<(Vertex, Direction)>,
        o: Option<Vertex>,
        d: Direction,
    )
        requires
            self.wf(),
            o matches Some(w) ==> self.on_board(w),
        ensures
            mirror(final(set)@, self.spaces@.len() as nat) == push_unchecked(
                *self,
                mirror(old(set)@, self.spaces@.len() as nat),
                old(stack)@,
                o,
                d,
            ).0,
            final(stack)@ == push_unchecked(
                *self,
                mirror(old(set)@, self.spaces@.len() as nat),
                old(stack)@,
                o,
                d,
            ).1,
    {
        if let Some(w) = o {
            proof {
                lemma_cell_in_range(*self, w);
            }
            let i = if self.spaces.len() == 121 {
                w.y * 11 + w.x
            } else {
                w.y * 13 + w.x
            };
            if !fx_set_contains(set, i) {
                stack.push((w, d));
                fx_set_insert(set, i);
                assert(mirror(set@, self.spaces@.len() as nat) =~= mirror(
                    old(set)@,
                    self.spaces@.len() as nat,
                ).update(i as int, true));
            }
        }
    }

    /// Whether the attackers have two or more pieces on the board.
    fn attacker_has_enough_pieces(&self) -> (r: bool)
        requires
            self.wf(),
        ensures
            r == (count(self.spaces@, Space::Attacker) >= 2),
    {
        let mut c: usize = 0;
        let mut i: usize = 0;
        while i < self.spaces.len()
            invariant
                i <= self.spaces@.len(),
                self.spaces@.len() <= 169,
                c == count(self.spaces@.take(i as int), Space::Attacker),
                c <= 1,
            decreases self.spaces@.len() - i,
        {
            proof {
                crate::board::lemma_count_take(self.spaces@, i as int, Space::Attacker);
            }
            if self.spaces[i] == Space::Attacker {
                c = c + 1;
                if c > 1 {
                    proof {
                        lemma_count_prefix_le(self.spaces@, i + 1, Space::Attacker);
                    }
                    return true;
                }
            }
            i = i + 1;
        }
        assert(self.spaces@.take(i as int) =~= self.spaces@);
        false
    }

    /// Whether the search from a square beside the king finds an exit fort: no attacker can
    /// get in, and the defenders around hold (see `defender_search`).
    pub fn flood_fill_defender_wins(&self, vertex: &Vertex) -> (r: bool)
        requires
            self.wf(),
            self.on_board(*vertex),
        ensures
            r == self.spec_flood_fill_defender_wins(*vertex),
    {
        let enough = self.attacker_has_enough_pieces();
        let ghost len = self.spaces@.len() as nat;
        let mut already_checked = fx_set_new();
        let mut stack: Vec<(Vertex, Direction)> = Vec::new();
        if let Some(v) = vertex.up() {
            stack.push((v, Direction::LeftRight));
        }
        if let Some(v) = vertex.left() {
            stack.push((v, Direction::UpDown));
        }
        if let Some(v) = vertex.down() {
            stack.push((v, Direction::LeftRight));
        }
        if let Some(v) = vertex.right() {
            stack.push((v, Direction::UpDown));
        }
        proof {
            lemma_step_on_board(*self, *vertex, Direction4::Up);
            lemma_step_on_board(*self, *vertex, Direction4::Left);
            lemma_step_on_board(*self, *vertex, Direction4::Down);
            lemma_step_on_board(*self, *vertex, Direction4::Right);
            assert(stack@ =~= seeds(*vertex));
            assert(mirror(already_checked@, len) =~= Seq::new(len, |i: int| false));
        }
        while stack.len() > 0
            invariant
                self.wf(),
                len == self.spaces@.len(),
                enough == (count(self.spaces@, Space::Attacker) >= 2),
                search_shape(*self, mirror(already_checked@, len), stack@),
                self.defender_search(enough, stack@, mirror(already_checked@, len))
                    == self.spec_flood_fill_defender_wins(*vertex),
            decreases 5 * unmarked(mirror(already_checked@, len)) + stack@.len(),
        {
            let ghost st = stack@;
            let ghost c = mirror(already_checked@, len);
            let (vertex, direction) = stack.pop().unwrap();
            proof {
                assert(st.last() == (vertex, direction));
                assert(st.drop_last() =~= stack@);
                assert(st[st.len() - 1] == st.last());
                assert(self.on_board(vertex));
                assert forall|t: int| 0 <= t < stack@.len() implies self.on_board(
                    #[trigger] stack@[t].0,
                ) by {
                    assert(stack@[t] == st[t]);
                }
                lemma_step_on_board(*self, vertex, Direction4::Up);
                lemma_step_on_board(*self, vertex, Direction4::Left);
                lemma_step_on_board(*self, vertex, Direction4::Down);
                lemma_step_on_board(*self, vertex, Direction4::Right);
            }
            let space = self.get(&vertex);
            if space == Space::Empty {
                let ghost rest = stack@;
                self.push_if_unchecked(&mut already_checked, &mut stack, vertex.up(), Direction::LeftRight);
                proof {
                    lemma_push_unchecked(*self, c, rest, vertex, Direction4::Up, Direction::LeftRight);
                }
                let ghost c1 = mirror(already_checked@, len);
                let ghost s1 = stack@;
                self.push_if_unchecked(&mut already_checked, &mut stack, vertex.left(), Direction::UpDown);
                proof {
                    lemma_push_unchecked(*self, c1, s1, vertex, Direction4::Left, Direction::UpDown);
                }
                let ghost c2 = mirror(already_checked@, len);
                let ghost s2 = stack@;
                self.push_if_unchecked(&mut already_checked, &mut stack, vertex.down(), Direction::LeftRight);
                proof {
                    lemma_push_unchecked(*self, c2, s2, vertex, Direction4::Down, Direction::LeftRight);
                }
                let ghost c3 = mirror(already_checked@, len);
                let ghost s3 = stack@;
                self.push_if_unchecked(&mut already_checked, &mut stack, vertex.right(), Direction::UpDown);
                proof {
                    lemma_push_unchecked(*self, c3, s3, vertex, Direction4::Right, Direction::UpDown);
                }
            } else if space.role() == Role::Attacker {
                return false;
            } else if direction == Direction::UpDown {
                let vertex_1 = match vertex.up() {
                    Some(u) => self.get(&u).role() == Role::Defender,
                    None => true,
                };
                let vertex_2 = match vertex.down() {
                    Some(u) => self.get(&u).role() == Role::Defender,
                    None => true,
                };
                if !vertex_1 && !vertex_2 && enough {
                    return false;
                }
            } else {
                let vertex_1 = match vertex.right() {
                    Some(u) => self.get(&u).role() == Role::Defender,
                    None => true,
                };
                let vertex_2 = match vertex.left() {
                    Some(u) => self.get(&u).role() == Role::Defender,
                    None => true,
                };
                if !vertex_1 && !vertex_2 && enough {
                    return false;
                }
            }
        }
        true
    }

    /// The king stands on an edge, can move, and has built an exit fort.
    pub open spec fn spec_exit_forts(self) -> bool {
        match self.king {
            Some(k) => k.spec_touches_wall() && self.spec_able_to_move(k)
                && self.spec_flood_fill_defender_wins(k),
            None => false,
        }
    }

    /// Whether the defenders have won by an exit fort.
    pub(crate) fn exit_forts(&self) -> (r: bool)
        requires
            self.wf(),
        ensures
            r == self.spec_exit_forts(),
    {
        match self.king {
            Some(kings_vertex) => kings_vertex.touches_wall() && self.able_to_move(&kings_vertex)
                && self.flood_fill_defender_wins(&kings_vertex),
            None => false,
        }
    }
}

/// A prefix never counts more than the whole.
pub proof fn lemma_count_prefix_le(s: Seq<Space>, i: int, p: Space)
    requires
        0 <= i <= s.len(),
    ensures
        count(s.take(i), p) <= count(s, p),
    decreases s.len() - i,
{
    if i < s.len() {
        lemma_count_prefix_le(s, i + 1, p);
        crate::board::lemma_count_take(s, i, p);
    } else {
        assert(s.take(i) =~= s);
    }
}

} // verus!

