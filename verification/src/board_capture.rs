use vstd::prelude::*;

use crate::board::{cell, count, Board};
use crate::play::Vertex;
use crate::role::Role;
use crate::space::Space;

verus! {

/// The four directions along which pieces are captured.
#[derive(Clone, Copy, Debug, PartialEq, Eq, Structural)]
pub enum Direction4 {
    Up,
    Left,
    Down,
    Right,
}

/// The neighbour of a vertex in a direction, if there is one.
pub open spec fn step(v: Vertex, d: Direction4) -> Option<Vertex> {
    match d {
        Direction4::Up => v.spec_up(),
        Direction4::Left => v.spec_left(),
        Direction4::Down => v.spec_down(),
        Direction4::Right => v.spec_right(),
    }
}

fn step_exec(v: &Vertex, d: Direction4) -> (r: Option<Vertex>)
    ensures
        r == step(*v, d),
{
    match d {
        Direction4::Up => v.up(),
        Direction4::Left => v.left(),
        Direction4::Down => v.down(),
        Direction4::Right => v.right(),
    }
}

/// The vertex as a sequence of none or one vertices.
pub open spec fn opt_seq(o: Option<Vertex>) -> Seq<Vertex> {
    match o {
        Some(v) => seq![v],
        None => seq![],
    }
}

/// Empties the squares of the given vertices, one after another.
pub open spec fn clear_all(s: Seq<Space>, n: nat, vs: Seq<Vertex>) -> Seq<Space>
    decreases vs.len(),
{
    if vs.len() == 0 {
        s
    } else {
        clear_all(s, n, vs.drop_last()).update(
            cell(n, vs.last().x as int, vs.last().y as int),
            Space::Empty,
        )
    }
}

impl Board {
    /// A square that hems the king in: one holding an attacker, or the throne.
    pub open spec fn hostile_to_king(self, v: Vertex) -> bool {
        self.at(v) == Space::Attacker || v.spec_on_throne()
    }

    /// A piece of `role` that moved to `to` captures the piece next to it in direction `d`:
    /// that piece is an enemy other than the king, and beyond it stands a piece of `role` or a
    /// restricted square that the king is not on.
    pub open spec fn sandwich(self, to: Vertex, role: Role, d: Direction4) -> bool {
        match step(to, d) {
            None => false,
            Some(r1) => {
                &&& self.at(r1) != Space::King
                &&& self.at(r1).spec_role() == role.spec_opposite()
                &&& match step(r1, d) {
                    None => false,
                    Some(r2) => (r2.spec_on_restricted_square() && self.at(r2) != Space::King)
                        || self.at(r2).spec_role() == role,
                }
            },
        }
    }

    /// The piece that a move to `to` captures in direction `d`, if any.
    pub open spec fn dir_capture(self, to: Vertex, role: Role, d: Direction4) -> Option<Vertex> {
        if self.sandwich(to, role, d) {
            step(to, d)
        } else {
            None
        }
    }

    /// The pieces that a move to `to` captures by enclosing them between two pieces (or a
    /// piece and a restricted square), looking up, left, down and right in turn.
    pub open spec fn custodial_captures(self, to: Vertex, role: Role) -> Seq<Vertex> {
        opt_seq(self.dir_capture(to, role, Direction4::Up)) + opt_seq(
            self.dir_capture(to, role, Direction4::Left),
        ) + opt_seq(self.dir_capture(to, role, Direction4::Down)) + opt_seq(
            self.dir_capture(to, role, Direction4::Right),
        )
    }

    /// The pieces a move captures lie on the board.
    pub proof fn lemma_custodial_on_board(self, to: Vertex, role: Role)
        requires
            self.wf(),
            self.on_board(to),
        ensures
            forall|t: int|
                0 <= t < self.custodial_captures(to, role).len() ==> self.on_board(
                    #[trigger] self.custodial_captures(to, role)[t],
                ),
    {
        crate::board_flood::lemma_step_on_board(self, to, Direction4::Up);
        crate::board_flood::lemma_step_on_board(self, to, Direction4::Left);
        crate::board_flood::lemma_step_on_board(self, to, Direction4::Down);
        crate::board_flood::lemma_step_on_board(self, to, Direction4::Right);
        let l0 = opt_seq(self.dir_capture(to, role, Direction4::Up));
        let l1 = opt_seq(self.dir_capture(to, role, Direction4::Left));
        let l2 = opt_seq(self.dir_capture(to, role, Direction4::Down));
        let l3 = opt_seq(self.dir_capture(to, role, Direction4::Right));
        let all = l0 + l1 + l2 + l3;
        assert forall|t: int| 0 <= t < all.len() implies self.on_board(#[trigger] all[t]) by {
            if t < l0.len() {
                assert(all[t] == l0[t]);
            } else if t < l0.len() + l1.len() {
                assert(all[t] == l1[t - l0.len()]);
            } else if t < l0.len() + l1.len() + l2.len() {
                assert(all[t] == l2[t - l0.len() - l1.len()]);
            } else {
                assert(all[t] == l3[t - l0.len() - l1.len() - l2.len()]);
            }
        }
    }

    fn captures_dir(
        &mut self,
        play_to: &Vertex,
        role_from: Role,
        captures: &mut Vec<Vertex>,
        d: Direction4,
    )
        requires
            old(self).wf(),
            old(self).on_board(*play_to),
        ensures
            final(self).wf(),
            final(self).spaces@.len() == old(self).spaces@.len(),
            final(self).king == old(self).king,
            final(self).attackers_captured == old(self).attackers_captured,
            final(self).defenders_captured == old(self).defenders_captured,
            final(self).display_ascii == old(self).display_ascii,
            final(self).spaces@ == clear_all(
                old(self).spaces@,
                old(self).n(),
                opt_seq(old(self).dir_capture(*play_to, role_from, d)),
            ),
            final(captures)@ == old(captures)@ + opt_seq(
                old(self).dir_capture(*play_to, role_from, d),
            ),
    {
        let ghost s0 = self.spaces@;
        proof {
            reveal_with_fuel(clear_all, 2);
        }
        if let Some(right_1) = step_exec(play_to, d) {
            let space = self.get(&right_1);
            if space != Space::King && space.role() == role_from.opposite() {
                if let Some(right_2) = step_exec(&right_1, d) {
                    let s2 = self.get(&right_2);
                    if (right_2.on_restricted_square() && s2 != Space::King) || s2.role()
                        == role_from {
                        let ok = self.set_if_not_king(&right_1, Space::Empty);
                        if ok {
                            captures.push(right_1);
                        }
                        assert(seq![right_1].drop_last() =~= Seq::<Vertex>::empty());
                        assert(captures@ =~= old(captures)@ + seq![right_1]);
                        return;
                    }
                }
            }
        }
        assert(captures@ =~= old(captures)@ + Seq::<Vertex>::empty());
    }

    /// Makes the captures of a move to `play_to` by a piece of `role_from`, recording them.
    #[verifier::rlimit(100)]
    #[verifier::spinoff_prover]
    pub(crate) fn captures(&mut self, play_to: &Vertex, role_from: Role, captures: &mut Vec<Vertex>)
        requires
            old(self).wf(),
            old(self).on_board(*play_to),
        ensures
            final(self).wf(),
            final(self).spaces@.len() == old(self).spaces@.len(),
            final(self).king == old(self).king,
            final(self).attackers_captured == old(self).attackers_captured,
            final(self).defenders_captured == old(self).defenders_captured,
            final(self).display_ascii == old(self).display_ascii,
            final(self).spaces@ == clear_all(
                old(self).spaces@,
                old(self).n(),
                old(self).custodial_captures(*play_to, role_from),
            ),
            final(captures)@ == old(captures)@ + old(self).custodial_captures(
                *play_to,
                role_from,
            ),
    {
        let ghost b0 = *self;
        let ghost c0 = captures@;
        self.captures_dir(play_to, role_from, captures, Direction4::Up);
        let ghost b1 = *self;
        self.captures_dir(play_to, role_from, captures, Direction4::Left);
        let ghost b2 = *self;
        self.captures_dir(play_to, role_from, captures, Direction4::Down);
        let ghost b3 = *self;
        self.captures_dir(play_to, role_from, captures, Direction4::Right);
        proof {
            let to = *play_to;
            let n = b0.n();
            lemma_other_dir(b0, b1, to, role_from, Direction4::Up, Direction4::Left);
            lemma_other_dir(b0, b1, to, role_from, Direction4::Up, Direction4::Down);
            lemma_other_dir(b0, b1, to, role_from, Direction4::Up, Direction4::Right);
            lemma_other_dir(b1, b2, to, role_from, Direction4::Left, Direction4::Down);
            lemma_other_dir(b1, b2, to, role_from, Direction4::Left, Direction4::Right);
            lemma_other_dir(b2, b3, to, role_from, Direction4::Down, Direction4::Right);
            let l0 = opt_seq(b0.dir_capture(to, role_from, Direction4::Up));
            let l1 = opt_seq(b0.dir_capture(to, role_from, Direction4::Left));
            let l2 = opt_seq(b0.dir_capture(to, role_from, Direction4::Down));
            let l3 = opt_seq(b0.dir_capture(to, role_from, Direction4::Right));
            lemma_clear_all_append(b0.spaces@, n, l0, l1);
            lemma_clear_all_append(b0.spaces@, n, l0 + l1, l2);
            lemma_clear_all_append(b0.spaces@, n, l0 + l1 + l2, l3);
            assert(captures@ =~= c0 + (l0 + l1 + l2 + l3));
        }
    }
}


impl Board {
    /// The king, when every one of its four neighbours blocks it, is taken by an attacker that
    /// moved next to it.
    pub open spec fn king_surrounded(self, role: Role, to: Vertex) -> bool {
        match self.king {
            None => false,
            Some(k) => {
                &&& role == Role::Attacker
                &&& k.spec_up() is Some
                &&& k.spec_left() is Some
                &&& k.spec_down() is Some
                &&& k.spec_right() is Some
                &&& (Some(to) == k.spec_up() || Some(to) == k.spec_left() || Some(to)
                    == k.spec_down() || Some(to) == k.spec_right())
                &&& self.hostile_to_king(k.spec_up().unwrap())
                &&& self.hostile_to_king(k.spec_left().unwrap())
                &&& self.hostile_to_king(k.spec_down().unwrap())
                &&& self.hostile_to_king(k.spec_right().unwrap())
            },
        }
    }

    /// Takes the king when an attacker's move to `play_to` surrounds it on four sides (the
    /// throne counts as an attacker); says whether it did.
    pub(crate) fn capture_the_king(
        &mut self,
        role_from: Role,
        play_to: &Vertex,
        captures: &mut Vec<Vertex>,
    ) -> (r: bool)
        requires
            old(self).wf(),
        ensures
            r == old(self).king_surrounded(role_from, *play_to),
            final(self).wf(),
            final(self).spaces@.len() == old(self).spaces@.len(),
            final(self).attackers_captured == old(self).attackers_captured,
            final(self).defenders_captured == old(self).defenders_captured,
            final(self).display_ascii == old(self).display_ascii,
            r ==> final(self).king is None,
            r ==> final(self).spaces@ == old(self).spaces@.update(
                cell(
                    old(self).n(),
                    old(self).king.unwrap().x as int,
                    old(self).king.unwrap().y as int,
                ),
                Space::Empty,
            ),
            r ==> final(captures)@ == old(captures)@.push(old(self).king.unwrap()),
            !r ==> final(self).spaces@ == old(self).spaces@ && final(self).king == old(self).king
                && final(captures)@ == old(captures)@,
    {
        if let Some(kings_vertex) = self.king {
            if role_from == Role::Attacker {
                if let (Some(right), Some(left), Some(down), Some(up)) = (
                    kings_vertex.right(),
                    kings_vertex.left(),
                    kings_vertex.down(),
                    kings_vertex.up(),
                ) {
                    if (*play_to == up || *play_to == left || *play_to == down || *play_to
                        == right) && (self.get(&up) == Space::Attacker || up.on_throne()) && (
                    self.get(&left) == Space::Attacker || left.on_throne()) && (self.get(&down)
                        == Space::Attacker || down.on_throne()) && (self.get(&right)
                        == Space::Attacker || right.on_throne()) {
                        self.set(&kings_vertex, Space::Empty);
                        self.king = None;
                        captures.push(kings_vertex);
                        return true;
                    }
                }
            }
        }
        false
    }

    /// The number of the king's neighbours that block it, among those that exist.
    pub open spec fn blocked_count(self, k: Vertex) -> int {
        (if k.spec_up() matches Some(v) && self.hostile_to_king(v) {
            1int
        } else {
            0
        }) + (if k.spec_left() matches Some(v) && self.hostile_to_king(v) {
            1int
        } else {
            0
        }) + (if k.spec_down() matches Some(v) && self.hostile_to_king(v) {
            1int
        } else {
            0
        }) + (if k.spec_right() matches Some(v) && self.hostile_to_king(v) {
            1int
        } else {
            0
        })
    }

    /// The last of the king's neighbours (looking up, left, down, right) that does not block
    /// it.
    pub open spec fn last_open(self, k: Vertex) -> Option<Vertex> {
        if k.spec_right() is Some && !self.hostile_to_king(k.spec_right().unwrap()) {
            k.spec_right()
        } else if k.spec_down() is Some && !self.hostile_to_king(k.spec_down().unwrap()) {
            k.spec_down()
        } else if k.spec_left() is Some && !self.hostile_to_king(k.spec_left().unwrap()) {
            k.spec_left()
        } else if k.spec_up() is Some && !self.hostile_to_king(k.spec_up().unwrap()) {
            k.spec_up()
        } else {
            None
        }
    }

    /// The square an attacker could move to to take the king: three of the king's four sides
    /// are blocked, and this is the open one.
    pub open spec fn spec_capture_the_king_one_move(self) -> Option<Vertex> {
        match self.king {
            None => None,
            Some(k) => if 4 - self.blocked_count(k) == 1 {
                self.last_open(k)
            } else {
                None
            },
        }
    }

    /// The square where one more attacker would take the king, if there is one.
    pub fn capture_the_king_one_move(&self) -> (r: Option<Vertex>)
        requires
            self.wf(),
        ensures
            r == self.spec_capture_the_king_one_move(),
    {
        let mut spaces_left: i32 = 4;
        let mut capture: Option<Vertex> = None;
        if let Some(kings_vertex) = self.king {
            if let Some(vertex) = kings_vertex.up() {
                if vertex.on_throne() || self.get(&vertex) == Space::Attacker {
                    spaces_left -= 1;
                } else {
                    capture = Some(vertex);
                }
            }
            if let Some(vertex) = kings_vertex.left() {
                if vertex.on_throne() || self.get(&vertex) == Space::Attacker {
                    spaces_left -= 1;
                } else {
                    capture = Some(vertex);
                }
            }
            if let Some(vertex) = kings_vertex.down() {
                if vertex.on_throne() || self.get(&vertex) == Space::Attacker {
                    spaces_left -= 1;
                } else {
                    capture = Some(vertex);
                }
            }
            if let Some(vertex) = kings_vertex.right() {
                if vertex.on_throne() || self.get(&vertex) == Space::Attacker {
                    spaces_left -= 1;
                } else {
                    capture = Some(vertex);
                }
            }
        }
        if spaces_left == 1 {
            capture
        } else {
            None
        }
    }

    /// How many of the king's four sides are open: none when there is no king, five when the
    /// king stands on an edge.
    pub open spec fn spec_spaces_around_the_king(self) -> Option<u8> {
        match self.king {
            None => None,
            Some(k) => if k.spec_up() is None || k.spec_left() is None || k.spec_down() is None
                || k.spec_right() is None {
                Some(5u8)
            } else {
                Some((4 - self.blocked_count(k)) as u8)
            },
        }
    }

    pub fn spaces_around_the_king(&self) -> (r: Option<u8>)
        requires
            self.wf(),
        ensures
            r == self.spec_spaces_around_the_king(),
    {
        let king = match self.king {
            Some(k) => k,
            None => return None,
        };
        let up = match king.up() {
            Some(v) => v,
            None => return Some(5),
        };
        let left = match king.left() {
            Some(v) => v,
            None => return Some(5),
        };
        let down = match king.down() {
            Some(v) => v,
            None => return Some(5),
        };
        let right = match king.right() {
            Some(v) => v,
            None => return Some(5),
        };
        let mut sum: u8 = 4;
        if self.get(&up) == Space::Attacker || up.on_throne() {
            sum -= 1;
        }
        if self.get(&left) == Space::Attacker || left.on_throne() {
            sum -= 1;
        }
        if self.get(&down) == Space::Attacker || down.on_throne() {
            sum -= 1;
        }
        if self.get(&right) == Space::Attacker || right.on_throne() {
            sum -= 1;
        }
        Some(sum)
    }

    /// Some neighbour of the vertex is empty.
    pub open spec fn spec_able_to_move(self, v: Vertex) -> bool {
        ||| (v.spec_up() matches Some(u) && self.at(u) == Space::Empty)
        ||| (v.spec_left() matches Some(u) && self.at(u) == Space::Empty)
        ||| (v.spec_down() matches Some(u) && self.at(u) == Space::Empty)
        ||| (v.spec_right() matches Some(u) && self.at(u) == Space::Empty)
    }

    /// Whether a neighbour of the vertex is empty.
    pub(crate) fn able_to_move(&self, play_from: &Vertex) -> (r: bool)
        requires
            self.wf(),
            self.on_board(*play_from),
        ensures
            r == self.spec_able_to_move(*play_from),
    {
        if let Some(vertex) = play_from.up() {
            if self.get(&vertex) == Space::Empty {
                return true;
            }
        }
        if let Some(vertex) = play_from.left() {
            if self.get(&vertex) == Space::Empty {
                return true;
            }
        }
        if let Some(vertex) = play_from.down() {
            if self.get(&vertex) == Space::Empty {
                return true;
            }
        }
        if let Some(vertex) = play_from.right() {
            if self.get(&vertex) == Space::Empty {
                return true;
            }
        }
        false
    }

    /// No attacker is left on the board.
    pub open spec fn spec_no_attackers(self) -> bool {
        forall|i: int| 0 <= i < self.spaces@.len() ==> #[trigger] self.spaces@[i] != Space::Attacker
    }

    pub(crate) fn no_attacker_pieces_left(&self) -> (r: bool)
        requires
            self.wf(),
        ensures
            r == self.spec_no_attackers(),
            r == (count(self.spaces@, Space::Attacker) == 0),
    {
        let mut i: usize = 0;
        while i < self.spaces.len()
            invariant
                i <= self.spaces@.len(),
                forall|j: int| 0 <= j < i ==> #[trigger] self.spaces@[j] != Space::Attacker,
                count(self.spaces@.take(i as int), Space::Attacker) == 0,
            decreases self.spaces@.len() - i,
        {
            proof {
                crate::board::lemma_count_take(self.spaces@, i as int, Space::Attacker);
            }
            if self.spaces[i] == Space::Attacker {
                proof {
                    lemma_count_positive(self.spaces@, i as int, Space::Attacker);
                }
                return false;
            }
            i = i + 1;
        }
        assert(self.spaces@.take(i as int) =~= self.spaces@);
        true
    }
}

/// A sequence with a square of some kind counts at least one of that kind.
pub proof fn lemma_count_positive(s: Seq<Space>, i: int, p: Space)
    requires
        0 <= i < s.len(),
        s[i] == p,
    ensures
        count(s, p) > 0,
    decreases s.len(),
{
    if i < s.len() - 1 {
        lemma_count_positive(s.drop_last(), i, p);
    }
}

/// Emptying the square of at most one vertex.
pub proof fn lemma_clear_opt(s: Seq<Space>, n: nat, o: Option<Vertex>)
    ensures
        clear_all(s, n, opt_seq(o)) == match o {
            Some(v) => s.update(cell(n, v.x as int, v.y as int), Space::Empty),
            None => s,
        },
{
    reveal_with_fuel(clear_all, 2);
    if let Some(v) = o {
        assert(opt_seq(o).drop_last() =~= Seq::<Vertex>::empty());
    }
}

/// Emptying the square a move captured in one direction does not change what it captures in
/// another.
pub proof fn lemma_other_dir(
    b0: Board,
    b1: Board,
    to: Vertex,
    role: Role,
    done: Direction4,
    d: Direction4,
)
    requires
        b0.wf(),
        b0.on_board(to),
        done != d,
        b1.spaces@ == clear_all(b0.spaces@, b0.n(), opt_seq(b0.dir_capture(to, role, done))),
    ensures
        b1.spaces@.len() == b0.spaces@.len(),
        b1.dir_capture(to, role, d) == b0.dir_capture(to, role, d),
{
    let n = b0.n();
    lemma_clear_opt(b0.spaces@, n, b0.dir_capture(to, role, done));
    if let Some(r1) = step(to, d) {
        assert(b1.at(r1) == b0.at(r1));
        if let Some(r2) = step(r1, d) {
            assert(b1.at(r2) == b0.at(r2));
        }
    }
}

/// Emptying the squares of two lists, one after the other, is emptying those of both.
pub proof fn lemma_clear_all_append(s: Seq<Space>, n: nat, a: Seq<Vertex>, b: Seq<Vertex>)
    ensures
        clear_all(clear_all(s, n, a), n, b) == clear_all(s, n, a + b),
    decreases b.len(),
{
    if b.len() == 0 {
        assert(a + b =~= a);
    } else {
        lemma_clear_all_append(s, n, a, b.drop_last());
        assert((a + b).drop_last() =~= a + b.drop_last());
    }
}

} // verus!
