use vstd::prelude::*;

use std::collections::HashMap;

use crate::board::{cell, Board, BoardSize};
use crate::board_capture::{step, Direction4};
use crate::game::PreviousBoards;
use crate::play::{Plae, Play, Vertex};
use crate::role::Role;
use crate::space::Space;
use crate::status::Status;

verus! {

broadcast use vstd::std_specs::hash::group_hash_axioms;

/// The four corners, where the king escapes: top left, top right, bottom left, bottom right.
pub open spec fn spec_exit_squares(size: BoardSize) -> Seq<Vertex> {
    let m = (size.n() - 1) as usize;
    seq![
        Vertex { size, x: 0, y: 0 },
        Vertex { size, x: m, y: 0 },
        Vertex { size, x: 0, y: m },
        Vertex { size, x: m, y: m },
    ]
}

/// `v` is read before the square in column `x` of row `y`, the rows being read top to
/// bottom and each left to right.
pub open spec fn read_before(v: Vertex, x: int, y: int) -> bool {
    v.y < y || (v.y == y && v.x < x)
}

/// `u` is read after `v`.
pub open spec fn read_after(u: Vertex, v: Vertex) -> bool {
    u.y > v.y || (u.y == v.y && u.x > v.x)
}

/// How many steps there are from `v` to the edge in direction `d`.
pub open spec fn steps_left(v: Vertex, d: Direction4) -> nat {
    let n = v.n() as int;
    let k: int = match d {
        Direction4::Up => v.y as int,
        Direction4::Left => v.x as int,
        Direction4::Down => n - 1 - v.y,
        Direction4::Right => n - 1 - v.x,
    };
    if k >= 0 {
        k as nat
    } else {
        0
    }
}

impl Board {
    /// The corners of this board, where the king escapes.
    pub fn exit_squares(&self) -> (r: Vec<Vertex>)
        requires
            self.wf(),
        ensures
            r@ == spec_exit_squares(self.spec_size()),
    {
        let size = self.size();
        let m = size.to_usize() - 1;
        let mut v = Vec::new();
        v.push(Vertex { size, x: 0, y: 0 });
        v.push(Vertex { size, x: m, y: 0 });
        v.push(Vertex { size, x: 0, y: m });
        v.push(Vertex { size, x: m, y: m });
        v
    }

    /// A square empty here and taken on `other`: where a piece arrived.
    pub open spec fn arrival(self, other: Board, v: Vertex) -> bool {
        self.on_board(v) && self.at(v) == Space::Empty && other.at(v) != Space::Empty
    }

    /// A square taken here and empty on `other`: where a piece left.
    pub open spec fn departure(self, other: Board, v: Vertex) -> bool {
        self.on_board(v) && other.at(v) == Space::Empty && self.at(v) != Space::Empty
    }

    /// The arrival read last.
    pub open spec fn last_arrival(self, other: Board, v: Vertex) -> bool {
        &&& self.arrival(other, v)
        &&& forall|u: Vertex| #[trigger] self.arrival(other, u) ==> !read_after(u, v)
    }

    /// The departure read last.
    pub open spec fn last_departure(self, other: Board, v: Vertex) -> bool {
        &&& self.departure(other, v)
        &&& forall|u: Vertex| #[trigger] self.departure(other, u) ==> !read_after(u, v)
    }

    /// What `difference` says of two positions: the move to the square read last among those
    /// that `other` fills, from the square read last among those it empties, by the side of
    /// what stands there on `other`; none when no square is filled or none emptied.
    pub open spec fn changes_to(self, other: Board, r: Option<Plae>) -> bool {
        match r {
            Some(Plae::Play(p)) => {
                &&& self.last_arrival(other, p.to)
                &&& self.last_departure(other, p.from)
                &&& p.role == other.at(p.to).spec_role()
            },
            Some(_) => false,
            None => !(exists|v: Vertex| #[trigger] self.arrival(other, v)) || !(exists|v: Vertex|
                #[trigger] self.departure(other, v)),
        }
    }

    /// The move that leads from this board to `other`: the piece that left the square read
    /// last among those it emptied, for the square read last among those it filled, moved by
    /// the side of what stands there on `other`. None when no square was filled or none
    /// emptied.
    #[verifier::loop_isolation(false)]
    pub fn difference(&self, other: &Board) -> (r: Option<Plae>)
        requires
            self.wf(),
            other.wf(),
            self.n() <= other.n(),
        ensures
            self.changes_to(*other, r),
    {
        let size = self.size();
        let n = size.to_usize();
        let mut role: Option<Role> = None;
        let mut from: Option<Vertex> = None;
        let mut to: Option<Vertex> = None;
        let mut y: usize = 0;
        while y < n
            invariant
                y <= n,
                match to {
                    Some(t) => {
                        &&& self.arrival(*other, t)
                        &&& read_before(t, 0, y as int)
                        &&& forall|u: Vertex|
                            #[trigger] self.arrival(*other, u) && read_before(u, 0, y as int)
                                ==> !read_after(u, t)
                        &&& role == Some(other.at(t).spec_role())
                    },
                    None => role is None && forall|u: Vertex|
                        #[trigger] self.arrival(*other, u) ==> !read_before(u, 0, y as int),
                },
                match from {
                    Some(f) => {
                        &&& self.departure(*other, f)
                        &&& read_before(f, 0, y as int)
                        &&& forall|u: Vertex|
                            #[trigger] self.departure(*other, u) && read_before(u, 0, y as int)
                                ==> !read_after(u, f)
                    },
                    None => forall|u: Vertex|
                        #[trigger] self.departure(*other, u) ==> !read_before(u, 0, y as int),
                },
            decreases n - y,
        {
            let mut x: usize = 0;
            while x < n
                invariant
                    y < n,
                    x <= n,
                    match to {
                        Some(t) => {
                            &&& self.arrival(*other, t)
                            &&& read_before(t, x as int, y as int)
                            &&& forall|u: Vertex|
                                #[trigger] self.arrival(*other, u) && read_before(
                                    u,
                                    x as int,
                                    y as int,
                                ) ==> !read_after(u, t)
                            &&& role == Some(other.at(t).spec_role())
                        },
                        None => role is None && forall|u: Vertex|
                            #[trigger] self.arrival(*other, u) ==> !read_before(u, x as int, y as int),
                    },
                    match from {
                        Some(f) => {
                            &&& self.departure(*other, f)
                            &&& read_before(f, x as int, y as int)
                            &&& forall|u: Vertex|
                                #[trigger] self.departure(*other, u) && read_before(
                                    u,
                                    x as int,
                                    y as int,
                                ) ==> !read_after(u, f)
                        },
                        None => forall|u: Vertex|
                            #[trigger] self.departure(*other, u) ==> !read_before(
                                u,
                                x as int,
                                y as int,
                            ),
                    },
                decreases n - x,
            {
                let vertex = Vertex { size, x, y };
                let a = self.get(&vertex);
                let b = other.get(&vertex);
                if a != b {
                    if a == Space::Empty {
                        to = Some(vertex);
                        role = Some(b.role());
                    }
                    if b == Space::Empty {
                        from = Some(vertex);
                    }
                }
                x = x + 1;
            }
            y = y + 1;
        }
        match (role, from, to) {
            (Some(role), Some(from), Some(to)) => Some(Plae::Play(Play { role, from, to })),
            _ => None,
        }
    }

    /// The move from `from` to `to` by the side whose turn it is breaks no rule.
    pub open spec fn move_allowed(
        self,
        from: Vertex,
        to: Vertex,
        status: Status,
        turn: Role,
        previous_boards: PreviousBoards,
    ) -> bool {
        &&& self.on_board(from)
        &&& self.on_board(to)
        &&& self.move_error(Play { role: turn, from, to }, status, turn, previous_boards) is None
    }

    /// Some move from `from` breaks no rule.
    #[verifier::loop_isolation(false)]
    fn legal_move_from(
        &self,
        from: &Vertex,
        status: &Status,
        turn: &Role,
        previous_boards: &PreviousBoards,
    ) -> (r: bool)
        requires
            self.wf(),
            self.on_board(*from),
        ensures
            r == exists|to: Vertex| #[trigger]
                self.move_allowed(*from, to, *status, *turn, *previous_boards),
    {
        let size = self.size();
        let n = size.to_usize();
        let mut y: usize = 0;
        while y < n
            invariant
                y <= n,
                forall|to: Vertex|
                    #[trigger] self.move_allowed(*from, to, *status, *turn, *previous_boards)
                        ==> !read_before(to, 0, y as int),
            decreases n - y,
        {
            let mut x: usize = 0;
            while x < n
                invariant
                    y < n,
                    x <= n,
                    forall|to: Vertex|
                        #[trigger] self.move_allowed(*from, to, *status, *turn, *previous_boards)
                            ==> !read_before(to, x as int, y as int),
                decreases n - x,
            {
                let vertex_to = Vertex { size, x, y };
                if vertex_to.x == from.x || vertex_to.y == from.y {
                    let play = Play { role: *turn, from: *from, to: vertex_to };
                    if self.legal_move(&play, status, turn, previous_boards).is_ok() {
                        assert(self.move_allowed(*from, vertex_to, *status, *turn, *previous_boards));
                        return true;
                    }
                }
                x = x + 1;
            }
            y = y + 1;
        }
        false
    }

    /// The side to move has some move that breaks no rule.
    pub open spec fn spec_a_legal_move_exists(
        self,
        status: Status,
        turn: Role,
        previous_boards: PreviousBoards,
    ) -> bool {
        exists|from: Vertex, to: Vertex| #[trigger]
            self.move_allowed(from, to, status, turn, previous_boards)
    }

    /// Whether the side whose turn it is has a move that breaks no rule.
    #[verifier::loop_isolation(false)]
    pub fn a_legal_move_exists(
        &self,
        status: &Status,
        turn: &Role,
        previous_boards: &PreviousBoards,
    ) -> (r: bool)
        requires
            self.wf(),
        ensures
            r == self.spec_a_legal_move_exists(*status, *turn, *previous_boards),
    {
        let size = self.size();
        let n = size.to_usize();
        let mut y: usize = 0;
        while y < n
            invariant
                y <= n,
                forall|from: Vertex, to: Vertex|
                    #[trigger] self.move_allowed(from, to, *status, *turn, *previous_boards)
                        ==> !read_before(from, 0, y as int),
            decreases n - y,
        {
            let mut x: usize = 0;
            while x < n
                invariant
                    y < n,
                    x <= n,
                    forall|from: Vertex, to: Vertex|
                        #[trigger] self.move_allowed(from, to, *status, *turn, *previous_boards)
                            ==> !read_before(from, x as int, y as int),
                decreases n - x,
            {
                let vertex_from = Vertex { size, x, y };
                if self.get(&vertex_from).role() == *turn {
                    if self.legal_move_from(&vertex_from, status, turn, previous_boards) {
                        return true;
                    }
                }
                x = x + 1;
            }
            y = y + 1;
        }
        false
    }

    /// The empty squares from `v` (left out) in direction `d`, up to the first square that is
    /// not empty, leaving out those whose index is in `visited`.
    pub open spec fn open_ray(self, v: Vertex, d: Direction4, visited: Set<usize>) -> Seq<Vertex>
        decreases steps_left(v, d),
    {
        match step(v, d) {
            None => seq![],
            Some(w) => if self.at(w) != Space::Empty {
                seq![]
            } else {
                (if visited.contains(w.spec_index() as usize) {
                    seq![]
                } else {
                    seq![w]
                }) + self.open_ray(w, d, visited)
            },
        }
    }

    /// For each start in turn, the empty squares a rook's move away to the left, to the right,
    /// upward and downward, leaving out those whose index is in `visited`.
    pub open spec fn neighbors_of(self, starts: Seq<Vertex>, visited: Set<usize>) -> Seq<Vertex>
        decreases starts.len(),
    {
        if starts.len() == 0 {
            seq![]
        } else {
            let s = starts.last();
            self.neighbors_of(starts.drop_last(), visited) + self.open_ray(
                s,
                Direction4::Left,
                visited,
            ) + self.open_ray(s, Direction4::Right, visited) + self.open_ray(
                s,
                Direction4::Up,
                visited,
            ) + self.open_ray(s, Direction4::Down, visited)
        }
    }

    /// Appends the unvisited empty squares from `start` in direction `d`.
    fn push_open_ray(
        &self,
        start: &Vertex,
        d: Direction4,
        visited: &HashMap<usize, (u8, Option<Vertex>)>,
        out: &mut Vec<Vertex>,
    )
        requires
            self.wf(),
            self.on_board(*start),
        ensures
            final(out)@ == old(out)@ + self.open_ray(*start, d, visited@.dom()),
    {
        let mut cur = *start;
        loop
            invariant
                self.wf(),
                self.on_board(cur),
                out@ + self.open_ray(cur, d, visited@.dom()) == old(out)@ + self.open_ray(
                    *start,
                    d,
                    visited@.dom(),
                ),
            decreases steps_left(cur, d),
        {
            let next = match d {
                Direction4::Up => cur.up(),
                Direction4::Left => cur.left(),
                Direction4::Down => cur.down(),
                Direction4::Right => cur.right(),
            };
            match next {
                None => {
                    assert(self.open_ray(cur, d, visited@.dom()) == Seq::<Vertex>::empty());
                    assert(out@ + Seq::<Vertex>::empty() == out@);
                    return;
                },
                Some(w) => {
                    if self.get(&w) != Space::Empty {
                        assert(self.open_ray(cur, d, visited@.dom()) == Seq::<Vertex>::empty());
                        assert(out@ + Seq::<Vertex>::empty() == out@);
                        return;
                    }
                    let ghost before = out@;
                    let i = w.index();
                    if !visited.contains_key(&i) {
                        out.push(w);
                    }
                    proof {
                        let rest = self.open_ray(w, d, visited@.dom());
                        if visited@.dom().contains(i) {
                            assert(out@ == before);
                            assert(before + (Seq::<Vertex>::empty() + rest) == out@ + rest);
                        } else {
                            assert(out@ == before.push(w));
                            assert(before + (seq![w] + rest) == out@ + rest);
                        }
                    }
                    cur = w;
                },
            }
        }
    }

    /// For each start in turn, the empty squares a rook's move away to the left, to the right,
    /// upward and downward, whose index (row by row) is not a key of `visited`.
    pub fn get_neighbors(
        &self,
        starts: &Vec<Vertex>,
        visited: &HashMap<usize, (u8, Option<Vertex>)>,
    ) -> (r: Vec<Vertex>)
        requires
            self.wf(),
            forall|i: int| 0 <= i < starts@.len() ==> self.on_board(#[trigger] starts@[i]),
        ensures
            r@ == self.neighbors_of(starts@, visited@.dom()),
    {
        let mut neighbors = Vec::new();
        let mut k: usize = 0;
        while k < starts.len()
            invariant
                self.wf(),
                k <= starts@.len(),
                forall|i: int| 0 <= i < starts@.len() ==> self.on_board(#[trigger] starts@[i]),
                neighbors@ == self.neighbors_of(starts@.take(k as int), visited@.dom()),
            decreases starts@.len() - k,
        {
            let start = &starts[k];
            proof {
                assert(starts@.take(k as int + 1).drop_last() == starts@.take(k as int));
                assert(starts@.take(k as int + 1).last() == starts@[k as int]);
            }
            self.push_open_ray(start, Direction4::Left, visited, &mut neighbors);
            self.push_open_ray(start, Direction4::Right, visited, &mut neighbors);
            self.push_open_ray(start, Direction4::Up, visited, &mut neighbors);
            self.push_open_ray(start, Direction4::Down, visited, &mut neighbors);
            k = k + 1;
        }
        proof {
            assert(starts@.take(starts@.len() as int) == starts@);
        }
        neighbors
    }
}


/// Boards that agree in every field allow the same moves.
pub proof fn lemma_equals_same_moves(
    a: Board,
    b: Board,
    status: Status,
    turn: Role,
    previous_boards: PreviousBoards,
)
    requires
        a.equals(b),
    ensures
        a.spec_a_legal_move_exists(status, turn, previous_boards) == b.spec_a_legal_move_exists(
            status,
            turn,
            previous_boards,
        ),
{
    assert forall|x: int, y: int|
        #![trigger a.at_xy(x, y)]
        #![trigger b.at_xy(x, y)]
        a.at_xy(x, y) == b.at_xy(x, y) by {}
    assert forall|from: Vertex, to: Vertex|
        #[trigger] a.move_allowed(from, to, status, turn, previous_boards) == b.move_allowed(
            from,
            to,
            status,
            turn,
            previous_boards,
        ) by {
        if a.path_clear(from, to) {
            assert(b.path_clear(from, to));
        }
        if b.path_clear(from, to) {
            assert(a.path_clear(from, to));
        }
        assert(a.moved_spaces(from, to) == b.moved_spaces(from, to));
    }
    if a.spec_a_legal_move_exists(status, turn, previous_boards) {
        let (f, t) = choose|f: Vertex, t: Vertex| #[trigger] a.move_allowed(f, t, status, turn, previous_boards);
        assert(b.move_allowed(f, t, status, turn, previous_boards));
    }
    if b.spec_a_legal_move_exists(status, turn, previous_boards) {
        let (f, t) = choose|f: Vertex, t: Vertex| #[trigger] b.move_allowed(f, t, status, turn, previous_boards);
        assert(a.move_allowed(f, t, status, turn, previous_boards));
    }
}


/// Comparing the board before a move that breaks no rule with the board right after it
/// (before any capture) gives the move back: its destination is the one square filled, its
/// origin the one square emptied, and the piece there is of the side that moved.
pub proof fn lemma_difference_recovers_move(
    b: Board,
    b1: Board,
    p: Play,
    status: Status,
    turn: Role,
    previous_boards: PreviousBoards,
)
    requires
        b.wf(),
        b.play_on_board(p),
        p.from.size == b.spec_size(),
        p.to.size == b.spec_size(),
        b.move_error(p, status, turn, previous_boards) is None,
        b.after_move(p, b1),
    ensures
        b.last_arrival(b1, p.to),
        b.last_departure(b1, p.from),
        b1.at(p.to).spec_role() == turn,
{
    let n = b.n();
    let fi = cell(n, p.from.x as int, p.from.y as int);
    let ti = cell(n, p.to.x as int, p.to.y as int);
    assert(b.at_xy(p.to.x as int, p.to.y as int) == Space::Empty) by {
        if p.from.x != p.to.x {
            assert(b.at_xy(p.to.x as int, p.from.y as int) == Space::Empty);
        } else {
            assert(b.at_xy(p.from.x as int, p.to.y as int) == Space::Empty);
        }
    }
    assert forall|u: Vertex| #[trigger] b.arrival(b1, u) implies u == p.to by {
        crate::board_flood::lemma_cell_in_range(b, u);
        let ui = cell(n, u.x as int, u.y as int);
        if ui != fi && ui != ti {
            assert(b1.spaces@[ui] == b.spaces@[ui]);
        } else if ui == fi {
            crate::board_flood::lemma_cell_injective(b, u, p.from);
        } else {
            crate::board_flood::lemma_cell_injective(b, u, p.to);
        }
    }
    assert forall|u: Vertex| #[trigger] b.departure(b1, u) implies u == p.from by {
        crate::board_flood::lemma_cell_in_range(b, u);
        let ui = cell(n, u.x as int, u.y as int);
        if ui != fi && ui != ti {
            assert(b1.spaces@[ui] == b.spaces@[ui]);
        } else if ui == fi {
            crate::board_flood::lemma_cell_injective(b, u, p.from);
        } else {
            crate::board_flood::lemma_cell_injective(b, u, p.to);
        }
    }
    assert(b.arrival(b1, p.to));
    assert(b.departure(b1, p.from));
}

} // verus!
