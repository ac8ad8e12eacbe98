use vstd::prelude::*;

use crate::board::{attackers_at_start, cell, defenders_at_start, Board};
use crate::board_escape::blank_marks;
use crate::board_flood::{lemma_cell_in_range, marked};
use crate::board_scan::{read_after, read_before, spec_exit_squares};
use crate::board_shield::{edge_vertex, Edge};
use crate::play::Vertex;
use crate::space::Space;

verus! {

/// Where the scan along an edge stands: no open square yet, inside the run of open squares,
/// or past it.
#[derive(Clone, Copy, PartialEq, Eq, Structural)]
enum RunState {
    Before,
    Within,
    After,
}

/// Reading one more square keeps the list of held squares read so far complete and in order.
proof fn lemma_listed_step(
    vs: Seq<Vertex>,
    held: Set<Vertex>,
    v: Vertex,
    x: int,
    y: int,
    take: bool,
    vs2: Seq<Vertex>,
)
    requires
        forall|u: Vertex| #[trigger] vs.contains(u) <==> held.contains(u) && read_before(u, x, y),
        forall|i: int, j: int| 0 <= i < j < vs.len() ==> read_after(#[trigger] vs[j], #[trigger] vs[i]),
        v.x == x,
        v.y == y,
        forall|u: Vertex| #[trigger] held.contains(u) ==> u.size == v.size,
        take == held.contains(v),
        vs2 == if take {
            vs.push(v)
        } else {
            vs
        },
    ensures
        forall|u: Vertex| #[trigger] vs2.contains(u) <==> held.contains(u) && read_before(u, x + 1, y),
        forall|i: int, j: int|
            0 <= i < j < vs2.len() ==> read_after(#[trigger] vs2[j], #[trigger] vs2[i]),
{
    assert forall|u: Vertex| #[trigger] vs2.contains(u) <==> held.contains(u) && read_before(
        u,
        x + 1,
        y,
    ) by {
        if held.contains(u) && read_before(u, x + 1, y) && !read_before(u, x, y) {
            assert(u == v);
            if take {
                assert(vs2[vs.len() as int] == v);
            }
        }
        if take {
            if vs.contains(u) {
                let t = choose|t: int| 0 <= t < vs.len() && vs[t] == u;
                assert(vs2[t] == u);
            }
            if vs2.contains(u) && u != v {
                let t = choose|t: int| 0 <= t < vs2.len() && vs2[t] == u;
                assert(t < vs.len());
                assert(vs[t] == u);
            }
        }
    }
    if take {
        assert forall|i: int, j: int| 0 <= i < j < vs2.len() implies read_after(
            #[trigger] vs2[j],
            #[trigger] vs2[i],
        ) by {
            assert(vs2[i] == vs[i]);
            if j < vs.len() {
                assert(vs2[j] == vs[j]);
            } else {
                assert(vs.contains(vs[i]));
            }
        }
    }
}

impl Board {
    /// Every corner is closed off from the king's side.
    pub open spec fn all_closed_off(self) -> bool {
        forall|j: int|
            0 <= j < 4 ==> self.closed_off(#[trigger] spec_exit_squares(self.spec_size())[j])
    }

    /// Some corner among the first `k` counts the square as held.
    pub open spec fn held_by_first(self, k: int, v: Vertex) -> bool {
        exists|j: int|
            0 <= j < k && self.closed_off_square(
                #[trigger] spec_exit_squares(self.spec_size())[j],
                v,
            )
    }

    /// The squares of the board that some closed-off corner counts as held.
    pub open spec fn held_set(self) -> Set<Vertex> {
        Set::new(|v: Vertex| self.on_board(v) && self.held_by_first(4, v))
    }

    /// Whether every corner is closed off; if so, the squares they count as held, as flags.
    fn closed_off_mask(&self) -> (r: Option<Vec<bool>>)
        requires
            self.wf(),
        ensures
            r is Some == self.all_closed_off(),
            r matches Some(m) ==> {
                &&& m@.len() == self.spaces@.len()
                &&& forall|v: Vertex|
                    self.on_board(v) ==> (#[trigger] marked(m@, self.n(), v)
                        == self.held_set().contains(v))
            },
    {
        let exits = self.exit_squares();
        let ghost ex = spec_exit_squares(self.spec_size());
        let mut defended = blank_marks(self.spaces.len());
        let mut k: usize = 0;
        while k < exits.len()
            invariant
                self.wf(),
                exits@ == ex,
                ex == spec_exit_squares(self.spec_size()),
                k <= 4,
                defended@.len() == self.spaces@.len(),
                forall|j: int| 0 <= j < k ==> self.closed_off(#[trigger] ex[j]),
                forall|v: Vertex|
                    self.on_board(v) ==> (#[trigger] marked(defended@, self.n(), v)
                        == self.held_by_first(k as int, v)),
            decreases 4 - k,
        {
            let ghost before = defended@;
            if !self.closed_off_exit(&exits[k], &mut defended) {
                return None;
            }
            proof {
                assert forall|v: Vertex| self.on_board(v) implies (#[trigger] marked(
                    defended@,
                    self.n(),
                    v,
                ) == self.held_by_first(k + 1, v)) by {
                    if self.held_by_first(k + 1, v) && !self.closed_off_square(ex[k as int], v) {
                        let j = choose|j: int|
                            0 <= j < k + 1 && self.closed_off_square(#[trigger] ex[j], v);
                        assert(j < k);
                    }
                    if marked(before, self.n(), v) {
                        let j = choose|j: int|
                            0 <= j < k && self.closed_off_square(#[trigger] ex[j], v);
                        assert(0 <= j < k + 1);
                    }
                }
            }
            k = k + 1;
        }
        Some(defended)
    }

    /// The squares that the corners, all closed off, count as held, row by row; none unless
    /// every corner is closed off.
    pub fn closed_off_exits(&self) -> (r: Option<Vec<Vertex>>)
        requires
            self.wf(),
        ensures
            r is Some == self.all_closed_off(),
            r matches Some(vs) ==> {
                &&& forall|v: Vertex| #[trigger] vs@.contains(v) <==> self.held_set().contains(v)
                &&& forall|i: int, j: int|
                    0 <= i < j < vs@.len() ==> read_after(#[trigger] vs@[j], #[trigger] vs@[i])
            },
    {
        let mask = match self.closed_off_mask() {
            Some(m) => m,
            None => return None,
        };
        let size = self.size();
        let n = size.to_usize();
        let mut vs: Vec<Vertex> = Vec::new();
        let mut y: usize = 0;
        while y < n
            invariant
                self.wf(),
                n == self.n(),
                size == self.spec_size(),
                mask@.len() == self.spaces@.len(),
                forall|v: Vertex|
                    self.on_board(v) ==> (#[trigger] marked(mask@, self.n(), v)
                        == self.held_set().contains(v)),
                y <= n,
                forall|v: Vertex| #[trigger]
                    vs@.contains(v) <==> self.held_set().contains(v) && read_before(v, 0, y as int),
                forall|i: int, j: int|
                    0 <= i < j < vs@.len() ==> read_after(#[trigger] vs@[j], #[trigger] vs@[i]),
            decreases n - y,
        {
            let mut x: usize = 0;
            while x < n
                invariant
                    self.wf(),
                    n == self.n(),
                    size == self.spec_size(),
                    mask@.len() == self.spaces@.len(),
                    forall|v: Vertex|
                        self.on_board(v) ==> (#[trigger] marked(mask@, self.n(), v)
                            == self.held_set().contains(v)),
                    y < n,
                    x <= n,
                    forall|v: Vertex| #[trigger]
                        vs@.contains(v) <==> self.held_set().contains(v) && read_before(
                            v,
                            x as int,
                            y as int,
                        ),
                    forall|i: int, j: int|
                        0 <= i < j < vs@.len() ==> read_after(#[trigger] vs@[j], #[trigger] vs@[i]),
                decreases n - x,
            {
                let v = Vertex { size, x, y };
                proof {
                    lemma_cell_in_range(*self, v);
                }
                let ghost before = vs@;
                let take = mask[v.index()];
                if take {
                    vs.push(v);
                }
                proof {
                    assert(self.on_board(v));
                    assert(marked(mask@, self.n(), v) == take);
                    lemma_listed_step(before, self.held_set(), v, x as int, y as int, take, vs@);
                }
                x = x + 1;
            }
            proof {
                assert forall|v: Vertex| #[trigger]
                    vs@.contains(v) <==> self.held_set().contains(v) && read_before(v, 0, y as int + 1) by {
                }
            }
            y = y + 1;
        }
        Some(vs)
    }

    /// The `t`-th square of edge `e` is open: neither an attacker nor held.
    pub open spec fn side_open(self, held: Set<Vertex>, e: Edge, t: int) -> bool {
        let v = edge_vertex(self.spec_size(), e, t);
        self.at(v) != Space::Attacker && !held.contains(v)
    }

    /// How many of the first `t` squares of edge `e` are open.
    pub open spec fn side_open_count(self, held: Set<Vertex>, e: Edge, t: int) -> nat
        decreases t,
    {
        if t <= 0 {
            0
        } else {
            self.side_open_count(held, e, t - 1) + if self.side_open(held, e, t - 1) {
                1nat
            } else {
                0nat
            }
        }
    }

    /// The open squares of edge `e` form a single unbroken run, if any.
    pub open spec fn side_one_run(self, held: Set<Vertex>, e: Edge) -> bool {
        forall|a: int, b: int, c: int|
            #![trigger self.side_open(held, e, a), self.side_open(held, e, b), self.side_open(held, e, c)]
            0 <= a < b < c < self.n() && self.side_open(held, e, a) && self.side_open(held, e, c)
                ==> self.side_open(held, e, b)
    }

    /// The open squares of edge `e` form one run of at most `k` squares.
    pub open spec fn side_within(self, held: Set<Vertex>, e: Edge, k: int) -> bool {
        self.side_one_run(held, e) && self.side_open_count(held, e, self.n() as int) <= k
    }

    /// On every edge, the open squares form one run of at most `k` squares.
    pub open spec fn sides_within(self, held: Set<Vertex>, k: int) -> bool {
        &&& self.side_within(held, Edge::LeftSide, k)
        &&& self.side_within(held, Edge::RightSide, k)
        &&& self.side_within(held, Edge::Top, k)
        &&& self.side_within(held, Edge::Bottom, k)
    }

    /// Takes in one square of an edge: counts it when it is open, and says whether the open
    /// squares so far are one run of at most `spaces` squares.
    fn connected(
        &self,
        vertex: &Vertex,
        defended: &Vec<bool>,
        spaces: u8,
        count: &mut u8,
        continuos: &mut RunState,
    ) -> (r: bool)
        requires
            self.wf(),
            self.on_board(*vertex),
            defended@.len() == self.spaces@.len(),
            *old(count) <= spaces,
            spaces < 255,
        ensures
            ({
                let open = self.at(*vertex) != Space::Attacker && !marked(
                    defended@,
                    self.n(),
                    *vertex,
                );
                if open {
                    if *old(continuos) == RunState::After {
                        !r && *final(count) == *old(count) && *final(continuos) == *old(continuos)
                    } else {
                        &&& *final(count) == *old(count) + 1
                        &&& *final(continuos) == if *old(count) == 0 {
                            RunState::Within
                        } else {
                            *old(continuos)
                        }
                        &&& r == (*final(count) <= spaces)
                    }
                } else {
                    &&& *final(count) == *old(count)
                    &&& *final(continuos) == if *old(continuos) == RunState::Within {
                        RunState::After
                    } else {
                        *old(continuos)
                    }
                    &&& r
                }
            }),
    {
        proof {
            lemma_cell_in_range(*self, *vertex);
        }
        let space = self.get(vertex);
        if space != Space::Attacker && !defended[vertex.index()] {
            if *continuos == RunState::After {
                return false;
            } else if *count == 0 {
                *continuos = RunState::Within;
            }
            *count = *count + 1;
        } else if *continuos == RunState::Within {
            *continuos = RunState::After;
        }
        if *count > spaces {
            return false;
        }
        true
    }

    /// The count of open squares does not fall as more of the edge is taken in.
    proof fn lemma_side_count_mono(self, held: Set<Vertex>, e: Edge, a: int, b: int)
        requires
            0 <= a <= b,
        ensures
            self.side_open_count(held, e, a) <= self.side_open_count(held, e, b),
        decreases b - a,
    {
        if a < b {
            self.lemma_side_count_mono(held, e, a, b - 1);
        }
    }

    /// Whether the open squares of edge `e` form one run of at most `spaces` squares, the
    /// squares held being flagged in `defended`.
    fn side_within_exec(
        &self,
        defended: &Vec<bool>,
        Ghost(held): Ghost<Set<Vertex>>,
        e: Edge,
        spaces: u8,
    ) -> (r: bool)
        requires
            self.wf(),
            defended@.len() == self.spaces@.len(),
            forall|v: Vertex|
                self.on_board(v) ==> (#[trigger] marked(defended@, self.n(), v) == held.contains(v)),
            spaces < 255,
        ensures
            r == self.side_within(held, e, spaces as int),
    {
        let size = self.size();
        let n = size.to_usize();
        let mut count: u8 = 0;
        let mut continuos = RunState::Before;
        let mut t: usize = 0;
        while t < n
            invariant
                self.wf(),
                n == self.n(),
                size == self.spec_size(),
                defended@.len() == self.spaces@.len(),
                forall|v: Vertex|
                    self.on_board(v) ==> (#[trigger] marked(defended@, self.n(), v)
                        == held.contains(v)),
                spaces < 255,
                t <= n,
                count as int == self.side_open_count(held, e, t as int),
                count <= spaces,
                (continuos == RunState::Before) == (count == 0),
                continuos == RunState::Before ==> forall|a: int|
                    0 <= a < t ==> !#[trigger] self.side_open(held, e, a),
                continuos == RunState::Within ==> t > 0 && self.side_open(held, e, t - 1),
                continuos == RunState::After ==> exists|a: int, b: int|
                    0 <= a < b < t && #[trigger] self.side_open(held, e, a) && !#[trigger] self.side_open(
                        held,
                        e,
                        b,
                    ),
                forall|a: int, b: int, c: int|
                    #![trigger self.side_open(held, e, a), self.side_open(held, e, b), self.side_open(held, e, c)]
                    0 <= a < b < c < t && self.side_open(held, e, a) && self.side_open(held, e, c)
                        ==> self.side_open(held, e, b),
            decreases n - t,
        {
            let vertex = match e {
                Edge::LeftSide => Vertex { size, x: 0, y: t },
                Edge::RightSide => Vertex { size, x: n - 1, y: t },
                Edge::Top => Vertex { size, x: t, y: 0 },
                Edge::Bottom => Vertex { size, x: t, y: n - 1 },
            };
            assert(vertex == edge_vertex(size, e, t as int));
            let ghost c0 = continuos;
            let ghost open = self.side_open(held, e, t as int);
            if !self.connected(&vertex, defended, spaces, &mut count, &mut continuos) {
                proof {
                    if c0 == RunState::After && open {
                        let (a, b) = choose|a: int, b: int|
                            0 <= a < b < t && #[trigger] self.side_open(held, e, a) && !#[trigger] self.side_open(
                                held,
                                e,
                                b,
                            );
                        assert(self.side_open(held, e, t as int));
                        assert(!self.side_one_run(held, e));
                    } else {
                        self.lemma_side_count_mono(held, e, t as int + 1, n as int);
                    }
                }
                return false;
            }
            proof {
                if open {
                    assert forall|a: int, b: int, c: int|
                        #![trigger self.side_open(held, e, a), self.side_open(held, e, b), self.side_open(held, e, c)]
                        0 <= a < b < c < t + 1 && self.side_open(held, e, a) && self.side_open(
                            held,
                            e,
                            c,
                        ) implies self.side_open(held, e, b) by {
                        if c == t {
                            if c0 == RunState::Before {
                                assert(!self.side_open(held, e, a));
                            } else if b < t - 1 {
                                assert(self.side_open(held, e, t - 1));
                            }
                        }
                    }
                } else {
                    if c0 == RunState::Within {
                        assert(self.side_open(held, e, t - 1));
                        assert(!self.side_open(held, e, t as int));
                    }
                }
            }
            t = t + 1;
        }
        true
    }

    /// Whether, on every edge, the open squares (neither attackers nor held) form one run of at
    /// most `n` squares.
    fn n_or_less_side_spaces(&self, defended: &Vec<bool>, Ghost(held): Ghost<Set<Vertex>>, n: u8) -> (r: bool)
        requires
            self.wf(),
            defended@.len() == self.spaces@.len(),
            forall|v: Vertex|
                self.on_board(v) ==> (#[trigger] marked(defended@, self.n(), v) == held.contains(v)),
            n < 255,
        ensures
            r == self.sides_within(held, n as int),
    {
        self.side_within_exec(defended, Ghost(held), Edge::LeftSide, n)
            && self.side_within_exec(defended, Ghost(held), Edge::RightSide, n)
            && self.side_within_exec(defended, Ghost(held), Edge::Top, n)
            && self.side_within_exec(defended, Ghost(held), Edge::Bottom, n)
    }

    /// The defenders left: those a side starts with, less those captured.
    pub open spec fn defenders_left(self) -> int {
        defenders_at_start(self.n()) - self.defenders_captured
    }

    /// The attackers left: those a side starts with, less those captured.
    pub open spec fn attackers_left(self) -> int {
        attackers_at_start(self.n()) - self.attackers_captured
    }

    /// The king cannot escape: it is trapped, or every corner is closed off and, with few
    /// defenders left against many attackers, or with the open squares on each edge few and in
    /// one run, no way out remains.
    pub open spec fn spec_can_not_escape(self) -> bool {
        let dl = self.defenders_left();
        let al = self.attackers_left();
        ||| self.spec_king_trapped(dl, al)
        ||| self.all_closed_off() && ((dl < 4 && al >= 13) || (dl < 6 && self.sides_within(
            self.held_set(),
            3,
        )) || self.sides_within(self.held_set(), 2))
    }

    /// Whether the king can no longer escape.
    pub fn can_not_esacpe(&self) -> (r: bool)
        requires
            self.wf(),
            self.defenders_captured <= defenders_at_start(self.n()),
            self.attackers_captured <= attackers_at_start(self.n()),
            self.king matches Some(k) ==> !k.spec_on_exit_square(),
        ensures
            r == self.spec_can_not_escape(),
    {
        let defenders_left = if self.spaces.len() == 121 {
            12 - self.defenders_captured
        } else {
            16 - self.defenders_captured
        };
        let attackers_left = if self.spaces.len() == 121 {
            24 - self.attackers_captured
        } else {
            32 - self.attackers_captured
        };
        if self.king_trapped(defenders_left, attackers_left) {
            return true;
        }
        match self.closed_off_mask() {
            Some(defended_spaces) => {
                let ghost held = self.held_set();
                (defenders_left < 4 && attackers_left >= 13) || (defenders_left < 6
                    && self.n_or_less_side_spaces(&defended_spaces, Ghost(held), 3))
                    || self.n_or_less_side_spaces(&defended_spaces, Ghost(held), 2)
            },
            None => false,
        }
    }
}

} // verus!
