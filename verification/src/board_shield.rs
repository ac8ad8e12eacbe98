use vstd::prelude::*;

use crate::board::{area, cell, Board, BoardSize};
use crate::play::Vertex;
use crate::role::Role;
use crate::space::Space;

verus! {

/// The four edges of the board.
#[derive(Clone, Copy, Debug, PartialEq, Eq, Structural)]
pub enum Edge {
    Bottom,
    Top,
    LeftSide,
    RightSide,
}

/// The `t`-th square along an edge (counted from the top or the left).
pub open spec fn edge_vertex(size: BoardSize, e: Edge, t: int) -> Vertex {
    let n = size.n() as int;
    match e {
        Edge::Bottom => Vertex { size, x: t as usize, y: (n - 1) as usize },
        Edge::Top => Vertex { size, x: t as usize, y: 0 },
        Edge::LeftSide => Vertex { size, x: 0, y: t as usize },
        Edge::RightSide => Vertex { size, x: (n - 1) as usize, y: t as usize },
    }
}

/// The square next to the `t`-th square of an edge, one row or column inside the board.
pub open spec fn inner_vertex(size: BoardSize, e: Edge, t: int) -> Vertex {
    let n = size.n() as int;
    match e {
        Edge::Bottom => Vertex { size, x: t as usize, y: (n - 2) as usize },
        Edge::Top => Vertex { size, x: t as usize, y: 1 },
        Edge::LeftSide => Vertex { size, x: 1, y: t as usize },
        Edge::RightSide => Vertex { size, x: (n - 2) as usize, y: t as usize },
    }
}

/// The square at a vertex of a list of squares of a board of the given size.
pub open spec fn sq(s: Seq<Space>, size: BoardSize, v: Vertex) -> Space {
    s[cell(size.n(), v.x as int, v.y as int)]
}

/// The `t`-th square of an edge holds an enemy of `role`, with a piece of `role` beside it
/// inside the board.
pub open spec fn shielded(s: Seq<Space>, size: BoardSize, e: Edge, role: Role, t: int) -> bool {
    &&& sq(s, size, edge_vertex(size, e, t)).spec_role() == role.spec_opposite()
    &&& sq(s, size, inner_vertex(size, e, t)).spec_role() == role
}

/// The length of the run of shielded squares along an edge from the `t`-th on.
pub open spec fn run_len(s: Seq<Space>, size: BoardSize, e: Edge, role: Role, t: int) -> nat
    decreases size.n() - t,
{
    if 0 <= t < size.n() && shielded(s, size, e, role, t) {
        1 + run_len(s, size, e, role, t + 1)
    } else {
        0
    }
}

/// Empties the squares of a run along an edge, from the `t`-th up to `finish`, leaving the
/// king, and records what it empties.
pub open spec fn clear_run(
    s: Seq<Space>,
    caps: Seq<Vertex>,
    size: BoardSize,
    e: Edge,
    t: int,
    finish: int,
) -> (Seq<Space>, Seq<Vertex>)
    decreases finish - t,
{
    if t >= finish {
        (s, caps)
    } else {
        let v = edge_vertex(size, e, t);
        if sq(s, size, v) != Space::King {
            clear_run(
                s.update(cell(size.n(), v.x as int, v.y as int), Space::Empty),
                caps.push(v),
                size,
                e,
                t + 1,
                finish,
            )
        } else {
            clear_run(s, caps, size, e, t + 1, finish)
        }
    }
}

/// The edge is the top one, or its far corner does not hold an enemy with a friend beside it,
/// so no run along it reaches past the board. (A run along the top edge that reaches its far
/// corner is closed by the square the board's list holds next: the first of the second row.)
pub open spec fn no_corner_run(s: Seq<Space>, size: BoardSize, e: Edge, role: Role) -> bool {
    e == Edge::Top || !shielded(s, size, e, role, size.n() - 1)
}

/// The shield-wall rule along one edge, scanning from the `x1`-th square on: a line of two or
/// more enemies on the edge, each with a piece of `role` in front of it, closed at both ends by
/// pieces of `role` or restricted squares, is captured (the king excepted) when the move was to
/// one of the two closing squares.
pub open spec fn shield_scan(
    s: Seq<Space>,
    caps: Seq<Vertex>,
    size: BoardSize,
    e: Edge,
    role: Role,
    to: Vertex,
    x1: int,
) -> (Seq<Space>, Seq<Vertex>)
    decreases size.n() - x1,
{
    if x1 < 0 || x1 >= size.n() {
        (s, caps)
    } else {
        let v1 = edge_vertex(size, e, x1);
        if !(sq(s, size, v1).spec_role() == role || v1.spec_on_restricted_square()) {
            shield_scan(s, caps, size, e, role, to, x1 + 1)
        } else if x1 == size.n() - 1 {
            (s, caps)
        } else {
            let start = x1 + 1;
            let count = run_len(s, size, e, role, start);
            let finish = start + count;
            let vf = edge_vertex(size, e, finish);
            if count > 1 && (sq(s, size, vf).spec_role() == role || vf.spec_on_restricted_square())
                && (to == edge_vertex(size, e, start - 1) || to == vf) {
                let (s2, caps2) = clear_run(s, caps, size, e, start, finish);
                shield_scan(s2, caps2, size, e, role, to, x1 + 1)
            } else {
                shield_scan(s, caps, size, e, role, to, x1 + 1)
            }
        }
    }
}

/// `s2` is `s` with some squares emptied.
pub open spec fn emptied_from(s2: Seq<Space>, s: Seq<Space>) -> bool {
    &&& s2.len() == s.len()
    &&& forall|i: int| 0 <= i < s.len() ==> #[trigger] s2[i] == s[i] || s2[i] == Space::Empty
}

/// The shield-wall rule along all four edges, bottom, top, left, right in turn.
pub open spec fn shield_wall(
    s: Seq<Space>,
    caps: Seq<Vertex>,
    size: BoardSize,
    role: Role,
    to: Vertex,
) -> (Seq<Space>, Seq<Vertex>) {
    let (s1, c1) = shield_scan(s, caps, size, Edge::Bottom, role, to, 0);
    let (s2, c2) = shield_scan(s1, c1, size, Edge::Top, role, to, 0);
    let (s3, c3) = shield_scan(s2, c2, size, Edge::LeftSide, role, to, 0);
    shield_scan(s3, c3, size, Edge::RightSide, role, to, 0)
}

/// No edge but the top one has a run reaching its far corner.
pub open spec fn no_corner_runs(s: Seq<Space>, size: BoardSize, role: Role) -> bool {
    &&& no_corner_run(s, size, Edge::Bottom, role)
    &&& no_corner_run(s, size, Edge::LeftSide, role)
    &&& no_corner_run(s, size, Edge::RightSide, role)
}

/// The shield-wall scan along an edge, from the `x1`-th square on, never looks past the board:
/// every run it measures after a closing square stops before the far corner, but on the top
/// edge, where the square after the corner is the first of the second row.
pub open spec fn scan_stays(
    s: Seq<Space>,
    caps: Seq<Vertex>,
    size: BoardSize,
    e: Edge,
    role: Role,
    to: Vertex,
    x1: int,
) -> bool
    decreases size.n() - x1,
{
    if x1 < 0 || x1 >= size.n() {
        true
    } else {
        let v1 = edge_vertex(size, e, x1);
        if !(sq(s, size, v1).spec_role() == role || v1.spec_on_restricted_square()) {
            scan_stays(s, caps, size, e, role, to, x1 + 1)
        } else if x1 == size.n() - 1 {
            true
        } else {
            let start = x1 + 1;
            let count = run_len(s, size, e, role, start);
            let finish = start + count;
            let vf = edge_vertex(size, e, finish);
            &&& (e == Edge::Top || finish < size.n())
            &&& if count > 1 && (sq(s, size, vf).spec_role() == role
                || vf.spec_on_restricted_square()) && (to == edge_vertex(size, e, start - 1) || to
                == vf) {
                let (s2, caps2) = clear_run(s, caps, size, e, start, finish);
                scan_stays(s2, caps2, size, e, role, to, x1 + 1)
            } else {
                scan_stays(s, caps, size, e, role, to, x1 + 1)
            }
        }
    }
}

/// The shield-wall rule along the four edges never looks past the board (the top edge
/// never does).
pub open spec fn wall_stays(
    s: Seq<Space>,
    caps: Seq<Vertex>,
    size: BoardSize,
    role: Role,
    to: Vertex,
) -> bool {
    let (s1, c1) = shield_scan(s, caps, size, Edge::Bottom, role, to, 0);
    let (s2, c2) = shield_scan(s1, c1, size, Edge::Top, role, to, 0);
    let (s3, c3) = shield_scan(s2, c2, size, Edge::LeftSide, role, to, 0);
    &&& scan_stays(s, caps, size, Edge::Bottom, role, to, 0)
    &&& scan_stays(s2, c2, size, Edge::LeftSide, role, to, 0)
    &&& scan_stays(s3, c3, size, Edge::RightSide, role, to, 0)
}

/// The scan along the top edge never looks past the board.
pub proof fn lemma_top_stays(
    s: Seq<Space>,
    caps: Seq<Vertex>,
    size: BoardSize,
    role: Role,
    to: Vertex,
    x1: int,
)
    ensures
        scan_stays(s, caps, size, Edge::Top, role, to, x1),
    decreases size.n() - x1,
{
    if 0 <= x1 < size.n() {
        let e = Edge::Top;
        let v1 = edge_vertex(size, e, x1);
        if !(sq(s, size, v1).spec_role() == role || v1.spec_on_restricted_square()) {
            lemma_top_stays(s, caps, size, role, to, x1 + 1);
        } else if x1 != size.n() - 1 {
            let start = x1 + 1;
            let finish = start + run_len(s, size, e, role, start);
            let (s2, caps2) = clear_run(s, caps, size, e, start, finish);
            lemma_top_stays(s2, caps2, size, role, to, x1 + 1);
            lemma_top_stays(s, caps, size, role, to, x1 + 1);
        }
    }
}

pub proof fn lemma_emptied_trans(s3: Seq<Space>, s2: Seq<Space>, s: Seq<Space>)
    requires
        emptied_from(s3, s2),
        emptied_from(s2, s),
    ensures
        emptied_from(s3, s),
{
    assert forall|i: int| 0 <= i < s.len() implies #[trigger] s3[i] == s[i] || s3[i]
        == Space::Empty by {
        assert(s3[i] == s2[i] || s3[i] == Space::Empty);
        assert(s2[i] == s[i] || s2[i] == Space::Empty);
    }
}

/// Emptying squares cannot make a corner run where there was none.
pub proof fn lemma_no_corner_run_emptied(
    s2: Seq<Space>,
    s: Seq<Space>,
    size: BoardSize,
    e: Edge,
    role: Role,
)
    requires
        s.len() == area(size.n()),
        size.n() == 11 || size.n() == 13,
        role != Role::Roleless,
        emptied_from(s2, s),
        no_corner_run(s, size, e, role),
    ensures
        no_corner_run(s2, size, e, role),
{
    if e == Edge::Top {
        return;
    }
    let n = size.n() as int;
    let a = edge_vertex(size, e, n - 1);
    let b = inner_vertex(size, e, n - 1);
    let ia = cell(size.n(), a.x as int, a.y as int);
    let ib = cell(size.n(), b.x as int, b.y as int);
    assert(0 <= ia < s.len() && 0 <= ib < s.len());
    assert(s2[ia] == s[ia] || s2[ia] == Space::Empty);
    assert(s2[ib] == s[ib] || s2[ib] == Space::Empty);
}

proof fn lemma_clear_run(
    s: Seq<Space>,
    caps: Seq<Vertex>,
    size: BoardSize,
    e: Edge,
    t: int,
    finish: int,
)
    requires
        s.len() == area(size.n()),
        size.n() == 11 || size.n() == 13,
        0 <= t,
        finish <= size.n(),
    ensures
        emptied_from(clear_run(s, caps, size, e, t, finish).0, s),
    decreases finish - t,
{
    if t < finish {
        let v = edge_vertex(size, e, t);
        let i = cell(size.n(), v.x as int, v.y as int);
        assert(0 <= i < s.len());
        if sq(s, size, v) != Space::King {
            let s1 = s.update(i, Space::Empty);
            lemma_clear_run(s1, caps.push(v), size, e, t + 1, finish);
            lemma_emptied_trans(clear_run(s1, caps.push(v), size, e, t + 1, finish).0, s1, s);
        } else {
            lemma_clear_run(s, caps, size, e, t + 1, finish);
        }
    } else {
        assert(emptied_from(s, s));
    }
}

/// A run along an edge ends at the far corner at the latest, and before it when that corner
/// is no run square.
proof fn lemma_run_short(s: Seq<Space>, size: BoardSize, e: Edge, role: Role, t: int)
    requires
        0 <= t < size.n(),
    ensures
        t + run_len(s, size, e, role, t) <= size.n(),
        !shielded(s, size, e, role, size.n() - 1) ==> t + run_len(s, size, e, role, t) < size.n(),
    decreases size.n() - t,
{
    if shielded(s, size, e, role, t) {
        if t + 1 < size.n() {
            lemma_run_short(s, size, e, role, t + 1);
        } else {
            assert(run_len(s, size, e, role, t + 1) == 0);
        }
    }
}

pub proof fn lemma_shield_scan(
    s: Seq<Space>,
    caps: Seq<Vertex>,
    size: BoardSize,
    e: Edge,
    role: Role,
    to: Vertex,
    x1: int,
)
    requires
        s.len() == area(size.n()),
        size.n() == 11 || size.n() == 13,
        role != Role::Roleless,
    ensures
        emptied_from(shield_scan(s, caps, size, e, role, to, x1).0, s),
    decreases size.n() - x1,
{
    if x1 < 0 || x1 >= size.n() {
        assert(emptied_from(s, s));
    } else {
        let v1 = edge_vertex(size, e, x1);
        if !(sq(s, size, v1).spec_role() == role || v1.spec_on_restricted_square()) {
            lemma_shield_scan(s, caps, size, e, role, to, x1 + 1);
        } else if x1 == size.n() - 1 {
            assert(emptied_from(s, s));
        } else {
            let start = x1 + 1;
            let count = run_len(s, size, e, role, start);
            let finish = start + count;
            let vf = edge_vertex(size, e, finish);
            lemma_run_short(s, size, e, role, start);
            if count > 1 && (sq(s, size, vf).spec_role() == role || vf.spec_on_restricted_square())
                && (to == edge_vertex(size, e, start - 1) || to == vf) {
                let (s2, caps2) = clear_run(s, caps, size, e, start, finish);
                lemma_clear_run(s, caps, size, e, start, finish);
                lemma_shield_scan(s2, caps2, size, e, role, to, x1 + 1);
                lemma_emptied_trans(shield_scan(s2, caps2, size, e, role, to, x1 + 1).0, s2, s);
            } else {
                lemma_shield_scan(s, caps, size, e, role, to, x1 + 1);
            }
        }
    }
}

/// A scan along an edge with no run reaching its far corner never looks past the board.
proof fn lemma_no_corner_run_stays(
    s: Seq<Space>,
    caps: Seq<Vertex>,
    size: BoardSize,
    e: Edge,
    role: Role,
    to: Vertex,
    x1: int,
)
    requires
        s.len() == area(size.n()),
        size.n() == 11 || size.n() == 13,
        role != Role::Roleless,
        no_corner_run(s, size, e, role),
    ensures
        scan_stays(s, caps, size, e, role, to, x1),
    decreases size.n() - x1,
{
    if 0 <= x1 < size.n() {
        let v1 = edge_vertex(size, e, x1);
        if !(sq(s, size, v1).spec_role() == role || v1.spec_on_restricted_square()) {
            lemma_no_corner_run_stays(s, caps, size, e, role, to, x1 + 1);
        } else if x1 != size.n() - 1 {
            let start = x1 + 1;
            let finish = start + run_len(s, size, e, role, start);
            lemma_run_short(s, size, e, role, start);
            let (s2, caps2) = clear_run(s, caps, size, e, start, finish);
            lemma_clear_run(s, caps, size, e, start, finish);
            lemma_no_corner_run_emptied(s2, s, size, e, role);
            lemma_no_corner_run_stays(s2, caps2, size, e, role, to, x1 + 1);
            lemma_no_corner_run_stays(s, caps, size, e, role, to, x1 + 1);
        }
    }
}

/// Where no edge but the top one has a run reaching its far corner, the shield-wall rule
/// never looks past the board.
pub proof fn lemma_no_corner_runs_stay(
    s: Seq<Space>,
    caps: Seq<Vertex>,
    size: BoardSize,
    role: Role,
    to: Vertex,
)
    requires
        s.len() == area(size.n()),
        size.n() == 11 || size.n() == 13,
        role != Role::Roleless,
        no_corner_runs(s, size, role),
    ensures
        wall_stays(s, caps, size, role, to),
{
    lemma_no_corner_run_stays(s, caps, size, Edge::Bottom, role, to, 0);
    let (s1, c1) = shield_scan(s, caps, size, Edge::Bottom, role, to, 0);
    lemma_shield_scan(s, caps, size, Edge::Bottom, role, to, 0);
    let (s2, c2) = shield_scan(s1, c1, size, Edge::Top, role, to, 0);
    lemma_shield_scan(s1, c1, size, Edge::Top, role, to, 0);
    lemma_emptied_trans(s2, s1, s);
    lemma_no_corner_run_emptied(s2, s, size, Edge::LeftSide, role);
    lemma_no_corner_run_stays(s2, c2, size, Edge::LeftSide, role, to, 0);
    let (s3, c3) = shield_scan(s2, c2, size, Edge::LeftSide, role, to, 0);
    lemma_shield_scan(s2, c2, size, Edge::LeftSide, role, to, 0);
    lemma_emptied_trans(s3, s2, s);
    lemma_no_corner_run_emptied(s3, s, size, Edge::RightSide, role);
    lemma_no_corner_run_stays(s3, c3, size, Edge::RightSide, role, to, 0);
}

fn edge_vertex_exec(size: BoardSize, e: Edge, t: usize) -> (v: Vertex)
    requires
        t <= size.n(),
    ensures
        v == edge_vertex(size, e, t as int),
{
    let n = size.to_usize();
    match e {
        Edge::Bottom => Vertex { size, x: t, y: n - 1 },
        Edge::Top => Vertex { size, x: t, y: 0 },
        Edge::LeftSide => Vertex { size, x: 0, y: t },
        Edge::RightSide => Vertex { size, x: n - 1, y: t },
    }
}

fn inner_vertex_exec(size: BoardSize, e: Edge, t: usize) -> (v: Vertex)
    requires
        t <= size.n(),
    ensures
        v == inner_vertex(size, e, t as int),
{
    let n = size.to_usize();
    match e {
        Edge::Bottom => Vertex { size, x: t, y: n - 2 },
        Edge::Top => Vertex { size, x: t, y: 1 },
        Edge::LeftSide => Vertex { size, x: 1, y: t },
        Edge::RightSide => Vertex { size, x: n - 2, y: t },
    }
}

impl Board {
    /// Whether the `t`-th square of an edge is shielded.
    fn shielded_exec(&self, e: Edge, role: Role, t: usize) -> (r: bool)
        requires
            self.wf(),
            t < self.n(),
        ensures
            r == shielded(self.spaces@, self.spec_size(), e, role, t as int),
    {
        let size = self.size();
        let v2 = edge_vertex_exec(size, e, t);
        let v3 = inner_vertex_exec(size, e, t);
        self.get(&v2).role() == role.opposite() && self.get(&v3).role() == role
    }

    /// Empties the run from the `start`-th square of an edge up to `finish`, leaving the king.
    fn clear_run_exec(
        &mut self,
        e: Edge,
        start: usize,
        finish: usize,
        captures: &mut Vec<Vertex>,
    )
        requires
            old(self).wf(),
            start <= finish <= old(self).n(),
        ensures
            final(self).wf(),
            final(self).spec_size() == old(self).spec_size(),
            final(self).king == old(self).king,
            final(self).attackers_captured == old(self).attackers_captured,
            final(self).defenders_captured == old(self).defenders_captured,
            final(self).display_ascii == old(self).display_ascii,
            (final(self).spaces@, final(captures)@) == clear_run(
                old(self).spaces@,
                old(captures)@,
                old(self).spec_size(),
                e,
                start as int,
                finish as int,
            ),
    {
        let size = self.size();
        let mut t = start;
        while t < finish
            invariant
                self.wf(),
                self.spec_size() == size,
                self.king == old(self).king,
                self.attackers_captured == old(self).attackers_captured,
                self.defenders_captured == old(self).defenders_captured,
                self.display_ascii == old(self).display_ascii,
                start <= t <= finish,
                finish <= size.n(),
                clear_run(self.spaces@, captures@, size, e, t as int, finish as int) == clear_run(
                    old(self).spaces@,
                    old(captures)@,
                    size,
                    e,
                    start as int,
                    finish as int,
                ),
            decreases finish - t,
        {
            let vertex = edge_vertex_exec(size, e, t);
            if self.set_if_not_king(&vertex, Space::Empty) {
                captures.push(vertex);
            }
            t = t + 1;
        }
    }

    /// The shield-wall rule along one edge.
    #[verifier::spinoff_prover]
    fn shield_wall_edge(
        &mut self,
        role_from: Role,
        vertex_to: &Vertex,
        captures: &mut Vec<Vertex>,
        e: Edge,
    )
        requires
            old(self).wf(),
            role_from != Role::Roleless,
            scan_stays(
                old(self).spaces@,
                old(captures)@,
                old(self).spec_size(),
                e,
                role_from,
                *vertex_to,
                0,
            ),
        ensures
            final(self).wf(),
            final(self).spec_size() == old(self).spec_size(),
            final(self).king == old(self).king,
            final(self).attackers_captured == old(self).attackers_captured,
            final(self).defenders_captured == old(self).defenders_captured,
            final(self).display_ascii == old(self).display_ascii,
            (final(self).spaces@, final(captures)@) == shield_scan(
                old(self).spaces@,
                old(captures)@,
                old(self).spec_size(),
                e,
                role_from,
                *vertex_to,
                0,
            ),
    {
        let size = self.size();
        let n = size.to_usize();
        let mut x_1: usize = 0;
        while x_1 < n
            invariant
                self.wf(),
                self.spec_size() == size,
                size == old(self).spec_size(),
                n == size.n(),
                self.king == old(self).king,
                self.attackers_captured == old(self).attackers_captured,
                self.defenders_captured == old(self).defenders_captured,
                self.display_ascii == old(self).display_ascii,
                role_from != Role::Roleless,
                x_1 <= n,
                scan_stays(self.spaces@, captures@, size, e, role_from, *vertex_to, x_1 as int),
                shield_scan(self.spaces@, captures@, size, e, role_from, *vertex_to, x_1 as int)
                    == shield_scan(
                    old(self).spaces@,
                    old(captures)@,
                    size,
                    e,
                    role_from,
                    *vertex_to,
                    0,
                ),
            decreases n - x_1,
        {
            let vertex_1 = edge_vertex_exec(size, e, x_1);
            if self.get(&vertex_1).role() == role_from || vertex_1.on_restricted_square() {
                if x_1 == n - 1 {
                    return;
                }
                let start = x_1 + 1;
                let mut t = start;
                while t < n && self.shielded_exec(e, role_from, t)
                    invariant
                        self.wf(),
                        self.spec_size() == size,
                        n == size.n(),
                        start <= t <= n,
                        start < n,
                        run_len(self.spaces@, size, e, role_from, start as int) == (t - start)
                            + run_len(self.spaces@, size, e, role_from, t as int),
                        t > start ==> shielded(self.spaces@, size, e, role_from, t - 1),
                    decreases n - t,
                {
                    t = t + 1;
                }
                let ghost count = run_len(self.spaces@, size, e, role_from, start as int);
                proof {
                    lemma_run_short(self.spaces@, size, e, role_from, start as int);
                }
                let finish = t;
                let vertex = edge_vertex_exec(size, e, finish);
                let role = self.get(&vertex).role();
                if finish - start > 1 && (role == role_from || vertex.on_restricted_square()) && (
                *vertex_to == edge_vertex_exec(size, e, start - 1) || *vertex_to == vertex) {
                    let ghost s_before = self.spaces@;
                    let ghost c_before = captures@;
                    self.clear_run_exec(e, start, finish, captures);
                    proof {
                        lemma_clear_run(s_before, c_before, size, e, start as int, finish as int);
                    }
                }
            }
            x_1 = x_1 + 1;
        }
    }

    /// The shield-wall rule along the four edges, after a move to `vertex_to` by a piece of
    /// `role_from`, on every board where it stays on the board. A run along the top edge that
    /// reaches the far corner is closed by the first square of the second row, the square the
    /// list of squares holds next.
    pub(crate) fn captures_shield_wall(
        &mut self,
        role_from: Role,
        vertex_to: &Vertex,
        captures: &mut Vec<Vertex>,
    )
        requires
            old(self).wf(),
            role_from != Role::Roleless,
            wall_stays(old(self).spaces@, old(captures)@, old(self).spec_size(), role_from, *vertex_to),
        ensures
            final(self).wf(),
            final(self).spec_size() == old(self).spec_size(),
            final(self).king == old(self).king,
            final(self).attackers_captured == old(self).attackers_captured,
            final(self).defenders_captured == old(self).defenders_captured,
            final(self).display_ascii == old(self).display_ascii,
            (final(self).spaces@, final(captures)@) == shield_wall(
                old(self).spaces@,
                old(captures)@,
                old(self).spec_size(),
                role_from,
                *vertex_to,
            ),
            emptied_from(final(self).spaces@, old(self).spaces@),
    {
        let ghost s0 = self.spaces@;
        let ghost size = self.spec_size();
        proof {
            assert(s0.len() == area(size.n()));
        }
        self.shield_wall_edge(role_from, vertex_to, captures, Edge::Bottom);
        let ghost s1 = self.spaces@;
        proof {
            lemma_shield_scan(s0, old(captures)@, size, Edge::Bottom, role_from, *vertex_to, 0);
        }
        let ghost c1 = captures@;
        proof {
            lemma_top_stays(s1, c1, size, role_from, *vertex_to, 0);
        }
        self.shield_wall_edge(role_from, vertex_to, captures, Edge::Top);
        let ghost s2 = self.spaces@;
        proof {
            lemma_shield_scan(s1, c1, size, Edge::Top, role_from, *vertex_to, 0);
            lemma_emptied_trans(s2, s1, s0);
        }
        let ghost c2 = captures@;
        self.shield_wall_edge(role_from, vertex_to, captures, Edge::LeftSide);
        let ghost s3 = self.spaces@;
        proof {
            lemma_shield_scan(s2, c2, size, Edge::LeftSide, role_from, *vertex_to, 0);
            lemma_emptied_trans(s3, s2, s0);
        }
        let ghost c3 = captures@;
        self.shield_wall_edge(role_from, vertex_to, captures, Edge::RightSide);
        proof {
            lemma_shield_scan(s3, c3, size, Edge::RightSide, role_from, *vertex_to, 0);
            lemma_emptied_trans(self.spaces@, s3, s0);
        }
    }
}


/// The vertex lies on a board of the given size.
pub open spec fn within(v: Vertex, size: BoardSize) -> bool {
    v.size == size && v.x < size.n() && v.y < size.n()
}

/// Every vertex of the list lies on a board of the given size.
pub open spec fn all_within(vs: Seq<Vertex>, size: BoardSize) -> bool {
    forall|i: int| 0 <= i < vs.len() ==> within(#[trigger] vs[i], size)
}

/// A run is never longer than what is left of its edge.
proof fn lemma_run_within(s: Seq<Space>, size: BoardSize, e: Edge, role: Role, t: int)
    requires
        0 <= t,
    ensures
        t + run_len(s, size, e, role, t) <= size.n() || run_len(s, size, e, role, t) == 0,
    decreases size.n() - t,
{
    if 0 <= t < size.n() && shielded(s, size, e, role, t) {
        lemma_run_within(s, size, e, role, t + 1);
    }
}

/// Clearing a run along an edge only records squares of the board.
proof fn lemma_clear_run_within(
    s: Seq<Space>,
    caps: Seq<Vertex>,
    size: BoardSize,
    e: Edge,
    t: int,
    finish: int,
)
    requires
        0 <= t,
        finish <= size.n(),
        all_within(caps, size),
    ensures
        all_within(clear_run(s, caps, size, e, t, finish).1, size),
    decreases finish - t,
{
    if t < finish {
        let v = edge_vertex(size, e, t);
        assert(within(v, size));
        if sq(s, size, v) != Space::King {
            let c2 = caps.push(v);
            assert forall|i: int| 0 <= i < c2.len() implies within(#[trigger] c2[i], size) by {
                if i < caps.len() {
                    assert(c2[i] == caps[i]);
                }
            }
            lemma_clear_run_within(
                s.update(cell(size.n(), v.x as int, v.y as int), Space::Empty),
                c2,
                size,
                e,
                t + 1,
                finish,
            );
        } else {
            lemma_clear_run_within(s, caps, size, e, t + 1, finish);
        }
    }
}

/// Scanning an edge for shield walls only records squares of the board.
proof fn lemma_shield_scan_within(
    s: Seq<Space>,
    caps: Seq<Vertex>,
    size: BoardSize,
    e: Edge,
    role: Role,
    to: Vertex,
    x1: int,
)
    requires
        all_within(caps, size),
    ensures
        all_within(shield_scan(s, caps, size, e, role, to, x1).1, size),
    decreases size.n() - x1,
{
    if 0 <= x1 < size.n() {
        let v1 = edge_vertex(size, e, x1);
        if !(sq(s, size, v1).spec_role() == role || v1.spec_on_restricted_square()) {
            lemma_shield_scan_within(s, caps, size, e, role, to, x1 + 1);
        } else if x1 != size.n() - 1 {
            let start = x1 + 1;
            let count = run_len(s, size, e, role, start);
            let finish = start + count;
            let vf = edge_vertex(size, e, finish);
            if count > 1 && (sq(s, size, vf).spec_role() == role || vf.spec_on_restricted_square())
                && (to == edge_vertex(size, e, start - 1) || to == vf) {
                lemma_run_within(s, size, e, role, start);
                lemma_clear_run_within(s, caps, size, e, start, finish);
                let (s2, caps2) = clear_run(s, caps, size, e, start, finish);
                lemma_shield_scan_within(s2, caps2, size, e, role, to, x1 + 1);
            } else {
                lemma_shield_scan_within(s, caps, size, e, role, to, x1 + 1);
            }
        }
    }
}

/// The shield-wall rule only records squares of the board.
pub proof fn lemma_shield_wall_within(
    s: Seq<Space>,
    caps: Seq<Vertex>,
    size: BoardSize,
    role: Role,
    to: Vertex,
)
    requires
        all_within(caps, size),
    ensures
        all_within(shield_wall(s, caps, size, role, to).1, size),
{
    lemma_shield_scan_within(s, caps, size, Edge::Bottom, role, to, 0);
    let (s1, c1) = shield_scan(s, caps, size, Edge::Bottom, role, to, 0);
    lemma_shield_scan_within(s1, c1, size, Edge::Top, role, to, 0);
    let (s2, c2) = shield_scan(s1, c1, size, Edge::Top, role, to, 0);
    lemma_shield_scan_within(s2, c2, size, Edge::LeftSide, role, to, 0);
    let (s3, c3) = shield_scan(s2, c2, size, Edge::LeftSide, role, to, 0);
    lemma_shield_scan_within(s3, c3, size, Edge::RightSide, role, to, 0);
}


/// The vertex lies on the line of the given edge of the board.
pub open spec fn on_edge(v: Vertex, size: BoardSize, e: Edge) -> bool {
    let n = size.n() as int;
    match e {
        Edge::Bottom => v.y == n - 1,
        Edge::Top => v.y == 0,
        Edge::LeftSide => v.x == 0,
        Edge::RightSide => v.x == n - 1,
    }
}

/// The two vertices lie on the line of one edge of the board.
pub open spec fn shares_edge(v: Vertex, w: Vertex, size: BoardSize) -> bool {
    exists|e: Edge| #[trigger] on_edge(v, size, e) && on_edge(w, size, e)
}

/// The square of a vertex among the squares of a board of the given size.
pub open spec fn cell_of(v: Vertex, size: BoardSize) -> int {
    cell(size.n(), v.x as int, v.y as int)
}

/// `w` was taken by a shield wall closed at `to`: it lies on the board and on an edge line
/// with `to`, held an enemy of `role` other than the king in `s0`, and is empty in `s`.
pub open spec fn wall_taken(
    s0: Seq<Space>,
    s: Seq<Space>,
    w: Vertex,
    size: BoardSize,
    role: Role,
    to: Vertex,
) -> bool {
    &&& within(w, size)
    &&& shares_edge(w, to, size)
    &&& sq(s0, size, w) != Space::King
    &&& sq(s0, size, w).spec_role() == role.spec_opposite()
    &&& sq(s, size, w) == Space::Empty
}

/// Some entry of `caps` from position `from` on is the square `k`.
pub open spec fn taken_square(caps: Seq<Vertex>, from: int, size: BoardSize, k: int) -> bool {
    exists|i: int| from <= i < caps.len() && cell_of(#[trigger] caps[i], size) == k
}

/// From the squares `s0` and the captures `c0` to `s` and `caps`, only shield-wall captures
/// were made: `caps` is `c0` with new entries, each new entry distinct and taken by a wall
/// closed at `to`, and every square that changed is empty and one of the new entries.
#[verifier::opaque]
pub open spec fn wall_only(
    s0: Seq<Space>,
    c0: Seq<Vertex>,
    s: Seq<Space>,
    caps: Seq<Vertex>,
    size: BoardSize,
    role: Role,
    to: Vertex,
) -> bool {
    &&& emptied_from(s, s0)
    &&& c0.len() <= caps.len()
    &&& caps.subrange(0, c0.len() as int) == c0
    &&& forall|i: int| c0.len() <= i < caps.len() ==> wall_taken(s0, s, #[trigger] caps[i], size, role, to)
    &&& forall|i: int, j: int|
        c0.len() <= i < j < caps.len() ==> #[trigger] caps[i] != #[trigger] caps[j]
    &&& forall|k: int| 0 <= k < s.len() && #[trigger] s[k] != s0[k] ==> taken_square(caps, c0.len() as int, size, k)
}

/// Clearing a run of a wall closed at `to` keeps to shield-wall captures.
proof fn lemma_clear_run_wall(
    s0: Seq<Space>,
    c0: Seq<Vertex>,
    s: Seq<Space>,
    caps: Seq<Vertex>,
    sr: Seq<Space>,
    size: BoardSize,
    e: Edge,
    role: Role,
    to: Vertex,
    start: int,
    t: int,
    finish: int,
)
    requires
        s0.len() == area(size.n()),
        size.n() == 11 || size.n() == 13,
        role != Role::Roleless,
        wall_only(s0, c0, s, caps, size, role, to),
        on_edge(to, size, e),
        0 <= start <= t <= finish <= size.n(),
        forall|u: int| start <= u < finish ==> #[trigger] shielded(sr, size, e, role, u),
        forall|u: int|
            t <= u < finish ==> #[trigger] sq(s, size, edge_vertex(size, e, u)) == sq(
                sr,
                size,
                edge_vertex(size, e, u),
            ),
    ensures
        wall_only(
            s0,
            c0,
            clear_run(s, caps, size, e, t, finish).0,
            clear_run(s, caps, size, e, t, finish).1,
            size,
            role,
            to,
        ),
    decreases finish - t,
{
    reveal(wall_only);
    if t < finish {
        let v = edge_vertex(size, e, t);
        let cv = cell_of(v, size);
        assert(shielded(sr, size, e, role, t));
        assert(sq(s, size, v) == sq(sr, size, v));
        assert(within(v, size));
        assert(0 <= cv < s.len());
        if sq(s, size, v) != Space::King {
            let s1 = s.update(cv, Space::Empty);
            let caps1 = caps.push(v);
            assert(s[cv] == s0[cv]);
            assert(on_edge(v, size, e) && on_edge(to, size, e));
            assert(wall_taken(s0, s1, v, size, role, to));
            assert(caps1.subrange(0, c0.len() as int) =~= caps.subrange(0, c0.len() as int));
            assert forall|i: int| c0.len() <= i < caps1.len() implies wall_taken(
                s0,
                s1,
                #[trigger] caps1[i],
                size,
                role,
                to,
            ) by {
                if i < caps.len() {
                    assert(caps1[i] == caps[i]);
                    assert(wall_taken(s0, s, caps[i], size, role, to));
                    let ci = cell_of(caps[i], size);
                    assert(0 <= ci < s.len());
                }
            }
            assert forall|i: int, j: int| c0.len() <= i < j < caps1.len() implies #[trigger] caps1[i]
                != #[trigger] caps1[j] by {
                if j == caps.len() {
                    assert(caps1[i] == caps[i]);
                    assert(wall_taken(s0, s, caps[i], size, role, to));
                } else {
                    assert(caps1[i] == caps[i] && caps1[j] == caps[j]);
                }
            }
            assert forall|k: int| 0 <= k < s1.len() && #[trigger] s1[k] != s0[k] implies taken_square(
                caps1,
                c0.len() as int,
                size,
                k,
            ) by {
                if k == cv {
                    assert(caps1[caps.len() as int] == v);
                } else {
                    assert(s1[k] == s[k]);
                    assert(taken_square(caps, c0.len() as int, size, k));
                    let i = choose|i: int| c0.len() <= i < caps.len() && cell_of(#[trigger] caps[i], size) == k;
                    assert(caps1[i] == caps[i]);
                }
            }
            assert(emptied_from(s1, s0)) by {
                assert forall|k: int| 0 <= k < s0.len() implies #[trigger] s1[k] == s0[k] || s1[k]
                    == Space::Empty by {
                    assert(s[k] == s0[k] || s[k] == Space::Empty);
                }
            }
            assert forall|u: int|
                t + 1 <= u < finish implies #[trigger] sq(s1, size, edge_vertex(size, e, u)) == sq(
                sr,
                size,
                edge_vertex(size, e, u),
            ) by {
                assert(sq(s, size, edge_vertex(size, e, u)) == sq(sr, size, edge_vertex(size, e, u)));
                assert(cell_of(edge_vertex(size, e, u), size) != cv);
            }
            lemma_clear_run_wall(s0, c0, s1, caps1, sr, size, e, role, to, start, t + 1, finish);
        } else {
            assert forall|u: int|
                t + 1 <= u < finish implies #[trigger] sq(s, size, edge_vertex(size, e, u)) == sq(
                sr,
                size,
                edge_vertex(size, e, u),
            ) by {}
            lemma_clear_run_wall(s0, c0, s, caps, sr, size, e, role, to, start, t + 1, finish);
        }
    }
}


/// Every square of a run is shielded.
proof fn lemma_run_shielded(s: Seq<Space>, size: BoardSize, e: Edge, role: Role, t: int)
    requires
        0 <= t,
    ensures
        forall|u: int|
            t <= u < t + run_len(s, size, e, role, t) ==> #[trigger] shielded(s, size, e, role, u),
    decreases size.n() - t,
{
    if 0 <= t < size.n() && shielded(s, size, e, role, t) {
        lemma_run_shielded(s, size, e, role, t + 1);
    }
}

/// Scanning an edge keeps to shield-wall captures.
#[verifier::spinoff_prover]
#[verifier::rlimit(60)]
proof fn lemma_shield_scan_wall(
    s0: Seq<Space>,
    c0: Seq<Vertex>,
    s: Seq<Space>,
    caps: Seq<Vertex>,
    size: BoardSize,
    e: Edge,
    role: Role,
    to: Vertex,
    x1: int,
)
    requires
        s0.len() == area(size.n()),
        size.n() == 11 || size.n() == 13,
        role != Role::Roleless,
        s.len() == area(size.n()),
        wall_only(s0, c0, s, caps, size, role, to),
        0 <= x1,
    ensures
        wall_only(
            s0,
            c0,
            shield_scan(s, caps, size, e, role, to, x1).0,
            shield_scan(s, caps, size, e, role, to, x1).1,
            size,
            role,
            to,
        ),
    decreases size.n() - x1,
{
    if x1 < size.n() {
        let v1 = edge_vertex(size, e, x1);
        if !(sq(s, size, v1).spec_role() == role || v1.spec_on_restricted_square()) {
            lemma_shield_scan_wall(s0, c0, s, caps, size, e, role, to, x1 + 1);
        } else if x1 != size.n() - 1 {
            let start = x1 + 1;
            let count = run_len(s, size, e, role, start);
            let finish = start + count;
            let vf = edge_vertex(size, e, finish);
            lemma_run_short(s, size, e, role, start);
            if count > 1 && (sq(s, size, vf).spec_role() == role || vf.spec_on_restricted_square())
                && (to == edge_vertex(size, e, start - 1) || to == vf) {
                assert(on_edge(to, size, e));
                lemma_run_shielded(s, size, e, role, start);
                lemma_clear_run_wall(s0, c0, s, caps, s, size, e, role, to, start, start, finish);
                let (s2, caps2) = clear_run(s, caps, size, e, start, finish);
                lemma_clear_run(s, caps, size, e, start, finish);
                lemma_shield_scan_wall(s0, c0, s2, caps2, size, e, role, to, x1 + 1);
            } else {
                lemma_shield_scan_wall(s0, c0, s, caps, size, e, role, to, x1 + 1);
            }
        }
    }
}

/// The shield-wall rule only captures what a wall takes: the captures keep the ones made
/// before and add distinct squares, each on an edge line with the square moved to, each
/// holding an enemy of the mover other than the king before and empty after; every square
/// that changes is one of the added captures and is emptied.
pub proof fn lemma_shield_wall_only(
    s0: Seq<Space>,
    c0: Seq<Vertex>,
    size: BoardSize,
    role: Role,
    to: Vertex,
)
    requires
        s0.len() == area(size.n()),
        size.n() == 11 || size.n() == 13,
        role != Role::Roleless,
    ensures
        wall_only(
            s0,
            c0,
            shield_wall(s0, c0, size, role, to).0,
            shield_wall(s0, c0, size, role, to).1,
            size,
            role,
            to,
        ),
{
    assert(c0.subrange(0, c0.len() as int) =~= c0);
    assert(emptied_from(s0, s0));
    assert(wall_only(s0, c0, s0, c0, size, role, to)) by {
        reveal(wall_only);
    }
    let (s1, c1) = shield_scan(s0, c0, size, Edge::Bottom, role, to, 0);
    lemma_shield_scan_wall(s0, c0, s0, c0, size, Edge::Bottom, role, to, 0);
    lemma_shield_scan(s0, c0, size, Edge::Bottom, role, to, 0);
    let (s2, c2) = shield_scan(s1, c1, size, Edge::Top, role, to, 0);
    lemma_shield_scan_wall(s0, c0, s1, c1, size, Edge::Top, role, to, 0);
    lemma_shield_scan(s1, c1, size, Edge::Top, role, to, 0);
    let (s3, c3) = shield_scan(s2, c2, size, Edge::LeftSide, role, to, 0);
    lemma_shield_scan_wall(s0, c0, s2, c2, size, Edge::LeftSide, role, to, 0);
    lemma_shield_scan(s2, c2, size, Edge::LeftSide, role, to, 0);
    lemma_shield_scan_wall(s0, c0, s3, c3, size, Edge::RightSide, role, to, 0);
}

} // verus!
