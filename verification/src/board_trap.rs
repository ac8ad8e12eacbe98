use vstd::prelude::*;

use crate::board::{Board, BoardSize};
use crate::board_shield::Edge;
use crate::play::Vertex;
use crate::space::Space;

verus! {

/// The square `d` rows or columns in from edge `e`, `a` squares along it (counted from the
/// top or the left).
pub open spec fn edge_frame(size: BoardSize, e: Edge, a: int, d: int) -> Vertex {
    let n = size.n() as int;
    match e {
        Edge::Top => Vertex { size, x: a as usize, y: d as usize },
        Edge::Bottom => Vertex { size, x: a as usize, y: (n - 1 - d) as usize },
        Edge::LeftSide => Vertex { size, x: d as usize, y: a as usize },
        Edge::RightSide => Vertex { size, x: (n - 1 - d) as usize, y: a as usize },
    }
}

fn edge_frame_exec(size: BoardSize, e: Edge, a: usize, d: usize) -> (v: Vertex)
    requires
        a < size.n(),
        d < size.n(),
    ensures
        v == edge_frame(size, e, a as int, d as int),
        v.valid(),
{
    let n = size.to_usize();
    match e {
        Edge::Top => Vertex { size, x: a, y: d },
        Edge::Bottom => Vertex { size, x: a, y: n - 1 - d },
        Edge::LeftSide => Vertex { size, x: d, y: a },
        Edge::RightSide => Vertex { size, x: n - 1 - d, y: a },
    }
}

/// What the count of attackers gains when a square next to the king along its edge, two
/// away, is a corner: one for each such corner.
pub open spec fn corner_bonus(n: int, k: int) -> int {
    (if k == 2 {
        1int
    } else {
        0int
    }) + (if k == n - 3 {
        1int
    } else {
        0int
    })
}

impl Board {
    /// The square `d` in from edge `e`, `a` along it, holds an attacker.
    pub open spec fn attacker_at_frame(self, e: Edge, a: int, d: int) -> bool {
        self.at(edge_frame(self.spec_size(), e, a, d)) == Space::Attacker
    }

    /// The two squares in from the `a`-th square of edge `e` hold attackers.
    pub open spec fn inward_pair(self, e: Edge, a: int) -> bool {
        self.attacker_at_frame(e, a, 1) && self.attacker_at_frame(e, a, 2)
    }

    /// The `t`-th square of edge `e` is a corner or holds an attacker.
    pub open spec fn wall_held(self, e: Edge, t: int) -> bool {
        t == 0 || t == self.n() - 1 || self.attacker_at_frame(e, t, 0)
    }

    /// The king, on the `k`-th square of edge `e`, is hemmed in: it is not next to a corner,
    /// the two squares on each side of it along the edge are corners or attackers, and with
    /// the attackers left (a corner counting as one) the lines in front of it are closed.
    pub open spec fn trapped_on_edge(
        self,
        e: Edge,
        k: int,
        defenders_left: int,
        attackers_left: int,
    ) -> bool {
        let n = self.n() as int;
        if k == 1 || k == n - 2 {
            false
        } else if !(self.wall_held(e, k - 2) && self.wall_held(e, k - 1) && self.wall_held(e, k + 1)
            && self.wall_held(e, k + 2)) {
            false
        } else {
            let a = attackers_left + corner_bonus(n, k);
            if a > 5 && !self.inward_pair(e, k) {
                false
            } else {
                defenders_left < 2 || (a > 7 && (self.inward_pair(e, k + 1) || self.inward_pair(
                    e,
                    k - 1,
                )))
            }
        }
    }

    /// The king can no longer escape: it is off the board, or it is trapped on the edge it
    /// stands on.
    pub open spec fn spec_king_trapped(self, defenders_left: int, attackers_left: int) -> bool {
        match self.king {
            None => true,
            Some(k) => {
                let n = self.n() as int;
                if k.x == 0 {
                    self.trapped_on_edge(Edge::LeftSide, k.y as int, defenders_left, attackers_left)
                } else if k.x == n - 1 {
                    self.trapped_on_edge(Edge::RightSide, k.y as int, defenders_left, attackers_left)
                } else if k.y == 0 {
                    self.trapped_on_edge(Edge::Top, k.x as int, defenders_left, attackers_left)
                } else if k.y == n - 1 {
                    self.trapped_on_edge(Edge::Bottom, k.x as int, defenders_left, attackers_left)
                } else {
                    false
                }
            },
        }
    }

    fn attacker_at_frame_exec(&self, e: Edge, a: usize, d: usize) -> (r: bool)
        requires
            self.wf(),
            a < self.n(),
            d < self.n(),
        ensures
            r == self.attacker_at_frame(e, a as int, d as int),
    {
        let v = edge_frame_exec(self.size(), e, a, d);
        self.get(&v) == Space::Attacker
    }

    /// Whether the king, on the `k`-th square of edge `e`, is trapped there.
    fn king_trapped_on_edge(
        &self,
        e: Edge,
        k: usize,
        defenders_left: usize,
        attackers_left: usize,
    ) -> (r: bool)
        requires
            self.wf(),
            1 <= k,
            k + 2 <= self.n(),
            attackers_left < usize::MAX,
        ensures
            r == self.trapped_on_edge(e, k as int, defenders_left as int, attackers_left as int),
    {
        let n = self.size().to_usize();
        if k == 1 || k == n - 2 {
            return false;
        }
        let mut attackers_left = attackers_left;
        if k - 2 == 0 {
            attackers_left = attackers_left + 1;
        } else if !self.attacker_at_frame_exec(e, k - 2, 0) {
            return false;
        }
        if !self.attacker_at_frame_exec(e, k - 1, 0) {
            return false;
        }
        if !self.attacker_at_frame_exec(e, k + 1, 0) {
            return false;
        }
        if k + 2 == n - 1 {
            attackers_left = attackers_left + 1;
        } else if !self.attacker_at_frame_exec(e, k + 2, 0) {
            return false;
        }
        if attackers_left > 5 && !(self.attacker_at_frame_exec(e, k, 1)
            && self.attacker_at_frame_exec(e, k, 2)) {
            return false;
        }
        defenders_left < 2 || attackers_left > 7 && ((self.attacker_at_frame_exec(e, k + 1, 1)
            && self.attacker_at_frame_exec(e, k + 1, 2)) || (self.attacker_at_frame_exec(e, k - 1, 1)
            && self.attacker_at_frame_exec(e, k - 1, 2)))
    }

    /// Whether the king can no longer escape, given how many defenders and attackers are left:
    /// it is off the board, or it stands on an edge hemmed in by attackers.
    pub fn king_trapped(&self, defenders_left: usize, attackers_left: usize) -> (r: bool)
        requires
            self.wf(),
            attackers_left < usize::MAX,
            self.king matches Some(k) ==> !k.spec_on_exit_square(),
        ensures
            r == self.spec_king_trapped(defenders_left as int, attackers_left as int),
    {
        let n = self.size().to_usize();
        match self.king {
            None => true,
            Some(king) => {
                if king.x == 0 {
                    self.king_trapped_on_edge(Edge::LeftSide, king.y, defenders_left, attackers_left)
                } else if king.x == n - 1 {
                    self.king_trapped_on_edge(Edge::RightSide, king.y, defenders_left, attackers_left)
                } else if king.y == 0 {
                    self.king_trapped_on_edge(Edge::Top, king.x, defenders_left, attackers_left)
                } else if king.y == n - 1 {
                    self.king_trapped_on_edge(Edge::Bottom, king.x, defenders_left, attackers_left)
                } else {
                    false
                }
            },
        }
    }
}

} // verus!
