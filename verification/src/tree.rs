use vstd::prelude::*;

use crate::board::{start_spaces, Board, BoardSize};
use crate::game::PreviousBoards;
use crate::play::{Plae, Plays};
use crate::role::Role;

verus! {

/// A position of a game tree: its board, the side to move, its parent and its children, by
/// their places in the tree.
#[derive(Clone, Debug)]
pub struct Node {
    index: usize,
    pub board: Board,
    pub turn: Role,
    parent: Option<usize>,
    children: Vec<usize>,
}

impl Node {
    /// The node's place in its tree.
    pub closed spec fn place(self) -> int {
        self.index as int
    }

    /// The place of the node's parent, none for the root.
    pub closed spec fn up(self) -> Option<usize> {
        self.parent
    }

    /// The places of the node's children, in the order they were added.
    pub closed spec fn below(self) -> Seq<usize> {
        self.children@
    }

    /// The node's position.
    pub closed spec fn position(self) -> Board {
        self.board
    }

    /// The side to move at the node.
    pub closed spec fn side(self) -> Role {
        self.turn
    }

    /// A copy of the node.
    pub fn copy(&self) -> (n: Node)
        ensures
            n.position().equals(self.position()),
            n.side() == self.side(),
            n.place() == self.place(),
            n.up() == self.up(),
            n.below() == self.below(),
    {
        let mut children: Vec<usize> = Vec::new();
        let mut i: usize = 0;
        while i < self.children.len()
            invariant
                i <= self.children@.len(),
                children@ == self.children@.take(i as int),
            decreases self.children@.len() - i,
        {
            children.push(self.children[i]);
            i = i + 1;
            assert(children@ == self.children@.take(i as int));
        }
        assert(self.children@.take(self.children@.len() as int) == self.children@);
        Node {
            index: self.index,
            board: self.board.copy(),
            turn: self.turn,
            parent: self.parent,
            children,
        }
    }
}

/// Following the `c`-th child from node `i` down to a node without children: the node
/// reached and the number of steps; none when some node on the way has children but no
/// `c`-th one.
pub open spec fn walk(nodes: Seq<Node>, i: int, c: int) -> Option<(int, nat)>
    decreases nodes.len() - i,
{
    if !(0 <= i < nodes.len()) {
        None
    } else if nodes[i].below().len() == 0 {
        Some((i, 0))
    } else if !(0 <= c < nodes[i].below().len()) {
        None
    } else {
        let j = nodes[i].below()[c] as int;
        if i < j < nodes.len() {
            match walk(nodes, j, c) {
                Some((e, k)) => Some((e, k + 1)),
                None => None,
            }
        } else {
            None
        }
    }
}

/// The node that following the `c`-th child from node `i` reaches.
pub open spec fn walk_end(nodes: Seq<Node>, i: int, c: int) -> int {
    match walk(nodes, i, c) {
        Some((e, _)) => e,
        None => i,
    }
}

/// The number of steps that following the `c`-th child from node `i` takes.
pub open spec fn walk_steps(nodes: Seq<Node>, i: int, c: int) -> nat {
    match walk(nodes, i, c) {
        Some((_, k)) => k,
        None => 0,
    }
}

/// The places from node `i` up to the root: `i`, its parent, and so on.
pub open spec fn ancestry(nodes: Seq<Node>, i: int) -> Seq<int>
    decreases i,
{
    if !(0 <= i < nodes.len()) {
        seq![]
    } else {
        match nodes[i].up() {
            None => seq![i],
            Some(p) => if 0 <= p < i {
                seq![i] + ancestry(nodes, p as int)
            } else {
                seq![i]
            },
        }
    }
}

/// The positions along a line of places are boards, none larger than any after it.
#[verifier::opaque]
pub open spec fn boards_grow(nodes: Seq<Node>, line: Seq<int>) -> bool {
    &&& forall|k: int| 0 <= k < line.len() ==> (#[trigger] nodes[line[k]]).position().wf()
    &&& forall|i: int, j: int|
        0 <= i < j < line.len() ==> (#[trigger] nodes[line[i]]).position().n() <= (
        #[trigger] nodes[line[j]]).position().n()
}

/// Each move is what `difference` gives between a position along the line and the next.
#[verifier::opaque]
pub open spec fn moves_down(nodes: Seq<Node>, line: Seq<int>, plays: Seq<Option<Plae>>) -> bool {
    &&& plays.len() == line.len() - 1
    &&& forall|j: int|
        0 <= j < plays.len() ==> nodes[line[j]].position().changes_to(
            nodes[line[j + 1]].position(),
            #[trigger] plays[j],
        )
}

/// After its first board, the list holds copies of the positions at the places, in order.
#[verifier::opaque]
pub open spec fn copies_up(nodes: Seq<Node>, up: Seq<int>, boards: Seq<Board>) -> bool {
    &&& boards.len() == up.len() + 1
    &&& forall|k: int| 0 <= k < up.len() ==> (#[trigger] boards[k + 1]).equals(nodes[up[k]].position())
}

/// What `difference` gives from one position to the next.
#[verifier::opaque]
spec fn moved(a: Board, b: Board, p: Option<Plae>) -> bool {
    a.changes_to(b, p)
}

/// A game tree with a position marked as the current one, and a child of it chosen to go
/// forward to.
#[derive(Clone, Debug)]
pub struct Tree {
    node: usize,
    pub next_child: usize,
    arena: Vec<Node>,
}

impl Tree {
    /// The place of the current node.
    pub closed spec fn here_place(self) -> int {
        self.node as int
    }

    /// The nodes, by their places.
    pub closed spec fn nodes(self) -> Seq<Node> {
        self.arena@
    }

    /// The child of the current node chosen to go forward to.
    pub closed spec fn chosen(self) -> usize {
        self.next_child
    }

    /// The current node is in the tree; each node knows its place; the root, at place 0, has
    /// no parent and every other node's parent comes before it; each child comes after its
    /// parent and is in the tree.
    pub closed spec fn wf(self) -> bool {
        &&& self.node < self.arena@.len()
        &&& self.arena@[0].parent is None
        &&& forall|i: int|
            0 <= i < self.arena@.len() ==> (#[trigger] self.arena@[i]).index == i && (i > 0
                ==> (self.arena@[i].parent matches Some(p) && p < i))
        &&& forall|i: int, k: int|
            0 <= i < self.arena@.len() && 0 <= k < self.arena@[i].children@.len() ==> i
                < #[trigger] self.arena@[i].children@[k] < self.arena@.len()
    }

    /// The children of the current node.
    pub open spec fn here_children(self) -> Seq<usize> {
        self.nodes()[self.here_place()].below()
    }

    /// A tree holding only the starting position of a board of this size, attackers to move.
    pub fn new(board_size: BoardSize) -> (t: Tree)
        ensures
            t.wf(),
            t.nodes().len() == 1,
            t.here_place() == 0,
            t.chosen() == 0,
            t.nodes()[0].position().wf(),
            t.nodes()[0].position().spaces@ == start_spaces(board_size),
            t.nodes()[0].side() == Role::Attacker,
            t.nodes()[0].up() is None,
            t.nodes()[0].below().len() == 0,
    {
        let mut arena: Vec<Node> = Vec::new();
        arena.push(
            Node {
                index: 0,
                board: Board::new(board_size),
                turn: Role::Attacker,
                parent: None,
                children: Vec::new(),
            },
        );
        Tree { node: 0, next_child: 0, arena }
    }

    /// Chooses the next child of the current node, going round to the first after the last.
    pub fn next_child(&mut self)
        requires
            old(self).wf(),
            old(self).chosen() < usize::MAX,
        ensures
            final(self).wf(),
            final(self).nodes() == old(self).nodes(),
            final(self).here_place() == old(self).here_place(),
            final(self).chosen() == if old(self).chosen() + 1 >= old(self).here_children().len() {
                0
            } else {
                old(self).chosen() + 1
            },
    {
        self.next_child = self.next_child + 1;
        if self.next_child >= self.arena[self.node].children.len() {
            self.next_child = 0;
        }
    }

    /// Where going back from the current node leads: to its parent, or nowhere else when it
    /// is the root.
    pub open spec fn back_place(self) -> int {
        match self.nodes()[self.here_place()].up() {
            Some(p) => p as int,
            None => self.here_place(),
        }
    }

    /// Goes back to the parent of the current node, if it has one.
    pub fn backward(&mut self)
        requires
            old(self).wf(),
        ensures
            final(self).wf(),
            final(self).nodes() == old(self).nodes(),
            final(self).here_place() == old(self).back_place(),
            final(self).chosen() == 0,
    {
        if let Some(node) = self.arena[self.node].parent {
            self.node = node;
        }
        self.next_child = 0;
    }

    /// Goes back to the root.
    pub fn backward_all(&mut self)
        requires
            old(self).wf(),
        ensures
            final(self).wf(),
            final(self).nodes() == old(self).nodes(),
            final(self).here_place() == 0,
            final(self).chosen() == 0,
    {
        let mut node = self.node;
        while self.arena[node].parent.is_some()
            invariant
                self.wf(),
                node < self.arena@.len(),
            decreases node,
        {
            node = self.arena[node].parent.unwrap();
        }
        self.next_child = 0;
        self.node = node;
    }

    /// Goes forward to the chosen child of the current node, if it has children.
    pub fn forward(&mut self)
        requires
            old(self).wf(),
            old(self).here_children().len() > 0 ==> old(self).chosen() < old(self).here_children().len(),
        ensures
            final(self).wf(),
            final(self).nodes() == old(self).nodes(),
            final(self).here_place() == if old(self).here_children().len() > 0 {
                old(self).here_children()[old(self).chosen() as int] as int
            } else {
                old(self).here_place()
            },
            final(self).chosen() == 0,
    {
        if self.arena[self.node].children.len() > 0 {
            self.node = self.arena[self.node].children[self.next_child];
        }
        self.next_child = 0;
    }

    /// Goes forward by the chosen child at every step, down to a node without children;
    /// returns the number of steps.
    pub fn forward_all(&mut self) -> (count: usize)
        requires
            old(self).wf(),
            walk(old(self).nodes(), old(self).here_place(), old(self).chosen() as int) is Some,
        ensures
            final(self).wf(),
            final(self).nodes() == old(self).nodes(),
            final(self).here_place() == walk_end(
                old(self).nodes(),
                old(self).here_place(),
                old(self).chosen() as int,
            ),
            count == walk_steps(old(self).nodes(), old(self).here_place(), old(self).chosen() as int),
            final(self).chosen() == 0,
    {
        let ghost nodes = self.arena@;
        let ghost c = self.next_child as int;
        let ghost start = self.node as int;
        let mut node = self.node;
        let mut count: usize = 0;
        while self.arena[node].children.len() > 0
            invariant
                self.wf(),
                nodes == self.arena@,
                c == self.next_child,
                node < nodes.len(),
                walk(nodes, node as int, c) is Some,
                walk_end(nodes, start, c) == walk_end(nodes, node as int, c),
                walk_steps(nodes, start, c) == count + walk_steps(nodes, node as int, c),
                count + nodes.len() - node <= nodes.len(),
            decreases nodes.len() - node,
        {
            let next = self.arena[node].children[self.next_child];
            assert(node < next < nodes.len());
            node = next;
            count = count + 1;
        }
        self.next_child = 0;
        self.node = node;
        count
    }

    /// Whether the current node has children.
    pub fn has_children(&self) -> (r: bool)
        requires
            self.wf(),
        ensures
            r == (self.here_children().len() > 0),
    {
        self.arena[self.node].children.len() > 0
    }

    /// What inserting `board` makes of a tree: a new last node, the current one's new last
    /// child, holding a copy of the board with the other side to move, becomes the current
    /// node; no other node changes.
    pub open spec fn inserted(before: Tree, after: Tree, board: Board) -> bool {
        let o = before.nodes()[before.here_place()];
        let h = after.nodes()[before.here_place()];
        let n = after.nodes()[before.nodes().len() as int];
        &&& after.nodes().len() == before.nodes().len() + 1
        &&& after.here_place() == before.nodes().len()
        &&& after.chosen() == before.chosen()
        &&& forall|i: int|
            0 <= i < before.nodes().len() && i != before.here_place() ==> #[trigger] after.nodes()[i]
                == before.nodes()[i]
        &&& h.position() == o.position()
        &&& h.side() == o.side()
        &&& h.up() == o.up()
        &&& h.place() == o.place()
        &&& h.below() == o.below().push(before.nodes().len() as usize)
        &&& n.position().equals(board)
        &&& n.side() == o.side().spec_opposite()
        &&& n.up() == Some(before.here_place() as usize)
        &&& n.place() == before.nodes().len()
        &&& n.below().len() == 0
    }

    /// Adds a position as a new child of the current node, the other side to move, and makes
    /// it the current node.
    pub fn insert(&mut self, board: &Board)
        requires
            old(self).wf(),
        ensures
            final(self).wf(),
            Tree::inserted(*old(self), *final(self), *board),
    {
        let index = self.arena.len();
        let cur = self.node;
        let old_index = self.arena[cur].index;
        let turn = self.arena[cur].turn.opposite();
        self.arena[cur].children.push(index);
        self.node = index;
        self.arena.push(
            Node {
                index,
                board: board.copy(),
                turn,
                parent: Some(old_index),
                children: Vec::new(),
            },
        );
    }

    /// A copy of the current node.
    pub fn here(&self) -> (n: Node)
        requires
            self.wf(),
        ensures
            n.position().equals(self.nodes()[self.here_place()].position()),
            n.side() == self.nodes()[self.here_place()].side(),
            n.place() == self.here_place(),
            n.up() == self.nodes()[self.here_place()].up(),
            n.below() == self.here_children(),
    {
        self.arena[self.node].copy()
    }

    /// A copy of the current position.
    pub fn here_board(&self) -> (b: Board)
        requires
            self.wf(),
        ensures
            b.equals(self.nodes()[self.here_place()].position()),
    {
        self.arena[self.node].board.copy()
    }

    /// The places from the root down to the current node.
    pub open spec fn line(self) -> Seq<int> {
        ancestry(self.nodes(), self.here_place()).reverse()
    }

    /// The moves and the positions of the game up to the current node: the move between each
    /// position on the way down from the root and the next, and the starting position of a
    /// board of the current size followed by the positions from the current node up to the
    /// root.
    pub fn previous_boards(&self) -> (r: (Plays, PreviousBoards))
        requires
            self.wf(),
            boards_grow(self.nodes(), self.line()),
        ensures
            r.0 matches Plays::PlayRecords(plays) && moves_down(self.nodes(), self.line(), plays@),
            copies_up(self.nodes(), ancestry(self.nodes(), self.here_place()), r.1.0@),
            r.1.0@[0].spaces@ == start_spaces(self.nodes()[self.here_place()].position().spec_size()),
    {
        let places = self.places_up();
        proof {
            self.lemma_places_ready(places@);
        }
        let size = self.arena[self.node].board.size();
        let previous = self.boards_up(&places, size);
        let plays = self.plays_down(&places);
        proof {
            self.lemma_plays_on_line(places@, plays@);
            self.lemma_copies_up(places@, previous.0@);
        }
        (Plays::PlayRecords(plays), previous)
    }

    /// The list holds the places from the current node up to the root.
    #[verifier::opaque]
    spec fn up_places(self, places: Seq<usize>) -> bool {
        &&& places.len() == ancestry(self.arena@, self.node as int).len()
        &&& forall|k: int|
            0 <= k < places.len() ==> #[trigger] places[k] as int == ancestry(
                self.arena@,
                self.node as int,
            )[k]
        &&& forall|k: int| 0 <= k < places.len() ==> #[trigger] places[k] < self.arena@.len()
    }

    /// The positions at the places are boards, none larger than any before it.
    #[verifier::opaque]
    spec fn places_ready(self, places: Seq<usize>) -> bool {
        &&& places.len() >= 1
        &&& forall|k: int| 0 <= k < places.len() ==> #[trigger] places[k] < self.arena@.len()
        &&& forall|k: int|
            0 <= k < places.len() ==> (#[trigger] self.arena@[places[k] as int]).board.wf()
        &&& forall|i: int, j: int|
            0 <= i < j < places.len() ==> (#[trigger] self.arena@[places[i] as int]).board.n()
                >= (#[trigger] self.arena@[places[j] as int]).board.n()
    }

    /// Each move is what `difference` gives between the positions at the places, read from
    /// the last place to the first.
    #[verifier::opaque]
    spec fn moves_back(self, places: Seq<usize>, plays: Seq<Option<Plae>>) -> bool {
        &&& plays.len() == places.len() - 1
        &&& forall|j: int|
            0 <= j < plays.len() ==> moved(
                self.arena@[places[places.len() - 1 - j] as int].board,
                self.arena@[places[places.len() - 2 - j] as int].board,
                #[trigger] plays[j],
            )
    }

    /// After its first board, the list holds copies of the positions at the places.
    #[verifier::opaque]
    spec fn copies_back(self, places: Seq<usize>, boards: Seq<Board>) -> bool {
        &&& boards.len() == places.len() + 1
        &&& forall|k: int|
            0 <= k < places.len() ==> (#[trigger] boards[k + 1]).equals(
                self.arena@[places[k] as int].board,
            )
    }

    /// The places from the current node up to the root.
    fn places_up(&self) -> (r: Vec<usize>)
        requires
            self.wf(),
        ensures
            self.up_places(r@),
    {
        proof {
            self.lemma_ancestry_shape(self.node as int);
        }
        let ghost nodes = self.arena@;
        let ghost up = ancestry(nodes, self.node as int);
        let mut places: Vec<usize> = Vec::new();
        let mut node = self.node;
        places.push(node);
        while self.arena[node].parent.is_some()
            invariant
                self.wf(),
                nodes == self.arena@,
                up == ancestry(nodes, self.node as int),
                forall|k: int| 0 <= k < up.len() ==> 0 <= #[trigger] up[k] < nodes.len(),
                node < nodes.len(),
                1 <= places@.len() <= up.len(),
                forall|k: int| 0 <= k < places@.len() ==> #[trigger] places@[k] as int == up[k],
                places@.last() == node,
                ancestry(nodes, node as int) == up.skip(places@.len() - 1),
            decreases node,
        {
            let parent = self.arena[node].parent.unwrap();
            proof {
                let a = ancestry(nodes, node as int);
                assert(nodes[node as int].index == node);
                assert(a == seq![node as int] + ancestry(nodes, parent as int));
                assert(up.skip(places@.len() - 1)[1] == parent as int);
                assert(up.skip(places@.len() as int) == up.skip(places@.len() - 1).drop_first());
            }
            places.push(parent);
            node = parent;
        }
        proof {
            assert(ancestry(nodes, node as int) == seq![node as int]);
            assert(places@.len() == up.len());
            reveal(Tree::up_places);
            assert forall|k: int| 0 <= k < places@.len() implies #[trigger] places@[k] < nodes.len() by {
                assert(places@[k] as int == up[k]);
            }
        }
        places
    }

    /// The starting position of a board of this size, then copies of the positions at the
    /// given places.
    fn boards_up(&self, places: &Vec<usize>, size: BoardSize) -> (r: PreviousBoards)
        requires
            self.places_ready(places@),
        ensures
            self.copies_back(places@, r.0@),
            r.0@[0].spaces@ == start_spaces(size),
    {
        proof {
            reveal(Tree::places_ready);
        }
        let mut previous = PreviousBoards::new(size);
        let mut i: usize = 0;
        while i < places.len()
            invariant
                i <= places@.len(),
                forall|k: int| 0 <= k < places@.len() ==> #[trigger] places@[k] < self.arena@.len(),
                previous.0@.len() == i + 1,
                previous.0@[0].spaces@ == start_spaces(size),
                forall|k: int|
                    0 <= k < i ==> (#[trigger] previous.0@[k + 1]).equals(
                        self.arena@[places@[k] as int].board,
                    ),
            decreases places@.len() - i,
        {
            let b = self.arena[places[i]].board.copy();
            previous.0.push(b);
            i = i + 1;
        }
        proof {
            reveal(Tree::copies_back);
        }
        previous
    }

    /// The moves between the positions at the given places, read from the last place to the
    /// first.
    fn plays_down(&self, places: &Vec<usize>) -> (r: Vec<Option<Plae>>)
        requires
            self.places_ready(places@),
        ensures
            self.moves_back(places@, r@),
    {
        proof {
            reveal(Tree::places_ready);
        }
        let count = places.len();
        let mut plays: Vec<Option<Plae>> = Vec::new();
        let mut k: usize = 0;
        while k + 1 < count
            invariant
                count == places@.len(),
                count >= 1,
                k < count,
                plays@.len() == k,
                forall|i: int| 0 <= i < places@.len() ==> #[trigger] places@[i] < self.arena@.len(),
                forall|i: int|
                    0 <= i < places@.len() ==> (#[trigger] self.arena@[places@[i] as int]).board.wf(),
                forall|i: int, j: int|
                    0 <= i < j < places@.len() ==> (#[trigger] self.arena@[places@[i] as int]).board.n()
                        >= (#[trigger] self.arena@[places@[j] as int]).board.n(),
                forall|j: int|
                    0 <= j < k ==> moved(
                        self.arena@[places@[count - 1 - j] as int].board,
                        self.arena@[places@[count - 2 - j] as int].board,
                        #[trigger] plays@[j],
                    ),
            decreases count - k,
        {
            let a = places[count - 1 - k];
            let b = places[count - 2 - k];
            assert(self.arena@[a as int].board.wf());
            assert(self.arena@[b as int].board.wf());
            assert(self.arena@[places@[count - 1 - k] as int].board.n()
                <= self.arena@[places@[count - 2 - k] as int].board.n());
            let play = self.arena[a].board.difference(&self.arena[b].board);
            assert(moved(self.arena@[a as int].board, self.arena@[b as int].board, play)) by {
                reveal(moved);
            }
            plays.push(play);
            k = k + 1;
        }
        proof {
            reveal(Tree::moves_back);
        }
        plays
    }

    /// The places from the current node up to the root, read backwards, are the line from the
    /// root down to it; what the line's positions satisfy, the places' positions satisfy.
    proof fn lemma_places_ready(self, places: Seq<usize>)
        requires
            self.wf(),
            self.up_places(places),
            boards_grow(self.nodes(), self.line()),
        ensures
            self.places_ready(places),
            places[0] == self.node,
            self.arena@[self.node as int].board.wf(),
    {
        reveal(boards_grow);
        reveal(Tree::up_places);
        reveal(Tree::places_ready);
        let up = ancestry(self.arena@, self.node as int);
        let line = self.line();
        self.lemma_ancestry_shape(self.node as int);
        assert forall|k: int| 0 <= k < places.len() implies (#[trigger] self.arena@[
            places[k] as int
        ]).board.wf() by {
            assert(line[places.len() - 1 - k] == up[k]);
            assert(self.nodes()[line[places.len() - 1 - k]].position().wf());
        }
        assert forall|i: int, j: int| 0 <= i < j < places.len() implies (#[trigger] self.arena@[
            places[i] as int
        ]).board.n() >= (#[trigger] self.arena@[places[j] as int]).board.n() by {
            let a = places.len() - 1 - j;
            let b = places.len() - 1 - i;
            assert(line[a] == up[j]);
            assert(line[b] == up[i]);
            assert(self.nodes()[line[a]].position().n() <= self.nodes()[line[b]].position().n());
        }
        assert(self.arena@[places[0] as int].board.wf());
    }

    /// The moves between the places read backwards are the moves down the line.
    proof fn lemma_plays_on_line(self, places: Seq<usize>, plays: Seq<Option<Plae>>)
        requires
            self.wf(),
            self.up_places(places),
            self.moves_back(places, plays),
        ensures
            moves_down(self.nodes(), self.line(), plays),
    {
        reveal(moves_down);
        reveal(Tree::up_places);
        reveal(Tree::moves_back);
        let up = ancestry(self.arena@, self.node as int);
        let line = self.line();
        assert forall|j: int| 0 <= j < plays.len() implies self.nodes()[line[j]].position().changes_to(
            self.nodes()[line[j + 1]].position(),
            #[trigger] plays[j],
        ) by {
            reveal(moved);
            assert(line[j] == up[places.len() - 1 - j]);
            assert(line[j + 1] == up[places.len() - 2 - j]);
            assert(places[places.len() - 1 - j] as int == up[places.len() - 1 - j]);
            assert(places[places.len() - 2 - j] as int == up[places.len() - 2 - j]);
        }
    }

    /// Copies of the positions at the places from the current node up to the root are copies
    /// of the positions up the tree.
    proof fn lemma_copies_up(self, places: Seq<usize>, boards: Seq<Board>)
        requires
            self.up_places(places),
            self.copies_back(places, boards),
        ensures
            copies_up(self.nodes(), ancestry(self.nodes(), self.here_place()), boards),
    {
        reveal(copies_up);
        reveal(Tree::up_places);
        reveal(Tree::copies_back);
        let up = ancestry(self.arena@, self.node as int);
        assert forall|k: int| 0 <= k < up.len() implies (#[trigger] boards[k + 1]).equals(
            self.nodes()[up[k]].position(),
        ) by {
            assert(places[k] as int == up[k]);
        }
    }

    /// The places from a node up to the root form a chain through parents that ends at the
    /// root, each in the tree.
    proof fn lemma_ancestry_shape(self, i: int)
        requires
            self.wf(),
            0 <= i < self.arena@.len(),
        ensures
            ancestry(self.arena@, i).len() >= 1,
            ancestry(self.arena@, i)[0] == i,
            ancestry(self.arena@, i).last() == 0,
            forall|k: int|
                0 <= k < ancestry(self.arena@, i).len() ==> 0 <= #[trigger] ancestry(self.arena@, i)[k]
                    < self.arena@.len(),
        decreases i,
    {
        let nodes = self.arena@;
        assert(nodes[i].index == i);
        match nodes[i].parent {
            None => {},
            Some(p) => {
                self.lemma_ancestry_shape(p as int);
            },
        }
    }
}

/// Going back after inserting a position returns to the position it was inserted after, and
/// the inserted position has no children yet.
pub proof fn lemma_insert_then_backward(before: Tree, after: Tree, board: Board)
    requires
        before.wf(),
        Tree::inserted(before, after, board),
    ensures
        after.back_place() == before.here_place(),
        after.here_children().len() == 0,
{
}

} // verus!
