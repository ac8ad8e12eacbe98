use vstd::prelude::*;

use crate::board::{cell, count, lemma_count_update, Board};
use crate::game::PreviousBoards;
use crate::play::{Play, Vertex};
use crate::role::Role;
use crate::space::Space;
use crate::status::Status;

verus! {

/// Why a move is not allowed.
#[derive(Clone, Copy, Debug, PartialEq, Eq, Structural)]
pub enum InvalidMove {
    GameOver,
    Empty,
    Location,
    RepeatMove,
    Restricted,
    Role,
    StraightLine,
    Turn,
}

impl InvalidMove {
    /// The message shown to the player.
    pub open spec fn spec_message(self) -> Seq<char> {
        match self {
            InvalidMove::GameOver => "play: the game is already over"@,
            InvalidMove::Empty => "play: you have to play through empty locations"@,
            InvalidMove::Location => "play: you have to change location"@,
            InvalidMove::RepeatMove => "play: you already reached that position"@,
            InvalidMove::Restricted => "play: only the king may move to a restricted square"@,
            InvalidMove::Role => "play: you didn't select a role"@,
            InvalidMove::StraightLine => "play: you can only play in a straight line"@,
            InvalidMove::Turn => "play: it isn't your turn"@,
        }
    }

    /// The message shown to the player.
    pub fn message(&self) -> (s: &'static str)
        ensures
            s@ == self.spec_message(),
    {
        match self {
            InvalidMove::GameOver => "play: the game is already over",
            InvalidMove::Empty => "play: you have to play through empty locations",
            InvalidMove::Location => "play: you have to change location",
            InvalidMove::RepeatMove => "play: you already reached that position",
            InvalidMove::Restricted => "play: only the king may move to a restricted square",
            InvalidMove::Role => "play: you didn't select a role",
            InvalidMove::StraightLine => "play: you can only play in a straight line",
            InvalidMove::Turn => "play: it isn't your turn",
        }
    }
}

impl Board {
    /// Every square that a piece passes over from `from` to `to`, `to` included, is empty.
    pub open spec fn path_clear(self, from: Vertex, to: Vertex) -> bool {
        if from.x != to.x {
            forall|x: int|
                (if to.x < from.x {
                    to.x <= x < from.x
                } else {
                    from.x < x <= to.x
                }) ==> #[trigger] self.at_xy(x, from.y as int) == Space::Empty
        } else {
            forall|y: int|
                (if to.y < from.y {
                    to.y <= y < from.y
                } else {
                    from.y < y <= to.y
                }) ==> #[trigger] self.at_xy(from.x as int, y) == Space::Empty
        }
    }

    /// The squares after the piece on `from` moves to `to`.
    pub open spec fn moved_spaces(self, from: Vertex, to: Vertex) -> Seq<Space> {
        self.spaces@.update(cell(self.n(), from.x as int, from.y as int), Space::Empty).update(
            cell(self.n(), to.x as int, to.y as int),
            self.at(from),
        )
    }

    /// The king's square after the piece on `from` moves to `to`.
    pub open spec fn moved_king(self, from: Vertex, to: Vertex) -> Option<Vertex> {
        if self.at(from) == Space::King {
            Some(to)
        } else {
            self.king
        }
    }

    /// The first rule that a move breaks, in the order the rules are checked, if any.
    pub open spec fn move_error(
        self,
        play: Play,
        status: Status,
        turn: Role,
        previous_boards: PreviousBoards,
    ) -> Option<InvalidMove> {
        let space_from = self.at(play.from);
        let role_from = space_from.spec_role();
        if status != Status::Ongoing {
            Some(InvalidMove::GameOver)
        } else if role_from == Role::Roleless {
            Some(InvalidMove::Role)
        } else if turn != role_from {
            Some(InvalidMove::Turn)
        } else if play.from.x != play.to.x && play.from.y != play.to.y {
            Some(InvalidMove::StraightLine)
        } else if play.from.x == play.to.x && play.from.y == play.to.y {
            Some(InvalidMove::Location)
        } else if !self.path_clear(play.from, play.to) {
            Some(InvalidMove::Empty)
        } else if space_from != Space::King && play.to.spec_on_restricted_square() {
            Some(InvalidMove::Restricted)
        } else if turn == Role::Defender && previous_boards.spec_contains(
            self.moved_spaces(play.from, play.to),
        ) {
            Some(InvalidMove::RepeatMove)
        } else {
            None
        }
    }

    /// The move's squares lie on the board.
    pub open spec fn play_on_board(self, play: Play) -> bool {
        &&& play.from.x < self.n()
        &&& play.from.y < self.n()
        &&& play.to.x < self.n()
        &&& play.to.y < self.n()
    }

    /// Whether every square from `from` (left out) to `to` (taken in) along a row or a
    /// column is empty.
    #[verifier::loop_isolation(false)]
    fn path_is_clear(&self, from: &Vertex, to: &Vertex) -> (r: bool)
        requires
            self.wf(),
            from.x < self.n(),
            from.y < self.n(),
            to.x < self.n(),
            to.y < self.n(),
            from.x == to.x || from.y == to.y,
        ensures
            r == self.path_clear(*from, *to),
    {
        let n = self.size().to_usize();
        let size = self.size();
        let y = from.y;
        let x = from.x;
        if from.x != to.x {
            if to.x < from.x {
                let mut i = from.x;
                while i > to.x
                    invariant
                        self.wf(),
                        n == self.n(),
                        to.x <= i <= from.x,
                        from.x < n,
                        y < n,
                        forall|x2: int| i <= x2 < from.x ==> #[trigger] self.at_xy(x2, y as int)
                            == Space::Empty,
                    decreases i,
                {
                    i = i - 1;
                    if self.get(&Vertex { size, x: i, y }) != Space::Empty {
                        assert(self.at_xy(i as int, y as int) != Space::Empty);
                        return false;
                    }
                }
            } else {
                let mut i = from.x;
                while i < to.x
                    invariant
                        self.wf(),
                        n == self.n(),
                        from.x <= i <= to.x,
                        to.x < n,
                        y < n,
                        forall|x2: int| from.x < x2 <= i ==> #[trigger] self.at_xy(x2, y as int)
                            == Space::Empty,
                    decreases to.x - i,
                {
                    i = i + 1;
                    if self.get(&Vertex { size, x: i, y }) != Space::Empty {
                        assert(self.at_xy(i as int, y as int) != Space::Empty);
                        return false;
                    }
                }
            }
        } else {
            if to.y < from.y {
                let mut i = from.y;
                while i > to.y
                    invariant
                        self.wf(),
                        n == self.n(),
                        to.y <= i <= from.y,
                        from.y < n,
                        x < n,
                        forall|y2: int| i <= y2 < from.y ==> #[trigger] self.at_xy(x as int, y2)
                            == Space::Empty,
                    decreases i,
                {
                    i = i - 1;
                    if self.get(&Vertex { size, x, y: i }) != Space::Empty {
                        assert(self.at_xy(x as int, i as int) != Space::Empty);
                        return false;
                    }
                }
            } else {
                let mut i = from.y;
                while i < to.y
                    invariant
                        self.wf(),
                        n == self.n(),
                        from.y <= i <= to.y,
                        to.y < n,
                        x < n,
                        forall|y2: int| from.y < y2 <= i ==> #[trigger] self.at_xy(x as int, y2)
                            == Space::Empty,
                    decreases to.y - i,
                {
                    i = i + 1;
                    if self.get(&Vertex { size, x, y: i }) != Space::Empty {
                        assert(self.at_xy(x as int, i as int) != Space::Empty);
                        return false;
                    }
                }
            }
        }
        true
    }

    /// Checks a move and, when it is allowed, gives the board after it (before any capture).
    #[verifier::loop_isolation(false)]
    pub fn legal_move(
        &self,
        play: &Play,
        status: &Status,
        turn: &Role,
        previous_boards: &PreviousBoards,
    ) -> (r: Result<Board, InvalidMove>)
        requires
            self.wf(),
            *status == Status::Ongoing ==> self.play_on_board(*play),
        ensures
            match r {
                Ok(b) => {
                    &&& self.move_error(*play, *status, *turn, *previous_boards) is None
                    &&& b.spaces@ == self.moved_spaces(play.from, play.to)
                    &&& b.king == self.moved_king(play.from, play.to)
                    &&& b.attackers_captured == self.attackers_captured
                    &&& b.defenders_captured == self.defenders_captured
                    &&& b.display_ascii == self.display_ascii
                },
                Err(e) => self.move_error(*play, *status, *turn, *previous_boards) == Some(e),
            },
    {
        if *status != Status::Ongoing {
            return Err(InvalidMove::GameOver);
        }
        let space_from = self.get(&play.from);
        let role_from = space_from.role();
        if role_from == Role::Roleless {
            return Err(InvalidMove::Role);
        } else if *turn != role_from {
            return Err(InvalidMove::Turn);
        }
        if play.from.x != play.to.x && play.from.y != play.to.y {
            return Err(InvalidMove::StraightLine);
        }
        if play.from.x == play.to.x && play.from.y == play.to.y {
            return Err(InvalidMove::Location);
        }
        if !self.path_is_clear(&play.from, &play.to) {
            return Err(InvalidMove::Empty);
        }
        if space_from != Space::King && play.to.on_restricted_square() {
            return Err(InvalidMove::Restricted);
        }
        let mut board = self.copy();
        board.set(&play.from, Space::Empty);
        board.set(&play.to, space_from);
        if space_from == Space::King {
            board.king = Some(play.to);
        }
        if *turn == Role::Defender && previous_boards.contains(&board) {
            return Err(InvalidMove::RepeatMove);
        }
        Ok(board)
    }
}


/// A move that breaks no rule neither adds nor removes pieces: every kind of square, the
/// empty ones included, is as many after it as before.
pub proof fn lemma_move_keeps_pieces(
    b: Board,
    p: Play,
    status: Status,
    turn: Role,
    previous_boards: PreviousBoards,
    kind: Space,
)
    requires
        b.wf(),
        b.play_on_board(p),
        b.move_error(p, status, turn, previous_boards) is None,
    ensures
        count(b.moved_spaces(p.from, p.to), kind) == count(b.spaces@, kind),
{
    let n = b.n();
    let fi = cell(n, p.from.x as int, p.from.y as int);
    let ti = cell(n, p.to.x as int, p.to.y as int);
    let s1 = b.spaces@.update(fi, Space::Empty);
    assert(b.at_xy(p.to.x as int, p.to.y as int) == Space::Empty) by {
        if p.from.x != p.to.x {
            assert(b.at_xy(p.to.x as int, p.from.y as int) == Space::Empty);
        } else {
            assert(b.at_xy(p.from.x as int, p.to.y as int) == Space::Empty);
        }
    }
    assert(fi != ti);
    lemma_count_update(b.spaces@, fi, Space::Empty, kind);
    lemma_count_update(s1, ti, b.at(p.from), kind);
    assert(s1[ti] == Space::Empty);
}

} // verus!
