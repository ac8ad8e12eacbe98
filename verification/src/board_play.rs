use vstd::prelude::*;

use crate::board::{cell, lemma_rows_spaces_at, start_rows_11, start_rows_13, start_spaces, Board};
use crate::board_capture::clear_all;
use crate::board_move::InvalidMove;
use crate::board_shield::{
    edge_vertex, inner_vertex, lemma_no_corner_runs_stay, no_corner_runs, shield_wall, shielded,
    wall_stays, Edge,
};
use crate::game::PreviousBoards;
use crate::play::{Plae, Play, Vertex};
use crate::role::Role;
use crate::space::Space;
use crate::status::Status;

verus! {

/// Why a turn cannot be played on a board.
#[derive(Clone, Copy, Debug, PartialEq, Eq, Structural)]
pub enum PlayError {
    /// The game is not ongoing.
    NotOngoing,
    /// The move breaks a rule.
    Invalid(InvalidMove),
}

impl PlayError {
    pub fn message(&self) -> (s: &'static str)
        ensures
            *self == PlayError::NotOngoing ==> s@ == "play: the game has to be ongoing to play"@,
            self matches PlayError::Invalid(e) ==> s@ == e.spec_message(),
    {
        match self {
            PlayError::NotOngoing => "play: the game has to be ongoing to play",
            PlayError::Invalid(e) => e.message(),
        }
    }
}

impl Board {
    /// The four corners are empty.
    pub open spec fn corners_empty(self) -> bool {
        let m = (self.n() - 1) as int;
        &&& self.at_xy(0, 0) == Space::Empty
        &&& self.at_xy(m, 0) == Space::Empty
        &&& self.at_xy(0, m) == Space::Empty
        &&& self.at_xy(m, m) == Space::Empty
    }

    /// The turn `p` is refused, or the shield-wall rule after its move and the custodial
    /// captures it makes never looks past the board.
    pub open spec fn shield_stays(
        self,
        p: Play,
        status: Status,
        turn: Role,
        previous_boards: PreviousBoards,
    ) -> bool {
        let role = self.at(p.from).spec_role();
        self.move_error(p, status, turn, previous_boards) is None ==> forall|b1: Board|
            #[trigger] self.after_move(p, b1) ==> wall_stays(
                clear_all(b1.spaces@, b1.n(), b1.custodial_captures(p.to, role)),
                b1.custodial_captures(p.to, role),
                b1.spec_size(),
                role,
                p.to,
            )
    }

    /// `b1` is this board after the move, before any capture.
    pub open spec fn after_move(self, p: Play, b1: Board) -> bool {
        &&& b1.spaces@ == self.moved_spaces(p.from, p.to)
        &&& b1.king == self.moved_king(p.from, p.to)
        &&& b1.attackers_captured == self.attackers_captured
        &&& b1.defenders_captured == self.defenders_captured
        &&& b1.display_ascii == self.display_ascii
    }

    /// `b3` and `caps` are this board and the pieces taken, after the custodial captures and
    /// the shield walls of a move to `to` by `role`.
    pub open spec fn after_captures(self, to: Vertex, role: Role, b3: Board, caps: Seq<Vertex>) -> bool {
        let first = self.custodial_captures(to, role);
        let walls = shield_wall(
            clear_all(self.spaces@, self.n(), first),
            first,
            self.spec_size(),
            role,
            to,
        );
        &&& b3.spaces@ == walls.0
        &&& caps == walls.1
        &&& b3.king == self.king
        &&& b3.attackers_captured == self.attackers_captured
        &&& b3.defenders_captured == self.defenders_captured
        &&& b3.display_ascii == self.display_ascii
    }

    /// The status after the captures, and the board after the king's capture, if any.
    pub open spec fn outcome(
        self,
        to: Vertex,
        role: Role,
        caps3: Seq<Vertex>,
        board: Board,
        caps: Seq<Vertex>,
        status: Status,
    ) -> bool {
        if to.spec_on_exit_square() {
            board.equals(self) && caps == caps3 && status == Status::DefenderWins
        } else if self.king_surrounded(role, to) {
            let k = self.king.unwrap();
            &&& board.spaces@ == self.spaces@.update(cell(self.n(), k.x as int, k.y as int), Space::Empty)
            &&& board.king is None
            &&& board.attackers_captured == self.attackers_captured
            &&& board.defenders_captured == self.defenders_captured
            &&& board.display_ascii == self.display_ascii
            &&& caps == caps3.push(k)
            &&& status == Status::AttackerWins
        } else {
            &&& board.equals(self)
            &&& caps == caps3
            &&& status == if board.spec_exit_forts() {
                Status::DefenderWins
            } else if board.attackers_enclose() {
                Status::AttackerWins
            } else if board.spec_no_attackers() {
                Status::DefenderWins
            } else {
                Status::Ongoing
            }
        }
    }

    /// What playing a turn on this board gives: an error, or the new board, the pieces
    /// captured, and the status.
    pub open spec fn play_result(
        self,
        play: Plae,
        status: Status,
        turn: Role,
        previous_boards: PreviousBoards,
        r: Result<(Board, Vec<Vertex>, Status), PlayError>,
    ) -> bool {
        if status != Status::Ongoing {
            r == Err::<(Board, Vec<Vertex>, Status), PlayError>(PlayError::NotOngoing)
        } else {
            match play {
                Plae::AttackerResigns => r matches Ok((b, c, s)) && b.equals(self) && c@.len() == 0
                    && s == Status::DefenderWins,
                Plae::DefenderResigns => r matches Ok((b, c, s)) && b.equals(self) && c@.len() == 0
                    && s == Status::AttackerWins,
                Plae::Play(p) => match self.move_error(p, status, turn, previous_boards) {
                    Some(e) => r == Err::<(Board, Vec<Vertex>, Status), PlayError>(
                        PlayError::Invalid(e),
                    ),
                    None => r matches Ok((b, c, s)) && exists|b1: Board, b3: Board, caps3: Seq<Vertex>|
                        #![trigger self.after_move(p, b1), b1.after_captures(p.to, self.at(p.from).spec_role(), b3, caps3)]
                        self.after_move(p, b1) && b1.after_captures(
                            p.to,
                            self.at(p.from).spec_role(),
                            b3,
                            caps3,
                        ) && b3.outcome(p.to, self.at(p.from).spec_role(), caps3, b, c@, s),
                },
            }
        }
    }

    /// Plays a turn: a resignation ends the game; a move, when allowed, is made with its
    /// captures, and the status after it is decided.
    pub fn play_internal(
        &self,
        play: &Plae,
        status: &Status,
        turn: &Role,
        previous_boards: &PreviousBoards,
    ) -> (r: Result<(Board, Vec<Vertex>, Status), PlayError>)
        requires
            self.wf(),
            *status == Status::Ongoing ==> (*play matches Plae::Play(p) ==> self.play_on_board(p)
                && p.to.size == self.spec_size() && self.shield_stays(
                p,
                *status,
                *turn,
                *previous_boards,
            )),
        ensures
            self.play_result(*play, *status, *turn, *previous_boards, r),
            r matches Ok((b, _, _)) ==> b.wf() && b.spaces@.len() == self.spaces@.len(),
    {
        if *status != Status::Ongoing {
            return Err(PlayError::NotOngoing);
        }
        let play = match play {
            Plae::AttackerResigns => return Ok((self.copy(), Vec::new(), Status::DefenderWins)),
            Plae::DefenderResigns => return Ok((self.copy(), Vec::new(), Status::AttackerWins)),
            Plae::Play(play) => play,
        };
        let mut board = match self.legal_move(play, status, turn, previous_boards) {
            Ok(b) => b,
            Err(e) => return Err(PlayError::Invalid(e)),
        };
        let space_from = self.get(&play.from);
        let role_from = space_from.role();
        let ghost b1 = board;
        proof {
            assert(self.after_move(*play, b1));
            assert(b1.wf() && b1.on_board(play.to)) by {
                assert(b1.spaces@.len() == self.spaces@.len());
            }
        }
        let mut captures: Vec<Vertex> = Vec::new();
        board.captures(&play.to, role_from, &mut captures);
        proof {
            assert(captures@ =~= b1.custodial_captures(play.to, role_from));
        }
        board.captures_shield_wall(role_from, &play.to, &mut captures);
        let ghost b3 = board;
        let ghost caps3 = captures@;
        proof {
            assert(b1.after_captures(play.to, role_from, b3, caps3));
        }
        if play.to.on_exit_square() {
            proof {
                assert(b3.outcome(play.to, role_from, caps3, board, captures@, Status::DefenderWins));
                assert(self.after_move(*play, b1) && b1.after_captures(play.to, role_from, b3, caps3));
            }
            return Ok((board, captures, Status::DefenderWins));
        }
        if board.capture_the_king(role_from, &play.to, &mut captures) {
            proof {
                assert(b3.outcome(play.to, role_from, caps3, board, captures@, Status::AttackerWins));
                assert(self.after_move(*play, b1) && b1.after_captures(play.to, role_from, b3, caps3));
            }
            return Ok((board, captures, Status::AttackerWins));
        }
        let st = if board.exit_forts() {
            Status::DefenderWins
        } else if board.flood_fill_attacker_wins() {
            Status::AttackerWins
        } else if board.no_attacker_pieces_left() {
            Status::DefenderWins
        } else {
            Status::Ongoing
        };
        proof {
            assert(b3.outcome(play.to, role_from, caps3, board, captures@, st));
            assert(self.after_move(*play, b1) && b1.after_captures(play.to, role_from, b3, caps3));
        }
        Ok((board, captures, st))
    }

    /// On a board with empty corners, the shield-wall rule after any turn on the board never
    /// looks past it.
    pub proof fn lemma_corners_empty_stays(
        self,
        p: Play,
        status: Status,
        turn: Role,
        previous_boards: PreviousBoards,
    )
        requires
            self.wf(),
            self.play_on_board(p),
            p.to.size == self.spec_size(),
            self.corners_empty(),
        ensures
            self.shield_stays(p, status, turn, previous_boards),
    {
        let role = self.at(p.from).spec_role();
        if self.move_error(p, status, turn, previous_boards) is None {
            assert forall|b1: Board| #[trigger] self.after_move(p, b1) implies wall_stays(
                clear_all(b1.spaces@, b1.n(), b1.custodial_captures(p.to, role)),
                b1.custodial_captures(p.to, role),
                b1.spec_size(),
                role,
                p.to,
            ) by {
                self.lemma_moved_no_corner_runs(p, b1);
                let size = b1.spec_size();
                assert(b1.on_board(p.to));
                b1.lemma_custodial_on_board(p.to, role);
                let cust = b1.custodial_captures(p.to, role);
                lemma_clear_all_emptied(b1, cust);
                let s2 = clear_all(b1.spaces@, b1.n(), cust);
                crate::board_shield::lemma_no_corner_run_emptied(s2, b1.spaces@, size, Edge::Bottom, role);
                crate::board_shield::lemma_no_corner_run_emptied(s2, b1.spaces@, size, Edge::LeftSide, role);
                crate::board_shield::lemma_no_corner_run_emptied(s2, b1.spaces@, size, Edge::RightSide, role);
                lemma_no_corner_runs_stay(s2, cust, size, role, p.to);
            }
        }
    }

    /// After a move by a piece of a side on a board with empty corners, no edge has a run
    /// reaching its far corner.
    proof fn lemma_moved_no_corner_runs(self, p: Play, b1: Board)
        requires
            self.wf(),
            self.play_on_board(p),
            self.corners_empty(),
            self.at(p.from).spec_role() != Role::Roleless,
            p.to.size == self.spec_size(),
            self.after_move(p, b1),
        ensures
            b1.wf(),
            b1.spec_size() == self.spec_size(),
            no_corner_runs(b1.spaces@, b1.spec_size(), self.at(p.from).spec_role()),
    {
        let role = self.at(p.from).spec_role();
        let size = self.spec_size();
        let n = self.n() as int;
        let fi = cell(self.n(), p.from.x as int, p.from.y as int);
        let ti = cell(self.n(), p.to.x as int, p.to.y as int);
        assert(b1.spaces@.len() == self.spaces@.len());
        assert forall|e: Edge| !#[trigger] shielded(b1.spaces@, size, e, role, n - 1) by {
            let c = edge_vertex(size, e, n - 1);
            let ci = cell(self.n(), c.x as int, c.y as int);
            assert(self.spaces@[ci] == Space::Empty);
            if ci == ti {
                assert(b1.spaces@[ci] == self.at(p.from));
            } else if ci == fi {
                assert(b1.spaces@[ci] == Space::Empty);
            } else {
                assert(b1.spaces@[ci] == self.spaces@[ci]);
            }
        }
        assert(!shielded(b1.spaces@, size, Edge::Bottom, role, n - 1));
        assert(!shielded(b1.spaces@, size, Edge::Top, role, n - 1));
        assert(!shielded(b1.spaces@, size, Edge::LeftSide, role, n - 1));
        assert(!shielded(b1.spaces@, size, Edge::RightSide, role, n - 1));
    }
}


impl Board {
    /// What playing a turn on this board with the history `previous_boards` gives: the board
    /// `b2`, the history `pb2` and the result `r`. A refused turn leaves both as they were; a
    /// turn played gives a board, captures and status that `play_result` allows, and the new
    /// board is added to the history.
    pub open spec fn played(
        self,
        play: Plae,
        status: Status,
        turn: Role,
        previous_boards: PreviousBoards,
        b2: Board,
        pb2: PreviousBoards,
        r: Result<(Vec<Vertex>, Status), PlayError>,
    ) -> bool {
        match r {
            Err(e) => self.play_result(
                play,
                status,
                turn,
                previous_boards,
                Err::<(Board, Vec<Vertex>, Status), PlayError>(e),
            ) && b2.equals(self) && pb2.0@ == previous_boards.0@,
            Ok((caps, st)) => exists|b: Board, c: Vec<Vertex>|
                #![trigger self.play_result(play, status, turn, previous_boards, Ok::<(Board, Vec<Vertex>, Status), PlayError>((b, c, st)))]
                self.play_result(
                    play,
                    status,
                    turn,
                    previous_boards,
                    Ok::<(Board, Vec<Vertex>, Status), PlayError>((b, c, st)),
                ) && b2.equals(b) && c@ == caps@ && pb2.0@.len() == previous_boards.0@.len() + 1
                    && pb2.0@.drop_last() == previous_boards.0@ && pb2.0@.last().equals(b),
        }
    }

    /// Plays a turn on the board and records the new position in the history.
    pub fn play(
        &mut self,
        play: &Plae,
        status: &Status,
        turn: &Role,
        previous_boards: &mut PreviousBoards,
    ) -> (r: Result<(Vec<Vertex>, Status), PlayError>)
        requires
            old(self).wf(),
            *status == Status::Ongoing ==> (*play matches Plae::Play(p) ==> old(self).play_on_board(
                p,
            ) && p.to.size == old(self).spec_size() && old(self).shield_stays(
                p,
                *status,
                *turn,
                *old(previous_boards),
            )),
        ensures
            old(self).played(
                *play,
                *status,
                *turn,
                *old(previous_boards),
                *final(self),
                *final(previous_boards),
                r,
            ),
            final(self).wf(),
            final(self).spaces@.len() == old(self).spaces@.len(),
    {
        let ghost prev0 = *previous_boards;
        let result = self.play_internal(play, status, turn, previous_boards);
        assert(prev0 == *old(previous_boards));
        match result {
            Ok((board, captures, new_status)) => {
                let ghost c = captures;
                let copy = board.copy();
                previous_boards.0.push(copy);
                proof {
                    assert(old(self).play_result(
                        *play,
                        *status,
                        *turn,
                        *old(previous_boards),
                        Ok::<(Board, Vec<Vertex>, Status), PlayError>((board, c, new_status)),
                    ));
                }
                *self = board;
                let r = Ok((captures, new_status));
                proof {
                    assert(previous_boards.0@.drop_last() =~= old(previous_boards).0@);
                    assert(old(self).played(
                        *play,
                        *status,
                        *turn,
                        *old(previous_boards),
                        *self,
                        *previous_boards,
                        r,
                    ));
                }
                r
            },
            Err(e) => {
                assert(self.equals(*old(self)));
                Err(e)
            },
        }
    }
}

/// Emptying the squares of board vertices only empties squares.
pub proof fn lemma_clear_all_emptied(b: Board, vs: Seq<Vertex>)
    requires
        b.wf(),
        forall|t: int| 0 <= t < vs.len() ==> b.on_board(#[trigger] vs[t]),
    ensures
        crate::board_shield::emptied_from(clear_all(b.spaces@, b.n(), vs), b.spaces@),
    decreases vs.len(),
{
    if vs.len() == 0 {
        assert(crate::board_shield::emptied_from(b.spaces@, b.spaces@));
    } else {
        let ws = vs.drop_last();
        assert forall|t: int| 0 <= t < ws.len() implies b.on_board(#[trigger] ws[t]) by {
            assert(ws[t] == vs[t]);
        }
        lemma_clear_all_emptied(b, ws);
        let v = vs.last();
        assert(b.on_board(vs[vs.len() - 1]));
        crate::board_flood::lemma_cell_in_range(b, v);
        let s1 = clear_all(b.spaces@, b.n(), ws);
        let s2 = s1.update(cell(b.n(), v.x as int, v.y as int), Space::Empty);
        assert(crate::board_shield::emptied_from(s2, s1));
        crate::board_shield::lemma_emptied_trans(s2, s1, b.spaces@);
    }
}


/// The starting position of either size has empty corners.
pub proof fn lemma_start_corners_empty(b: Board)
    requires
        b.wf(),
        b.spaces@ == start_spaces(b.spec_size()),
    ensures
        b.corners_empty(),
{
    reveal_strlit("...XXXXX...");
    reveal_strlit(".....X.....");
    reveal_strlit("...........");
    reveal_strlit("X....O....X");
    reveal_strlit("X...OOO...X");
    reveal_strlit("XX.OOKOO.XX");
    reveal_strlit("...XXXXXXX...");
    reveal_strlit("......X......");
    reveal_strlit(".............");
    reveal_strlit("X.....O.....X");
    reveal_strlit("X....OOO....X");
    reveal_strlit("XX.OOOKOOO.XX");
    let n = b.n();
    let m = n - 1;
    let rows = if n == 11 {
        start_rows_11()
    } else {
        start_rows_13()
    };
    assert(rows.len() == n);
    assert forall|i: int| 0 <= i < rows.len() implies #[trigger] rows[i].len() == n by {}
    lemma_rows_spaces_at(rows, n, 0, 0);
    lemma_rows_spaces_at(rows, n, 0, m as int);
    lemma_rows_spaces_at(rows, n, m as int, 0);
    lemma_rows_spaces_at(rows, n, m as int, m as int);
}


/// A move, with its captures, changes the two squares of the move and otherwise only takes
/// pieces off: every other square is as it was or empty.
#[verifier::spinoff_prover]
#[verifier::rlimit(60)]
pub proof fn lemma_play_only_takes(
    board: Board,
    p: Play,
    status: Status,
    turn: Role,
    previous_boards: PreviousBoards,
    b: Board,
    caps: Vec<Vertex>,
    st: Status,
)
    requires
        board.wf(),
        board.corners_empty(),
        board.play_on_board(p),
        p.to.size == board.spec_size(),
        board.play_result(
            Plae::Play(p),
            status,
            turn,
            previous_boards,
            Ok::<(Board, Vec<Vertex>, Status), PlayError>((b, caps, st)),
        ),
    ensures
        b.spaces@.len() == board.spaces@.len(),
        forall|i: int|
            0 <= i < board.spaces@.len() && i != cell(board.n(), p.from.x as int, p.from.y as int)
                && i != cell(board.n(), p.to.x as int, p.to.y as int) ==> #[trigger] b.spaces@[i]
                == board.spaces@[i] || b.spaces@[i] == Space::Empty,
        !p.to.spec_on_exit_square() && st == Status::Ongoing ==> b.corners_empty(),
{
    let role = board.at(p.from).spec_role();
    let (b1, b3, caps3) = choose|b1: Board, b3: Board, caps3: Seq<Vertex>|
        #![trigger board.after_move(p, b1), b1.after_captures(p.to, board.at(p.from).spec_role(), b3, caps3)]
        board.after_move(p, b1) && b1.after_captures(p.to, board.at(p.from).spec_role(), b3, caps3)
            && b3.outcome(p.to, board.at(p.from).spec_role(), caps3, b, caps@, st);
    let size = board.spec_size();
    let n = board.n();
    let m = (n - 1) as int;
    board.lemma_moved_no_corner_runs(p, b1);
    b1.lemma_custodial_on_board(p.to, role);
    let first = b1.custodial_captures(p.to, role);
    lemma_clear_all_emptied(b1, first);
    let s0 = clear_all(b1.spaces@, n, first);
    crate::board_shield::lemma_no_corner_run_emptied(s0, b1.spaces@, size, Edge::Bottom, role);
    crate::board_shield::lemma_no_corner_run_emptied(s0, b1.spaces@, size, Edge::Top, role);
    crate::board_shield::lemma_no_corner_run_emptied(s0, b1.spaces@, size, Edge::LeftSide, role);
    crate::board_shield::lemma_no_corner_run_emptied(s0, b1.spaces@, size, Edge::RightSide, role);
    let (s1, c1) = crate::board_shield::shield_scan(s0, first, size, Edge::Bottom, role, p.to, 0);
    crate::board_shield::lemma_shield_scan(s0, first, size, Edge::Bottom, role, p.to, 0);
    crate::board_shield::lemma_no_corner_run_emptied(s1, s0, size, Edge::Top, role);
    crate::board_shield::lemma_no_corner_run_emptied(s1, s0, size, Edge::LeftSide, role);
    crate::board_shield::lemma_no_corner_run_emptied(s1, s0, size, Edge::RightSide, role);
    let (s2, c2) = crate::board_shield::shield_scan(s1, c1, size, Edge::Top, role, p.to, 0);
    crate::board_shield::lemma_shield_scan(s1, c1, size, Edge::Top, role, p.to, 0);
    crate::board_shield::lemma_no_corner_run_emptied(s2, s1, size, Edge::LeftSide, role);
    crate::board_shield::lemma_no_corner_run_emptied(s2, s1, size, Edge::RightSide, role);
    let (s3, c3) = crate::board_shield::shield_scan(s2, c2, size, Edge::LeftSide, role, p.to, 0);
    crate::board_shield::lemma_shield_scan(s2, c2, size, Edge::LeftSide, role, p.to, 0);
    crate::board_shield::lemma_no_corner_run_emptied(s3, s2, size, Edge::RightSide, role);
    let (s4, c4) = crate::board_shield::shield_scan(s3, c3, size, Edge::RightSide, role, p.to, 0);
    crate::board_shield::lemma_shield_scan(s3, c3, size, Edge::RightSide, role, p.to, 0);
    crate::board_shield::lemma_emptied_trans(s2, s1, s0);
    crate::board_shield::lemma_emptied_trans(s3, s2, s0);
    crate::board_shield::lemma_emptied_trans(s4, s3, s0);
    crate::board_shield::lemma_emptied_trans(s4, s0, b1.spaces@);
    assert(b3.spaces@ == s4);
    let fi = cell(n, p.from.x as int, p.from.y as int);
    let ti = cell(n, p.to.x as int, p.to.y as int);
    assert forall|i: int|
        0 <= i < board.spaces@.len() && i != fi && i != ti implies #[trigger] b.spaces@[i]
            == board.spaces@[i] || b.spaces@[i] == Space::Empty by {
        assert(b1.spaces@[i] == board.spaces@[i]);
        assert(b3.spaces@[i] == b1.spaces@[i] || b3.spaces@[i] == Space::Empty);
    }
    if !p.to.spec_on_exit_square() && st == Status::Ongoing {
        assert(b1.corners_empty());
        assert(b3.spaces@[cell(n, 0, 0)] == Space::Empty);
        assert(b3.spaces@[cell(n, m, 0)] == Space::Empty);
        assert(b3.spaces@[cell(n, 0, m)] == Space::Empty);
        assert(b3.spaces@[cell(n, m, m)] == Space::Empty);
    }
}

/// A turn after which the game goes on leaves the corners empty: no piece but the king may
/// stand on one, the king reaching one ends the game, and captures only take pieces off.
pub proof fn lemma_play_keeps_corners(
    board: Board,
    play: Plae,
    status: Status,
    turn: Role,
    previous_boards: PreviousBoards,
    b: Board,
    caps: Vec<Vertex>,
    st: Status,
)
    requires
        board.wf(),
        board.corners_empty(),
        play matches Plae::Play(p) ==> board.play_on_board(p) && p.to.size == board.spec_size(),
        board.play_result(
            play,
            status,
            turn,
            previous_boards,
            Ok::<(Board, Vec<Vertex>, Status), PlayError>((b, caps, st)),
        ),
        st == Status::Ongoing,
    ensures
        b.corners_empty(),
{
    let p = play->Play_0;
    lemma_play_only_takes(board, p, status, turn, previous_boards, b, caps, st);
}


/// The squares a turn captures lie on the board.
pub proof fn lemma_play_captures_within(
    board: Board,
    play: Plae,
    status: Status,
    turn: Role,
    previous_boards: PreviousBoards,
    b: Board,
    caps: Vec<Vertex>,
    st: Status,
)
    requires
        board.wf(),
        status == Status::Ongoing ==> board.corners_empty(),
        status == Status::Ongoing ==> (play matches Plae::Play(p) ==> board.play_on_board(p)
            && p.to.size == board.spec_size()),
        board.play_result(
            play,
            status,
            turn,
            previous_boards,
            Ok::<(Board, Vec<Vertex>, Status), PlayError>((b, caps, st)),
        ),
    ensures
        crate::board_shield::all_within(caps@, board.spec_size()),
{
    if let Plae::Play(p) = play {
        let role = board.at(p.from).spec_role();
        let (b1, b3, caps3) = choose|b1: Board, b3: Board, caps3: Seq<Vertex>|
            #![trigger board.after_move(p, b1), b1.after_captures(p.to, board.at(p.from).spec_role(), b3, caps3)]
            board.after_move(p, b1) && b1.after_captures(p.to, board.at(p.from).spec_role(), b3, caps3)
                && b3.outcome(p.to, board.at(p.from).spec_role(), caps3, b, caps@, st);
        let size = board.spec_size();
        board.lemma_moved_no_corner_runs(p, b1);
        b1.lemma_custodial_on_board(p.to, role);
        let first = b1.custodial_captures(p.to, role);
        assert(crate::board_shield::all_within(first, size));
        crate::board_shield::lemma_shield_wall_within(clear_all(b1.spaces@, b1.n(), first), first, size, role, p.to);
        if !p.to.spec_on_exit_square() && b3.king_surrounded(role, p.to) {
            let k = b3.king.unwrap();
            assert(crate::board_shield::within(k, size));
            assert forall|i: int| 0 <= i < caps@.len() implies crate::board_shield::within(
                #[trigger] caps@[i],
                size,
            ) by {
                if i < caps3.len() {
                    assert(caps@[i] == caps3[i]);
                }
            }
        }
    } else {
        assert(caps@.len() == 0);
    }
}


/// `Board::play` and `play_internal` agree on whether a turn is played and on why it is
/// refused: one succeeds exactly when the other does, a refusal gives the same error and
/// leaves the board and the history as they were, and a turn played adds the new board to
/// the history.
pub proof fn lemma_play_agrees_with_internal(
    board: Board,
    play: Plae,
    status: Status,
    turn: Role,
    previous_boards: PreviousBoards,
    ri: Result<(Board, Vec<Vertex>, Status), PlayError>,
    b2: Board,
    pb2: PreviousBoards,
    r: Result<(Vec<Vertex>, Status), PlayError>,
)
    requires
        board.play_result(play, status, turn, previous_boards, ri),
        board.played(play, status, turn, previous_boards, b2, pb2, r),
    ensures
        ri is Ok <==> r is Ok,
        ri matches Err(e) ==> r == Err::<(Vec<Vertex>, Status), PlayError>(e) && b2.equals(board)
            && pb2.0@ == previous_boards.0@,
        r matches Ok((caps, st)) ==> pb2.0@.len() == previous_boards.0@.len() + 1
            && pb2.0@.drop_last() == previous_boards.0@ && pb2.0@.last().equals(b2),
{
    if let Ok((caps, st)) = r {
        let (b, c) = choose|b: Board, c: Vec<Vertex>|
            #![trigger board.play_result(play, status, turn, previous_boards, Ok::<(Board, Vec<Vertex>, Status), PlayError>((b, c, st)))]
            board.play_result(
                play,
                status,
                turn,
                previous_boards,
                Ok::<(Board, Vec<Vertex>, Status), PlayError>((b, c, st)),
            ) && b2.equals(b) && c@ == caps@ && pb2.0@.len() == previous_boards.0@.len() + 1
                && pb2.0@.drop_last() == previous_boards.0@ && pb2.0@.last().equals(b);
    }
}

} // verus!
