use vstd::prelude::*;

use crate::board::{cell, Board};
use crate::board_capture::{clear_all, opt_seq, step, Direction4};
use crate::board_play::PlayError;
use crate::board_shield::{lemma_shield_wall_only, shield_wall, wall_only};
use crate::game::PreviousBoards;
use crate::play::{Plae, Play, Vertex};
use crate::role::Role;
use crate::space::Space;
use crate::status::Status;

verus! {

/// A move that ends the game in a win for the defenders reached a corner, left the king on an
/// edge square of the board with an empty square beside it (an exit fort), or left no attacker
/// on the board.
pub proof fn lemma_defenders_win_on_edge(
    board: Board,
    p: Play,
    status: Status,
    turn: Role,
    previous_boards: PreviousBoards,
    b: Board,
    caps: Vec<Vertex>,
    st: Status,
)
    requires
        board.play_result(
            Plae::Play(p),
            status,
            turn,
            previous_boards,
            Ok::<(Board, Vec<Vertex>, Status), PlayError>((b, caps, st)),
        ),
        st == Status::DefenderWins,
    ensures
        p.to.spec_on_exit_square() || (b.king matches Some(k) && (k.x == 0 || k.y == 0 || k.x + 1
            == k.n() || k.y + 1 == k.n()) && ((k.spec_up() matches Some(u) && b.at(u)
            == Space::Empty) || (k.spec_left() matches Some(u) && b.at(u) == Space::Empty) || (
        k.spec_down() matches Some(u) && b.at(u) == Space::Empty) || (k.spec_right() matches Some(
            u,
        ) && b.at(u) == Space::Empty))) || (forall|i: int|
            0 <= i < b.spaces@.len() ==> #[trigger] b.spaces@[i] != Space::Attacker),
{
    let role = board.at(p.from).spec_role();
    let (b1, b3, caps3) = choose|b1: Board, b3: Board, caps3: Seq<Vertex>|
        #![trigger board.after_move(p, b1), b1.after_captures(p.to, board.at(p.from).spec_role(), b3, caps3)]
        board.after_move(p, b1) && b1.after_captures(p.to, board.at(p.from).spec_role(), b3, caps3)
            && b3.outcome(p.to, board.at(p.from).spec_role(), caps3, b, caps@, st);
    if !p.to.spec_on_exit_square() && !b3.king_surrounded(role, p.to) {
        assert(b.spec_exit_forts() || b.spec_no_attackers());
    }
}

/// Emptying the squares of a list of vertices: a square of none of them keeps its value, the
/// square of one of them is empty, and the length stays.
pub proof fn lemma_clear_all_at(s: Seq<Space>, n: nat, vs: Seq<Vertex>, i: int)
    requires
        0 <= i < s.len(),
        forall|j: int| 0 <= j < vs.len() ==> 0 <= cell(n, (#[trigger] vs[j]).x as int, vs[j].y as int) < s.len(),
    ensures
        clear_all(s, n, vs).len() == s.len(),
        (forall|j: int| 0 <= j < vs.len() ==> cell(n, (#[trigger] vs[j]).x as int, vs[j].y as int) != i)
            ==> clear_all(s, n, vs)[i] == s[i],
        (exists|j: int| 0 <= j < vs.len() && cell(n, (#[trigger] vs[j]).x as int, vs[j].y as int) == i)
            ==> clear_all(s, n, vs)[i] == Space::Empty,
    decreases vs.len(),
{
    if vs.len() > 0 {
        let front = vs.drop_last();
        assert forall|j: int| 0 <= j < front.len() implies 0 <= cell(n, (#[trigger] front[j]).x as int, front[j].y as int) < s.len() by {
            assert(front[j] == vs[j]);
        }
        assert(vs.last() == vs[vs.len() - 1]);
        lemma_clear_all_at(s, n, front, i);
        if forall|j: int| 0 <= j < vs.len() ==> cell(n, (#[trigger] vs[j]).x as int, vs[j].y as int) != i {
            assert forall|j: int| 0 <= j < front.len() implies cell(n, (#[trigger] front[j]).x as int, front[j].y as int) != i by {
                assert(front[j] == vs[j]);
            }
            assert(vs.last() == vs[vs.len() - 1]);
        }
        if exists|j: int| 0 <= j < vs.len() && cell(n, (#[trigger] vs[j]).x as int, vs[j].y as int) == i {
            let j = choose|j: int| 0 <= j < vs.len() && cell(n, (#[trigger] vs[j]).x as int, vs[j].y as int) == i;
            if j < vs.len() - 1 {
                assert(front[j] == vs[j]);
            }
        }
    }
}

/// A vertex of `l` at position `j` is at position `j + a.len()` of `a + l`, and one of `a` keeps
/// its position.
proof fn lemma_in_concat(a: Seq<Vertex>, l: Seq<Vertex>, v: Vertex)
    ensures
        a.contains(v) ==> (a + l).contains(v),
        l.contains(v) ==> (a + l).contains(v),
{
    if a.contains(v) {
        let j = choose|j: int| 0 <= j < a.len() && a[j] == v;
        assert((a + l)[j] == v);
    }
    if l.contains(v) {
        let j = choose|j: int| 0 <= j < l.len() && l[j] == v;
        assert((a + l)[j + a.len()] == v);
    }
}

/// What a move to `to` captures in direction `d` is among its custodial captures.
proof fn lemma_dir_in_custodial(b: Board, to: Vertex, role: Role, d: Direction4, r1: Vertex)
    requires
        b.dir_capture(to, role, d) == Some(r1),
    ensures
        b.custodial_captures(to, role).contains(r1),
{
    let l0 = opt_seq(b.dir_capture(to, role, Direction4::Up));
    let l1 = opt_seq(b.dir_capture(to, role, Direction4::Left));
    let l2 = opt_seq(b.dir_capture(to, role, Direction4::Down));
    let l3 = opt_seq(b.dir_capture(to, role, Direction4::Right));
    assert(opt_seq(b.dir_capture(to, role, d))[0] == r1);
    lemma_in_concat(l0, l1, r1);
    lemma_in_concat(l0 + l1, l2, r1);
    lemma_in_concat(l0 + l1 + l2, l3, r1);
}

/// Every piece a move captures by enclosing it is an enemy of the mover other than the king.
proof fn lemma_custodial_enemies(b: Board, to: Vertex, role: Role)
    ensures
        forall|t: int|
            0 <= t < b.custodial_captures(to, role).len() ==> {
                let v = #[trigger] b.custodial_captures(to, role)[t];
                b.at(v) != Space::King && b.at(v).spec_role() == role.spec_opposite()
            },
{
    let l0 = opt_seq(b.dir_capture(to, role, Direction4::Up));
    let l1 = opt_seq(b.dir_capture(to, role, Direction4::Left));
    let l2 = opt_seq(b.dir_capture(to, role, Direction4::Down));
    let l3 = opt_seq(b.dir_capture(to, role, Direction4::Right));
    let all = l0 + l1 + l2 + l3;
    assert forall|t: int| 0 <= t < all.len() implies b.at(#[trigger] all[t]) != Space::King
        && b.at(all[t]).spec_role() == role.spec_opposite() by {
        if t < l0.len() {
            assert(all[t] == l0[t]);
        } else if t < l0.len() + l1.len() {
            assert(all[t] == l1[t - l0.len()]);
        } else if t < l0.len() + l1.len() + l2.len() {
            assert(all[t] == l2[t - l0.len() - l1.len()]);
        } else {
            assert(all[t] == l3[t - l0.len() - l1.len() - l2.len()]);
        }
    }
}

/// The board after a move, for a square that is neither the one left nor the one reached.
proof fn lemma_moved_elsewhere(board: Board, p: Play, b1: Board, v: Vertex)
    requires
        board.wf(),
        board.play_on_board(p),
        p.to.size == board.spec_size(),
        board.after_move(p, b1),
        board.on_board(v),
        !(v.x == p.from.x && v.y == p.from.y),
        !(v.x == p.to.x && v.y == p.to.y),
    ensures
        b1.spaces@.len() == board.spaces@.len(),
        b1.n() == board.n(),
        b1.at(v) == board.at(v),
{
    let n = board.n();
    assert(cell(n, v.x as int, v.y as int) != cell(n, p.from.x as int, p.from.y as int));
    assert(cell(n, v.x as int, v.y as int) != cell(n, p.to.x as int, p.to.y as int));
}

/// The board after a move is sound.
proof fn lemma_moved_wf(board: Board, p: Play, b1: Board)
    requires
        board.wf(),
        board.play_on_board(p),
        p.to.size == board.spec_size(),
        board.after_move(p, b1),
    ensures
        b1.wf(),
        b1.n() == board.n(),
        b1.spec_size() == board.spec_size(),
        b1.at(p.to) == board.at(p.from),
{
    assert(b1.spaces@.len() == board.spaces@.len());
}

/// A capture among the custodial ones stays a capture: it is among the turn's captures and
/// its square is empty afterwards.
proof fn lemma_custodial_kept(
    b1: Board,
    to: Vertex,
    role: Role,
    b3: Board,
    caps3: Seq<Vertex>,
    b: Board,
    caps: Seq<Vertex>,
    st: Status,
    v: Vertex,
)
    requires
        b1.wf(),
        b1.on_board(to),
        role != Role::Roleless,
        b1.after_captures(to, role, b3, caps3),
        b3.outcome(to, role, caps3, b, caps, st),
        b1.custodial_captures(to, role).contains(v),
    ensures
        caps.contains(v),
        b.at(v) == Space::Empty,
{
    let n = b1.n();
    let size = b1.spec_size();
    let first = b1.custodial_captures(to, role);
    b1.lemma_custodial_on_board(to, role);
    let j = choose|j: int| 0 <= j < first.len() && first[j] == v;
    let cv = cell(n, v.x as int, v.y as int);
    assert(b1.on_board(first[j]));
    lemma_clear_all_at(b1.spaces@, n, first, cv);
    let s0 = clear_all(b1.spaces@, n, first);
    assert(s0[cv] == Space::Empty);
    lemma_shield_wall_only(s0, first, size, role, to);
    let walls = shield_wall(s0, first, size, role, to);
    assert(wall_only(s0, first, walls.0, walls.1, size, role, to));
    reveal(wall_only);
    assert(walls.0[cv] == Space::Empty);
    assert(caps3.subrange(0, first.len() as int)[j] == v);
    assert(caps3[j] == v);
    if to.spec_on_exit_square() {
        assert(caps[j] == v);
    } else if b3.king_surrounded(role, to) {
        assert(caps[j] == v);
    } else {
        assert(caps[j] == v);
    }
}

/// A move captures the enemy piece, other than the king, that it encloses in direction `d`
/// against a piece of the mover's side, or against a corner or the throne that the king is
/// not on (the square beyond not being the one the mover left): that piece is among the
/// captures, and its square is empty afterwards.
pub proof fn lemma_enclosed_piece_captured(
    board: Board,
    p: Play,
    status: Status,
    turn: Role,
    previous_boards: PreviousBoards,
    b: Board,
    caps: Vec<Vertex>,
    st: Status,
    d: Direction4,
    r1: Vertex,
    r2: Vertex,
)
    requires
        board.wf(),
        board.play_on_board(p),
        p.to.size == board.spec_size(),
        board.play_result(
            Plae::Play(p),
            status,
            turn,
            previous_boards,
            Ok::<(Board, Vec<Vertex>, Status), PlayError>((b, caps, st)),
        ),
        step(p.to, d) == Some(r1),
        step(r1, d) == Some(r2),
        board.at(r1) != Space::King,
        board.at(r1).spec_role() == board.at(p.from).spec_role().spec_opposite(),
        !(r2.x == p.from.x && r2.y == p.from.y),
        (r2.spec_on_restricted_square() && board.at(r2) != Space::King) || board.at(r2).spec_role()
            == board.at(p.from).spec_role(),
    ensures
        caps@.contains(r1),
        b.at(r1) == Space::Empty,
{
    let role = board.at(p.from).spec_role();
    let (b1, b3, caps3) = choose|b1: Board, b3: Board, caps3: Seq<Vertex>|
        #![trigger board.after_move(p, b1), b1.after_captures(p.to, board.at(p.from).spec_role(), b3, caps3)]
        board.after_move(p, b1) && b1.after_captures(p.to, board.at(p.from).spec_role(), b3, caps3)
            && b3.outcome(p.to, board.at(p.from).spec_role(), caps3, b, caps@, st);
    let to = p.to;
    assert(board.on_board(to));
    crate::board_flood::lemma_step_on_board(board, to, d);
    crate::board_flood::lemma_step_on_board(board, r1, d);
    lemma_moved_wf(board, p, b1);
    assert(!(r1.x == p.from.x && r1.y == p.from.y)) by {
        if r1.x == p.from.x && r1.y == p.from.y {
            assert(board.at(r1) == board.at(p.from));
        }
    }
    assert(!(r1.x == to.x && r1.y == to.y));
    assert(!(r2.x == to.x && r2.y == to.y));
    lemma_moved_elsewhere(board, p, b1, r1);
    lemma_moved_elsewhere(board, p, b1, r2);
    assert(b1.sandwich(to, role, d));
    lemma_dir_in_custodial(b1, to, role, d, r1);
    lemma_custodial_kept(b1, to, role, b3, caps3, b, caps@, st, r1);
}

/// The captures keep the number of squares.
proof fn lemma_captures_len(b1: Board, to: Vertex, role: Role, b3: Board, caps3: Seq<Vertex>)
    requires
        b1.wf(),
        b1.on_board(to),
        role != Role::Roleless,
        b1.after_captures(to, role, b3, caps3),
    ensures
        b3.spaces@.len() == b1.spaces@.len(),
{
    let n = b1.n();
    let size = b1.spec_size();
    let first = b1.custodial_captures(to, role);
    b1.lemma_custodial_on_board(to, role);
    assert forall|j: int| 0 <= j < first.len() implies 0 <= cell(n, (#[trigger] first[j]).x as int, first[j].y as int) < b1.spaces@.len() by {
        assert(b1.on_board(first[j]));
    }
    lemma_clear_all_at(b1.spaces@, n, first, 0);
    let s0 = clear_all(b1.spaces@, n, first);
    lemma_shield_wall_only(s0, first, size, role, to);
    let walls = shield_wall(s0, first, size, role, to);
    assert(wall_only(s0, first, walls.0, walls.1, size, role, to));
    reveal(wall_only);
}

/// The square `u` beside the king hems it in once the attacker's move `p` is made: the move
/// reaches it, it is the throne, or an attacker stands on it that is not the one moving.
pub open spec fn hems_in(board: Board, p: Play, u: Vertex) -> bool {
    ||| u == p.to
    ||| u.spec_on_throne()
    ||| (board.at(u) == Space::Attacker && !(u.x == p.from.x && u.y == p.from.y))
}

/// A square beside the king that hems it in before the captures still does after them.
proof fn lemma_side_stays_hostile(
    board: Board,
    p: Play,
    b1: Board,
    b3: Board,
    caps3: Seq<Vertex>,
    u: Vertex,
)
    requires
        board.wf(),
        board.play_on_board(p),
        p.to.size == board.spec_size(),
        board.at(p.from) == Space::Attacker,
        board.after_move(p, b1),
        b1.after_captures(p.to, Role::Attacker, b3, caps3),
        board.on_board(u),
        hems_in(board, p, u),
    ensures
        b3.hostile_to_king(u),
{
    if !u.spec_on_throne() {
        let to = p.to;
        let role = Role::Attacker;
        lemma_moved_wf(board, p, b1);
        if u != to {
            assert(!(u.x == to.x && u.y == to.y));
            lemma_moved_elsewhere(board, p, b1, u);
        }
        assert(b1.at(u) == Space::Attacker);
        assert(b1.on_board(to));
        let n = b1.n();
        let size = b1.spec_size();
        let cu = cell(n, u.x as int, u.y as int);
        let first = b1.custodial_captures(to, role);
        b1.lemma_custodial_on_board(to, role);
        lemma_custodial_enemies(b1, to, role);
        assert forall|j: int| 0 <= j < first.len() implies cell(n, (#[trigger] first[j]).x as int, first[j].y as int) != cu by {
            assert(b1.on_board(first[j]));
            assert(b1.at(first[j]).spec_role() == Role::Defender);
        }
        assert forall|j: int| 0 <= j < first.len() implies 0 <= cell(n, (#[trigger] first[j]).x as int, first[j].y as int) < b1.spaces@.len() by {
            assert(b1.on_board(first[j]));
        }
        lemma_clear_all_at(b1.spaces@, n, first, cu);
        let s0 = clear_all(b1.spaces@, n, first);
        assert(s0[cu] == Space::Attacker);
        lemma_shield_wall_only(s0, first, size, role, to);
        let walls = shield_wall(s0, first, size, role, to);
        assert(wall_only(s0, first, walls.0, walls.1, size, role, to));
        reveal(wall_only);
        if walls.0[cu] != s0[cu] {
            let i = choose|i: int| first.len() <= i < walls.1.len() && crate::board_shield::cell_of(
                #[trigger] walls.1[i],
                size,
            ) == cu;
            assert(crate::board_shield::wall_taken(s0, walls.0, walls.1[i], size, role, to));
        }
        assert(b3.at(u) == Space::Attacker);
    }
}

/// An attacker's move to a side of the king takes the king when each of its four sides holds
/// an attacker or is the throne: the game ends in the attackers' win, the king is among the
/// captures, and its square is empty.
pub proof fn lemma_king_surrounded_captured(
    board: Board,
    p: Play,
    status: Status,
    turn: Role,
    previous_boards: PreviousBoards,
    b: Board,
    caps: Vec<Vertex>,
    st: Status,
    k: Vertex,
)
    requires
        board.wf(),
        board.play_on_board(p),
        p.to.size == board.spec_size(),
        board.play_result(
            Plae::Play(p),
            status,
            turn,
            previous_boards,
            Ok::<(Board, Vec<Vertex>, Status), PlayError>((b, caps, st)),
        ),
        board.at(p.from) == Space::Attacker,
        board.king == Some(k),
        k.spec_up() is Some,
        k.spec_left() is Some,
        k.spec_down() is Some,
        k.spec_right() is Some,
        Some(p.to) == k.spec_up() || Some(p.to) == k.spec_left() || Some(p.to) == k.spec_down()
            || Some(p.to) == k.spec_right(),
        hems_in(board, p, k.spec_up().unwrap()),
        hems_in(board, p, k.spec_left().unwrap()),
        hems_in(board, p, k.spec_down().unwrap()),
        hems_in(board, p, k.spec_right().unwrap()),
    ensures
        st == Status::AttackerWins,
        b.king is None,
        caps@.contains(k),
        b.at(k) == Space::Empty,
{
    let role = Role::Attacker;
    let (b1, b3, caps3) = choose|b1: Board, b3: Board, caps3: Seq<Vertex>|
        #![trigger board.after_move(p, b1), b1.after_captures(p.to, board.at(p.from).spec_role(), b3, caps3)]
        board.after_move(p, b1) && b1.after_captures(p.to, board.at(p.from).spec_role(), b3, caps3)
            && b3.outcome(p.to, board.at(p.from).spec_role(), caps3, b, caps@, st);
    assert(board.on_board(k));
    crate::board_flood::lemma_step_on_board(board, k, Direction4::Up);
    crate::board_flood::lemma_step_on_board(board, k, Direction4::Left);
    crate::board_flood::lemma_step_on_board(board, k, Direction4::Down);
    crate::board_flood::lemma_step_on_board(board, k, Direction4::Right);
    lemma_side_stays_hostile(board, p, b1, b3, caps3, k.spec_up().unwrap());
    lemma_side_stays_hostile(board, p, b1, b3, caps3, k.spec_left().unwrap());
    lemma_side_stays_hostile(board, p, b1, b3, caps3, k.spec_down().unwrap());
    lemma_side_stays_hostile(board, p, b1, b3, caps3, k.spec_right().unwrap());
    assert(!p.to.spec_on_exit_square());
    assert(b3.king == Some(k));
    assert(b3.king_surrounded(role, p.to));
    lemma_moved_wf(board, p, b1);
    lemma_captures_len(b1, p.to, role, b3, caps3);
    assert(caps@[caps3.len() as int] == k);
}

/// A square that holds an enemy of the mover after the move held the same piece before it.
proof fn lemma_enemy_before(board: Board, p: Play, b1: Board, v: Vertex)
    requires
        board.wf(),
        board.play_on_board(p),
        p.to.size == board.spec_size(),
        board.at(p.from).spec_role() != Role::Roleless,
        board.after_move(p, b1),
        board.on_board(v),
        b1.at(v).spec_role() == board.at(p.from).spec_role().spec_opposite(),
    ensures
        board.at(v) == b1.at(v),
{
    let n = board.n();
    lemma_moved_wf(board, p, b1);
    let cv = cell(n, v.x as int, v.y as int);
    let cf = cell(n, p.from.x as int, p.from.y as int);
    let ct = cell(n, p.to.x as int, p.to.y as int);
    assert(cv != ct);
    if cv == cf {
        assert(b1.spaces@[cv] == Space::Empty);
    }
}

/// Every piece a move captures was, before the move, an enemy of the mover; it is the king
/// only when the move takes the king and wins the game for the attackers.
pub proof fn lemma_captures_are_enemies(
    board: Board,
    p: Play,
    status: Status,
    turn: Role,
    previous_boards: PreviousBoards,
    b: Board,
    caps: Vec<Vertex>,
    st: Status,
)
    requires
        board.wf(),
        board.king_placed(),
        board.play_on_board(p),
        p.to.size == board.spec_size(),
        board.play_result(
            Plae::Play(p),
            status,
            turn,
            previous_boards,
            Ok::<(Board, Vec<Vertex>, Status), PlayError>((b, caps, st)),
        ),
    ensures
        forall|i: int|
            0 <= i < caps@.len() ==> board.at(#[trigger] caps@[i]).spec_role() == board.at(
                p.from,
            ).spec_role().spec_opposite() && (board.at(caps@[i]) == Space::King ==> st
                == Status::AttackerWins && b.king is None),
{
    let role = board.at(p.from).spec_role();
    let (b1, b3, caps3) = choose|b1: Board, b3: Board, caps3: Seq<Vertex>|
        #![trigger board.after_move(p, b1), b1.after_captures(p.to, board.at(p.from).spec_role(), b3, caps3)]
        board.after_move(p, b1) && b1.after_captures(p.to, board.at(p.from).spec_role(), b3, caps3)
            && b3.outcome(p.to, board.at(p.from).spec_role(), caps3, b, caps@, st);
    let to = p.to;
    lemma_moved_wf(board, p, b1);
    assert(b1.on_board(to));
    let n = b1.n();
    let size = b1.spec_size();
    let first = b1.custodial_captures(to, role);
    b1.lemma_custodial_on_board(to, role);
    lemma_custodial_enemies(b1, to, role);
    assert forall|j: int| 0 <= j < first.len() implies 0 <= cell(n, (#[trigger] first[j]).x as int, first[j].y as int) < b1.spaces@.len() by {
        assert(b1.on_board(first[j]));
    }
    lemma_clear_all_at(b1.spaces@, n, first, 0);
    let s0 = clear_all(b1.spaces@, n, first);
    lemma_shield_wall_only(s0, first, size, role, to);
    let walls = shield_wall(s0, first, size, role, to);
    assert(wall_only(s0, first, walls.0, walls.1, size, role, to));
    reveal(wall_only);
    assert forall|i: int| 0 <= i < caps3.len() implies board.at(#[trigger] caps3[i]).spec_role()
        == role.spec_opposite() && board.at(caps3[i]) != Space::King by {
        let v = caps3[i];
        if i < first.len() {
            assert(caps3.subrange(0, first.len() as int)[i] == v);
            assert(first[i] == v);
            assert(b1.on_board(v));
            lemma_enemy_before(board, p, b1, v);
        } else {
            assert(crate::board_shield::wall_taken(s0, walls.0, v, size, role, to));
            let cv = cell(n, v.x as int, v.y as int);
            lemma_clear_all_at(b1.spaces@, n, first, cv);
            assert(s0[cv] == b1.spaces@[cv]);
            assert(b1.on_board(v));
            lemma_enemy_before(board, p, b1, v);
        }
    }
    if to.spec_on_exit_square() {
        assert forall|i: int| 0 <= i < caps@.len() implies board.at(#[trigger] caps@[i]).spec_role()
            == role.spec_opposite() && board.at(caps@[i]) != Space::King by {
            assert(caps@[i] == caps3[i]);
        }
    } else if b3.king_surrounded(role, to) {
        let k = b3.king.unwrap();
        assert(board.king == Some(k));
        assert(board.at(k) == Space::King);
        assert forall|i: int| 0 <= i < caps@.len() implies board.at(#[trigger] caps@[i]).spec_role()
            == role.spec_opposite() && (board.at(caps@[i]) == Space::King ==> st
            == Status::AttackerWins && b.king is None) by {
            if i < caps3.len() {
                assert(caps@[i] == caps3[i]);
            } else {
                assert(caps@[i] == k);
            }
        }
    } else {
        assert forall|i: int| 0 <= i < caps@.len() implies board.at(#[trigger] caps@[i]).spec_role()
            == role.spec_opposite() && board.at(caps@[i]) != Space::King by {
            assert(caps@[i] == caps3[i]);
        }
    }
}

/// A square that holds an attacker after the captures of an attacker's move held one after the
/// move itself: captures only take enemies off.
proof fn lemma_attacker_before_captures(b1: Board, to: Vertex, b3: Board, caps3: Seq<Vertex>, u: Vertex)
    requires
        b1.wf(),
        b1.on_board(to),
        b1.on_board(u),
        b1.after_captures(to, Role::Attacker, b3, caps3),
        b3.at(u) == Space::Attacker,
    ensures
        b1.at(u) == Space::Attacker,
{
    let role = Role::Attacker;
    let n = b1.n();
    let size = b1.spec_size();
    let first = b1.custodial_captures(to, role);
    b1.lemma_custodial_on_board(to, role);
    assert forall|j: int| 0 <= j < first.len() implies 0 <= cell(n, (#[trigger] first[j]).x as int, first[j].y as int) < b1.spaces@.len() by {
        assert(b1.on_board(first[j]));
    }
    let cu = cell(n, u.x as int, u.y as int);
    lemma_clear_all_at(b1.spaces@, n, first, cu);
    let s0 = clear_all(b1.spaces@, n, first);
    lemma_shield_wall_only(s0, first, size, role, to);
    let walls = shield_wall(s0, first, size, role, to);
    assert(wall_only(s0, first, walls.0, walls.1, size, role, to));
    reveal(wall_only);
    assert(crate::board_shield::emptied_from(walls.0, s0));
    assert(walls.0[cu] == s0[cu] || walls.0[cu] == Space::Empty);
    assert(s0[cu] == Space::Attacker);
}

/// An attacker's move takes the king only when it moved to a side of the king and every one
/// of the king's four sides then hems it in (an attacker, or the throne).
pub proof fn lemma_king_taken_only_when_surrounded(
    board: Board,
    p: Play,
    status: Status,
    turn: Role,
    previous_boards: PreviousBoards,
    b: Board,
    caps: Vec<Vertex>,
    st: Status,
    k: Vertex,
)
    requires
        board.wf(),
        board.play_on_board(p),
        p.to.size == board.spec_size(),
        board.play_result(
            Plae::Play(p),
            status,
            turn,
            previous_boards,
            Ok::<(Board, Vec<Vertex>, Status), PlayError>((b, caps, st)),
        ),
        board.king == Some(k),
        b.king is None,
    ensures
        board.at(p.from) == Space::Attacker,
        st == Status::AttackerWins,
        Some(p.to) == k.spec_up() || Some(p.to) == k.spec_left() || Some(p.to) == k.spec_down()
            || Some(p.to) == k.spec_right(),
        k.spec_up() matches Some(u) && hems_in(board, p, u),
        k.spec_left() matches Some(u) && hems_in(board, p, u),
        k.spec_down() matches Some(u) && hems_in(board, p, u),
        k.spec_right() matches Some(u) && hems_in(board, p, u),
{
    let role = board.at(p.from).spec_role();
    let (b1, b3, caps3) = choose|b1: Board, b3: Board, caps3: Seq<Vertex>|
        #![trigger board.after_move(p, b1), b1.after_captures(p.to, board.at(p.from).spec_role(), b3, caps3)]
        board.after_move(p, b1) && b1.after_captures(p.to, board.at(p.from).spec_role(), b3, caps3)
            && b3.outcome(p.to, board.at(p.from).spec_role(), caps3, b, caps@, st);
    lemma_moved_wf(board, p, b1);
    assert(b3.king == b1.king);
    assert(b3.king_surrounded(role, p.to));
    assert(board.at(p.from) == Space::Attacker);
    assert(b1.king == Some(k));
    assert(board.on_board(k));
    assert(b1.on_board(p.to));
    crate::board_flood::lemma_step_on_board(board, k, Direction4::Up);
    crate::board_flood::lemma_step_on_board(board, k, Direction4::Left);
    crate::board_flood::lemma_step_on_board(board, k, Direction4::Down);
    crate::board_flood::lemma_step_on_board(board, k, Direction4::Right);
    lemma_side_hems(board, p, b1, b3, caps3, k.spec_up().unwrap());
    lemma_side_hems(board, p, b1, b3, caps3, k.spec_left().unwrap());
    lemma_side_hems(board, p, b1, b3, caps3, k.spec_down().unwrap());
    lemma_side_hems(board, p, b1, b3, caps3, k.spec_right().unwrap());
}

/// A side of the king that blocks it after an attacker's move and its captures hemmed it in
/// given the board before the move.
proof fn lemma_side_hems(board: Board, p: Play, b1: Board, b3: Board, caps3: Seq<Vertex>, u: Vertex)
    requires
        board.wf(),
        board.play_on_board(p),
        p.to.size == board.spec_size(),
        board.at(p.from) == Space::Attacker,
        board.after_move(p, b1),
        b1.after_captures(p.to, Role::Attacker, b3, caps3),
        board.on_board(u),
        b3.hostile_to_king(u),
    ensures
        hems_in(board, p, u),
{
    lemma_moved_wf(board, p, b1);
    if !u.spec_on_throne() && u != p.to {
        assert(b1.on_board(p.to));
        lemma_attacker_before_captures(b1, p.to, b3, caps3, u);
        let n = board.n();
        let cu = cell(n, u.x as int, u.y as int);
        let ct = cell(n, p.to.x as int, p.to.y as int);
        let cf = cell(n, p.from.x as int, p.from.y as int);
        assert(cu != ct);
        if cu == cf {
            assert(b1.spaces@[cu] == Space::Empty);
        }
        assert(!(u.x == p.from.x && u.y == p.from.y));
        assert(board.at(u) == b1.at(u));
    }
}

/// Each piece a move captures by enclosing it is what the move captures in one of the four
/// directions.
proof fn lemma_custodial_directions(b: Board, to: Vertex, role: Role)
    ensures
        forall|t: int|
            0 <= t < b.custodial_captures(to, role).len() ==> exists|d: Direction4|
                b.dir_capture(to, role, d) == Some(#[trigger] b.custodial_captures(to, role)[t]),
{
    let l0 = opt_seq(b.dir_capture(to, role, Direction4::Up));
    let l1 = opt_seq(b.dir_capture(to, role, Direction4::Left));
    let l2 = opt_seq(b.dir_capture(to, role, Direction4::Down));
    let l3 = opt_seq(b.dir_capture(to, role, Direction4::Right));
    let all = l0 + l1 + l2 + l3;
    assert forall|t: int| 0 <= t < all.len() implies exists|d: Direction4|
        b.dir_capture(to, role, d) == Some(#[trigger] all[t]) by {
        if t < l0.len() {
            assert(all[t] == l0[t]);
            assert(b.dir_capture(to, role, Direction4::Up) == Some(all[t]));
        } else if t < l0.len() + l1.len() {
            assert(all[t] == l1[t - l0.len()]);
            assert(b.dir_capture(to, role, Direction4::Left) == Some(all[t]));
        } else if t < l0.len() + l1.len() + l2.len() {
            assert(all[t] == l2[t - l0.len() - l1.len()]);
            assert(b.dir_capture(to, role, Direction4::Down) == Some(all[t]));
        } else {
            assert(all[t] == l3[t - l0.len() - l1.len() - l2.len()]);
            assert(b.dir_capture(to, role, Direction4::Right) == Some(all[t]));
        }
    }
}

/// The piece `v`, next to the square `to` in some direction, is enclosed on the board `b1`:
/// beyond it stands a piece of `role`, or a corner or the throne that the king is not on.
pub open spec fn enclosed(b1: Board, to: Vertex, role: Role, v: Vertex) -> bool {
    exists|d: Direction4|
        #[trigger] step(to, d) == Some(v) && (step(v, d) matches Some(r2) && ((
        r2.spec_on_restricted_square() && b1.at(r2) != Space::King) || b1.at(r2).spec_role()
            == role))
}

/// Every piece a move captures lies next to the square moved to, enclosed on the board as the
/// move left it (`b1`) against a piece of the mover's side or a corner or the throne that the
/// king is not on; or lies on an edge line with the square moved to (a shield wall); or is the
/// king, taken for the attackers' win.
pub proof fn lemma_captures_enclosed(
    board: Board,
    p: Play,
    status: Status,
    turn: Role,
    previous_boards: PreviousBoards,
    b: Board,
    caps: Vec<Vertex>,
    st: Status,
    b1: Board,
)
    requires
        board.wf(),
        board.play_on_board(p),
        p.to.size == board.spec_size(),
        board.play_result(
            Plae::Play(p),
            status,
            turn,
            previous_boards,
            Ok::<(Board, Vec<Vertex>, Status), PlayError>((b, caps, st)),
        ),
        board.after_move(p, b1),
    ensures
        forall|i: int|
            0 <= i < caps@.len() ==> enclosed(b1, p.to, board.at(p.from).spec_role(), #[trigger] caps@[i])
                || crate::board_shield::shares_edge(caps@[i], p.to, board.spec_size()) || (board.king
                == Some(caps@[i]) && st == Status::AttackerWins && b.king is None),
{
    let role = board.at(p.from).spec_role();
    let (c1, b3, caps3) = choose|c1: Board, b3: Board, caps3: Seq<Vertex>|
        #![trigger board.after_move(p, c1), c1.after_captures(p.to, board.at(p.from).spec_role(), b3, caps3)]
        board.after_move(p, c1) && c1.after_captures(p.to, board.at(p.from).spec_role(), b3, caps3)
            && b3.outcome(p.to, board.at(p.from).spec_role(), caps3, b, caps@, st);
    let to = p.to;
    lemma_moved_wf(board, p, c1);
    assert(c1.spaces@ == b1.spaces@);
    let n = c1.n();
    let size = c1.spec_size();
    let first = c1.custodial_captures(to, role);
    c1.lemma_custodial_on_board(to, role);
    lemma_custodial_directions(c1, to, role);
    assert forall|j: int| 0 <= j < first.len() implies 0 <= cell(n, (#[trigger] first[j]).x as int, first[j].y as int) < c1.spaces@.len() by {
        assert(c1.on_board(first[j]));
    }
    lemma_clear_all_at(c1.spaces@, n, first, 0);
    let s0 = clear_all(c1.spaces@, n, first);
    lemma_shield_wall_only(s0, first, size, role, to);
    let walls = shield_wall(s0, first, size, role, to);
    assert(wall_only(s0, first, walls.0, walls.1, size, role, to));
    reveal(wall_only);
    assert forall|i: int| 0 <= i < caps3.len() implies enclosed(b1, to, role, #[trigger] caps3[i])
        || crate::board_shield::shares_edge(caps3[i], to, size) by {
        let v = caps3[i];
        if i < first.len() {
            assert(caps3.subrange(0, first.len() as int)[i] == v);
            assert(first[i] == v);
            let d = choose|d: Direction4| c1.dir_capture(to, role, d) == Some(first[i]);
            assert(c1.sandwich(to, role, d));
            if let Some(r2) = step(v, d) {
                assert(c1.at(r2) == b1.at(r2));
            }
            assert(step(to, d) == Some(v));
        } else {
            assert(crate::board_shield::wall_taken(s0, walls.0, v, size, role, to));
        }
    }
    assert forall|i: int| 0 <= i < caps@.len() implies enclosed(b1, to, role, #[trigger] caps@[i])
        || crate::board_shield::shares_edge(caps@[i], to, size) || (board.king == Some(caps@[i])
        && st == Status::AttackerWins && b.king is None) by {
        if i < caps3.len() {
            assert(caps@[i] == caps3[i]);
        } else {
            assert(b3.king_surrounded(role, to));
            assert(caps@[i] == b3.king.unwrap());
        }
    }
}

} // verus!
