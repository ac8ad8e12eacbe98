use vstd::prelude::*;

use crate::play::{first_dash, spec_vertex_from_str, Captures, Plae, Play, Vertex, VertexError};
use crate::role::Role;
use crate::text::{str_chars, string_from_chars};

verus! {

/// The clock settings of an OpenTafl game: the main time and the increment, in seconds.
#[derive(Clone, Copy, Debug, PartialEq, Eq, Structural)]
pub struct TimeControl {
    main_time_seconds: i64,
    increment_length: i64,
}

/// The rules an OpenTafl game is played by.
#[derive(Clone, Copy, Debug, PartialEq, Eq, Structural)]
pub enum Variant {
    Copenhagen,
}

impl Variant {
    /// Copenhagen rules.
    pub fn default() -> (v: Variant)
        ensures
            v == Variant::Copenhagen,
    {
        Variant::Copenhagen
    }
}

/// A flag that is on unless said otherwise.
pub fn default_true() -> (b: bool)
    ensures
        b,
{
    true
}

/// ASCII whitespace: space, tab, line feed, form feed and carriage return.
pub open spec fn ascii_ws(c: char) -> bool {
    c == ' ' || c == '\t' || c == '\n' || c == '\x0C' || c == '\r'
}

/// The words of a text: its runs of characters other than ASCII whitespace.
pub open spec fn ascii_tokens(s: Seq<char>) -> Seq<Seq<char>>
    decreases s.len(),
{
    if s.len() == 0 {
        seq![]
    } else {
        let t = ascii_tokens(s.drop_last());
        let c = s.last();
        if ascii_ws(c) {
            t
        } else if s.len() >= 2 && !ascii_ws(s[s.len() - 2]) {
            t.update(t.len() - 1, t.last().push(c))
        } else {
            t.push(seq![c])
        }
    }
}

/// The pieces of a text between the separators (empty pieces included).
pub open spec fn pieces(s: Seq<char>, sep: char) -> Seq<Seq<char>>
    decreases s.len(),
{
    if s.len() == 0 {
        seq![seq![]]
    } else {
        let p = pieces(s.drop_last(), sep);
        if s.last() == sep {
            p.push(seq![])
        } else {
            p.update(p.len() - 1, p.last().push(s.last()))
        }
    }
}

/// The captured squares named by the pieces, each once, in the order first named; the first
/// piece that names no square is an error.
pub open spec fn capture_list(parts: Seq<Seq<char>>) -> Result<Seq<Vertex>, VertexError>
    decreases parts.len(),
{
    if parts.len() == 0 {
        Ok(seq![])
    } else {
        match capture_list(parts.drop_last()) {
            Err(e) => Err(e),
            Ok(cs) => match spec_vertex_from_str(parts.last()) {
                Err(e) => Err(e),
                Ok(v) => Ok(
                    if cs.contains(v) {
                        cs
                    } else {
                        cs.push(v)
                    },
                ),
            },
        }
    }
}

/// What a word of an OpenTafl move list says, moved by `role`: nothing when it is not a move
/// `from-to` (optionally followed by `x` and the squares captured), else the move with its
/// captures, or an error when a captured square cannot be read.
pub open spec fn token_move(tok: Seq<char>, role: Role) -> Option<
    Result<(Play, Seq<Vertex>), VertexError>,
> {
    match first_dash(tok) {
        None => None,
        Some(i) => {
            let ps = pieces(tok.subrange(i + 1, tok.len() as int), 'x');
            match (spec_vertex_from_str(tok.subrange(0, i)), spec_vertex_from_str(ps[0])) {
                (Ok(from), Ok(to)) => Some(
                    match capture_list(ps.drop_first()) {
                        Err(e) => Err(e),
                        Ok(cs) => Ok((Play { role, from, to }, cs)),
                    },
                ),
                _ => None,
            }
        },
    }
}

/// The side that plays the `k`-th word: the attackers first, then each side in turn.
pub open spec fn side_of_word(k: int) -> Role {
    if k % 2 == 0 {
        Role::Attacker
    } else {
        Role::Defender
    }
}

/// The moves a list of words gives, or the first error.
pub open spec fn move_list(tokens: Seq<Seq<char>>) -> Result<Seq<(Plae, Seq<Vertex>)>, VertexError>
    decreases tokens.len(),
{
    if tokens.len() == 0 {
        Ok(seq![])
    } else {
        match move_list(tokens.drop_last()) {
            Err(e) => Err(e),
            Ok(ms) => match token_move(tokens.last(), side_of_word(tokens.len() - 1)) {
                None => Ok(ms),
                Some(Err(e)) => Err(e),
                Some(Ok((p, cs))) => Ok(ms.push((Plae::Play(p), cs))),
            },
        }
    }
}

/// The views of a list of character lists.
pub open spec fn views(v: Seq<Vec<char>>) -> Seq<Seq<char>> {
    v.map_values(|w: Vec<char>| w@)
}

/// The words of a text, split at ASCII whitespace.
pub(crate) fn ascii_tokens_exec(chars: &Vec<char>) -> (r: Vec<Vec<char>>)
    ensures
        views(r@) == ascii_tokens(chars@),
{
    let mut out: Vec<Vec<char>> = Vec::new();
    let mut cur: Vec<char> = Vec::new();
    let mut i: usize = 0;
    while i < chars.len()
        invariant
            i <= chars@.len(),
            ascii_tokens(chars@.take(i as int)) == views(out@) + if cur@.len() > 0 {
                seq![cur@]
            } else {
                seq![]
            },
            (cur@.len() > 0) == (i > 0 && !ascii_ws(chars@[i - 1])),
        decreases chars@.len() - i,
    {
        let c = chars[i];
        let ghost prefix = chars@.take(i as int + 1);
        assert(prefix.drop_last() == chars@.take(i as int));
        assert(prefix.last() == c);
        let ghost before = views(out@);
        if c == ' ' || c == '\t' || c == '\n' || c == '\x0C' || c == '\r' {
            if cur.len() > 0 {
                let ghost cv = cur@;
                out.push(cur);
                cur = Vec::new();
                assert(views(out@) == before.push(cv));
                assert(before + seq![cv] == before.push(cv));
            }
            assert(views(out@) + Seq::<Seq<char>>::empty() == views(out@));
        } else {
            let ghost cv = cur@;
            let had = cur.len() > 0;
            cur.push(c);
            if had {
                assert(prefix[prefix.len() - 2] == chars@[i - 1]);
                assert((before + seq![cv]).update((before + seq![cv]).len() - 1, cv.push(c))
                    == before + seq![cv.push(c)]);
            } else {
                assert(cur@ == seq![c]);
                assert(before + Seq::<Seq<char>>::empty() == before);
                assert(before.push(seq![c]) == before + seq![cur@]);
            }
        }
        i = i + 1;
    }
    assert(chars@.take(chars@.len() as int) == chars@);
    if cur.len() > 0 {
        let ghost before = views(out@);
        let ghost cv = cur@;
        out.push(cur);
        assert(views(out@) == before.push(cv));
    } else {
        assert(views(out@) + Seq::<Seq<char>>::empty() == views(out@));
    }
    out
}

/// The pieces of a list of characters between the separators.
pub(crate) fn pieces_exec(chars: &[char], sep: char) -> (r: Vec<Vec<char>>)
    ensures
        views(r@) == pieces(chars@, sep),
{
    let mut out: Vec<Vec<char>> = Vec::new();
    let mut cur: Vec<char> = Vec::new();
    let mut i: usize = 0;
    while i < chars.len()
        invariant
            i <= chars@.len(),
            pieces(chars@.take(i as int), sep) == views(out@) + seq![cur@],
        decreases chars@.len() - i,
    {
        let c = chars[i];
        let ghost prefix = chars@.take(i as int + 1);
        assert(prefix.drop_last() == chars@.take(i as int));
        assert(prefix.last() == c);
        let ghost before = views(out@);
        let ghost cv = cur@;
        if c == sep {
            out.push(cur);
            cur = Vec::new();
            assert(views(out@) == before.push(cv));
            assert((before + seq![cv]).push(seq![]) == views(out@) + seq![cur@]);
        } else {
            cur.push(c);
            assert((before + seq![cv]).update((before + seq![cv]).len() - 1, cv.push(c)) == before
                + seq![cur@]);
        }
        i = i + 1;
    }
    assert(chars@.take(chars@.len() as int) == chars@);
    let ghost before = views(out@);
    let ghost cv = cur@;
    out.push(cur);
    assert(views(out@) == before.push(cv));
    out
}

/// Reads a vertex from a list of characters.
fn vertex_from_chars(chars: &[char]) -> (r: Result<Vertex, VertexError>)
    ensures
        r == spec_vertex_from_str(chars@),
{
    let s = string_from_chars(chars);
    Vertex::from_str(s.as_str())
}

/// Reads the captured squares named by the pieces from the `k`-th on.
fn capture_list_exec(parts: &Vec<Vec<char>>) -> (r: Result<Vec<Vertex>, VertexError>)
    requires
        parts@.len() >= 1,
    ensures
        match capture_list(views(parts@).drop_first()) {
            Err(e) => r == Err::<Vec<Vertex>, VertexError>(e),
            Ok(cs) => r matches Ok(v) && v@ == cs,
        },
{
    let ghost rest = views(parts@).drop_first();
    let mut caps: Vec<Vertex> = Vec::new();
    let mut k: usize = 1;
    while k < parts.len()
        invariant
            1 <= k <= parts@.len(),
            rest == views(parts@).drop_first(),
            capture_list(rest.take(k - 1)) == Ok::<Seq<Vertex>, VertexError>(caps@),
        decreases parts@.len() - k,
    {
        let ghost upto = rest.take(k as int);
        assert(upto.drop_last() == rest.take(k - 1));
        assert(upto.last() == parts@[k as int]@);
        let v = match vertex_from_chars(parts[k].as_slice()) {
            Ok(v) => v,
            Err(e) => {
                proof {
                    lemma_capture_list_prefix_err(rest, k as int, e);
                }
                return Err(e);
            },
        };
        let mut seen = false;
        let mut j: usize = 0;
        while j < caps.len()
            invariant
                j <= caps@.len(),
                seen <==> exists|t: int| 0 <= t < j && caps@[t] == v,
            decreases caps@.len() - j,
        {
            if caps[j] == v {
                seen = true;
            }
            j = j + 1;
        }
        assert(seen <==> caps@.contains(v));
        if !seen {
            caps.push(v);
        }
        k = k + 1;
    }
    assert(rest.take(parts@.len() - 1) == rest);
    Ok(caps)
}

/// When the piece read at position `k` is an error, the whole list is that error, unless an
/// earlier piece already was one.
proof fn lemma_capture_list_prefix_err(rest: Seq<Seq<char>>, k: int, e: VertexError)
    requires
        1 <= k <= rest.len(),
        capture_list(rest.take(k - 1)) is Ok,
        spec_vertex_from_str(rest[k - 1]) == Err::<Vertex, VertexError>(e),
    ensures
        capture_list(rest) == Err::<Seq<Vertex>, VertexError>(e),
    decreases rest.len() - k,
{
    if k == rest.len() {
        assert(rest.drop_last() == rest.take(k - 1));
    } else {
        assert(rest.drop_last().take(k - 1) == rest.take(k - 1));
        assert(rest.drop_last()[k - 1] == rest[k - 1]);
        lemma_capture_list_prefix_err(rest.drop_last(), k, e);
    }
}

/// What a word of a move list says, moved by `role`.
fn token_move_exec(tok: &Vec<char>, role: Role) -> (r: Option<Result<(Play, Vec<Vertex>), VertexError>>)
    ensures
        match token_move(tok@, role) {
            None => r is None,
            Some(Err(e)) => r == Some(Err::<(Play, Vec<Vertex>), VertexError>(e)),
            Some(Ok((p, cs))) => r matches Some(Ok((q, v))) && q == p && v@ == cs,
        },
{
    let len = tok.len();
    let mut i: usize = 0;
    while i < len && tok[i] != '-'
        invariant
            i <= len,
            len == tok@.len(),
            forall|j: int| 0 <= j < i ==> tok@[j] != '-',
        decreases len - i,
    {
        i = i + 1;
    }
    if i == len {
        assert(!(exists|j: int| 0 <= j < tok@.len() && tok@[j] == '-'));
        return None;
    }
    proof {
        let k = choose|k: int|
            0 <= k < tok@.len() && tok@[k] == '-' && forall|j: int| 0 <= j < k ==> tok@[j] != '-';
        assert(k == i as int) by {
            if k > i {
                assert(tok@[i as int] != '-');
            }
        }
    }
    let head = vstd::slice::slice_subrange(tok.as_slice(), 0, i);
    let tail = vstd::slice::slice_subrange(tok.as_slice(), i + 1, len);
    let parts = pieces_exec(tail, 'x');
    proof {
        assert(views(parts@).len() >= 1) by {
            lemma_pieces_nonempty(tail@, 'x');
        }
    }
    let from = vertex_from_chars(head);
    let to = vertex_from_chars(parts[0].as_slice());
    match (from, to) {
        (Ok(from), Ok(to)) => match capture_list_exec(&parts) {
            Err(e) => Some(Err(e)),
            Ok(caps) => Some(Ok((Play { role, from, to }, caps))),
        },
        _ => None,
    }
}

/// There is always at least one piece.
pub proof fn lemma_pieces_nonempty(s: Seq<char>, sep: char)
    ensures
        pieces(s, sep).len() >= 1,
    decreases s.len(),
{
    if s.len() > 0 {
        lemma_pieces_nonempty(s.drop_last(), sep);
    }
}

/// The moves of an OpenTafl game record, each with the squares it captured.
#[derive(Clone, Debug)]
pub struct OpenTaflMoves(pub Vec<(Plae, Captures)>);

impl OpenTaflMoves {
    /// Reads an OpenTafl move list: words split at ASCII whitespace, played by the attackers
    /// and the defenders in turn; a word `from-to`, optionally followed by `x` and each square
    /// captured, is a move, and any other word is passed over (though it still takes a turn).
    /// A captured square that cannot be read is an error.
    pub fn from_str(moves: &str) -> (r: Result<OpenTaflMoves, VertexError>)
        ensures
            match move_list(ascii_tokens(moves@)) {
                Err(e) => r matches Err(f) && f == e,
                Ok(ms) => r matches Ok(m) && m.0@.len() == ms.len() && forall|i: int|
                    0 <= i < ms.len() ==> (#[trigger] m.0@[i]).0 == ms[i].0 && m.0@[i].1.0@
                        == ms[i].1,
            },
    {
        let chars = str_chars(moves);
        let tokens = ascii_tokens_exec(&chars);
        let ghost ts = views(tokens@);
        let mut plays: Vec<(Plae, Captures)> = Vec::new();
        let mut role = Role::Attacker;
        let mut k: usize = 0;
        while k < tokens.len()
            invariant
                k <= tokens@.len(),
                ts == views(tokens@),
                ts == ascii_tokens(moves@),
                role == side_of_word(k as int),
                move_list(ts.take(k as int)) matches Ok(ms) && plays@.len() == ms.len() && forall|i: int|
                    0 <= i < ms.len() ==> (#[trigger] plays@[i]).0 == ms[i].0 && plays@[i].1.0@
                        == ms[i].1,
            decreases tokens@.len() - k,
        {
            let ghost upto = ts.take(k as int + 1);
            assert(upto.drop_last() == ts.take(k as int));
            assert(upto.last() == tokens@[k as int]@);
            let ghost ms = move_list(ts.take(k as int))->Ok_0;
            match token_move_exec(&tokens[k], role) {
                None => {},
                Some(Err(e)) => {
                    proof {
                        assert(ts[k as int] == tokens@[k as int]@);
                        lemma_move_list_prefix_err(ts, k as int + 1, e);
                    }
                    return Err(e);
                },
                Some(Ok((play, caps))) => {
                    plays.push((Plae::Play(play), Captures(caps)));
                    proof {
                        let ms2 = move_list(upto)->Ok_0;
                        assert(ms2 == ms.push((Plae::Play(play), caps@)));
                        assert forall|i: int| 0 <= i < ms2.len() implies (#[trigger] plays@[i]).0
                            == ms2[i].0 && plays@[i].1.0@ == ms2[i].1 by {
                        }
                    }
                },
            }
            role = role.opposite();
            k = k + 1;
        }
        assert(ts.take(tokens@.len() as int) == ts);
        Ok(OpenTaflMoves(plays))
    }
}

/// When the word at position `k - 1` is an error, the whole list is that error, unless an
/// earlier word already was one.
proof fn lemma_move_list_prefix_err(ts: Seq<Seq<char>>, k: int, e: VertexError)
    requires
        1 <= k <= ts.len(),
        move_list(ts.take(k - 1)) is Ok,
        token_move(ts[k - 1], side_of_word(k - 1)) == Some(Err::<(Play, Seq<Vertex>), VertexError>(e)),
    ensures
        move_list(ts) == Err::<Seq<(Plae, Seq<Vertex>)>, VertexError>(e),
    decreases ts.len() - k,
{
    if k == ts.len() {
        assert(ts.drop_last() == ts.take(k - 1));
    } else {
        assert(ts.drop_last().take(k - 1) == ts.take(k - 1));
        assert(ts.drop_last()[k - 1] == ts[k - 1]);
        lemma_move_list_prefix_err(ts.drop_last(), k, e);
    }
}

/// The squares a move list gives as captured by one move are all different.
pub proof fn lemma_captures_distinct(parts: Seq<Seq<char>>)
    ensures
        capture_list(parts) matches Ok(cs) ==> forall|i: int, j: int|
            0 <= i < j < cs.len() ==> cs[i] != cs[j],
    decreases parts.len(),
{
    if parts.len() > 0 {
        lemma_captures_distinct(parts.drop_last());
        if let Ok(cs) = capture_list(parts.drop_last()) {
            if let Ok(v) = spec_vertex_from_str(parts.last()) {
                if !cs.contains(v) {
                    assert forall|i: int, j: int| 0 <= i < j < cs.push(v).len() implies cs.push(
                        v,
                    )[i] != cs.push(v)[j] by {
                        if j == cs.len() {
                            assert(cs.push(v)[i] == cs[i]);
                        }
                    }
                }
            }
        }
    }
}

} // verus!
