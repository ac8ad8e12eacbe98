use vstd::prelude::*;

use crate::board::{
    area, attackers_at_start, count, defenders_at_start, row_spaces, rows_spaces, Board, BoardSize,
};
use crate::play::Vertex;
use crate::space::{Space, SpaceError};
use crate::text::str_chars;

verus! {

/// Why a board diagram could not be read.
#[derive(Clone, Copy, Debug, PartialEq, Eq, Structural)]
pub enum BoardError {
    /// A character stands for no square.
    Space(SpaceError),
    /// An attacker or a defender stands on the throne or a corner.
    Restricted,
    /// There is more than one king.
    TwoKings,
}

impl BoardError {
    /// The message for the error.
    pub fn message(&self) -> (s: String)
        ensures
            *self == BoardError::Restricted ==> s@ == "Only the king is allowed on restricted squares!"@,
            *self == BoardError::TwoKings ==> s@ == "You can only have one king!"@,
            self matches BoardError::Space(e) ==> s@ == "Error trying to convert '"@ + seq![e.ch]
                + "' to a Space!"@,
    {
        match self {
            BoardError::Restricted => "Only the king is allowed on restricted squares!".to_string(),
            BoardError::TwoKings => "You can only have one king!".to_string(),
            BoardError::Space(e) => {
                let mut s = String::new();
                crate::text::push_str(&mut s, "Error trying to convert '");
                crate::text::push_char(&mut s, e.ch);
                crate::text::push_str(&mut s, "' to a Space!");
                s
            },
        }
    }
}

/// Reading the character `c` in column `x` of row `y`, with `kings` kings seen so far, the
/// last at `king`: an error, or the kings seen after it.
pub open spec fn square_result(
    size: BoardSize,
    x: int,
    y: int,
    c: char,
    kings: nat,
    king: Option<Vertex>,
) -> Result<(nat, Option<Vertex>), BoardError> {
    let v = Vertex { size, x: x as usize, y: y as usize };
    match Space::spec_from_char(c) {
        None => Err(BoardError::Space(SpaceError { ch: c })),
        Some(Space::Empty) => Ok((kings, king)),
        Some(Space::King) => if kings >= 1 {
            Err(BoardError::TwoKings)
        } else {
            Ok((kings + 1, Some(v)))
        },
        Some(_) => if v.spec_on_restricted_square() {
            Err(BoardError::Restricted)
        } else {
            Ok((kings, king))
        },
    }
}

/// Reading row `y` of a diagram from column `x` on.
pub open spec fn row_scan(
    size: BoardSize,
    row: Seq<char>,
    y: int,
    x: int,
    st: (nat, Option<Vertex>),
) -> Result<(nat, Option<Vertex>), BoardError>
    decreases row.len() - x,
{
    if x < 0 || x >= row.len() {
        Ok(st)
    } else {
        match square_result(size, x, y, row[x], st.0, st.1) {
            Err(e) => Err(e),
            Ok(st2) => row_scan(size, row, y, x + 1, st2),
        }
    }
}

/// Reading a diagram from row `y` on.
pub open spec fn rows_scan(
    size: BoardSize,
    rows: Seq<Seq<char>>,
    y: int,
    st: (nat, Option<Vertex>),
) -> Result<(nat, Option<Vertex>), BoardError>
    decreases rows.len() - y,
{
    if y < 0 || y >= rows.len() {
        Ok(st)
    } else {
        match row_scan(size, rows[y], y, 0, st) {
            Err(e) => Err(e),
            Ok(st2) => rows_scan(size, rows, y + 1, st2),
        }
    }
}

/// The rows of a diagram as texts.
pub open spec fn row_texts(rows: Seq<&str>) -> Seq<Seq<char>> {
    rows.map_values(|r: &str| r@)
}

/// The size of a board with this many rows.
pub open spec fn size_of_rows(k: nat) -> BoardSize {
    if k == 11 {
        BoardSize::_11
    } else {
        BoardSize::_13
    }
}

impl Board {
    /// Reads a board from a diagram of 11 or 13 rows: `X` an attacker, `O` a defender, `K` the
    /// king, `.` an empty square. No attacker or defender may stand on the throne or a corner,
    /// and there may be one king at most; the pieces missing from the starting numbers count
    /// as captured.
    #[verifier::loop_isolation(false)]
    pub fn try_from_rows(rows: &[&str]) -> (r: Result<Board, BoardError>)
        requires
            rows@.len() == 11 || rows@.len() == 13,
            rows_scan(size_of_rows(rows@.len()), row_texts(rows@), 0, (0, None)) is Ok ==> {
                let s = rows_spaces(row_texts(rows@));
                let n = size_of_rows(rows@.len()).n();
                &&& s.len() == area(n)
                &&& count(s, Space::Attacker) <= attackers_at_start(n)
                &&& count(s, Space::Defender) <= defenders_at_start(n)
            },
        ensures
            match rows_scan(size_of_rows(rows@.len()), row_texts(rows@), 0, (0, None)) {
                Err(e) => r == Err::<Board, BoardError>(e),
                Ok((_, king)) => r matches Ok(b) && {
                    let s = rows_spaces(row_texts(rows@));
                    let n = size_of_rows(rows@.len()).n();
                    &&& b.spaces@ == s
                    &&& b.king == king
                    &&& b.attackers_captured == attackers_at_start(n) - count(s, Space::Attacker)
                    &&& b.defenders_captured == defenders_at_start(n) - count(s, Space::Defender)
                    &&& !b.display_ascii
                },
            },
    {
        let size = if rows.len() == 11 {
            BoardSize::_11
        } else {
            BoardSize::_13
        };
        let ghost texts = row_texts(rows@);
        let mut spaces: Vec<Space> = Vec::new();
        let mut kings: usize = 0;
        let mut king: Option<Vertex> = None;
        let mut y: usize = 0;
        while y < rows.len()
            invariant
                rows@.len() == 11 || rows@.len() == 13,
                size == size_of_rows(rows@.len()),
                texts == row_texts(rows@),
                y <= rows@.len(),
                kings <= 1,
                spaces@ == rows_spaces(texts.take(y as int)),
                rows_scan(size, texts, 0, (0, None)) == match rows_scan(size, texts.take(y as int), 0, (0, None)) {
                    Err(e) => Err(e),
                    Ok(st) => rows_scan(size, texts, y as int, st),
                },
                rows_scan(size, texts.take(y as int), 0, (0, None)) == Ok::<(nat, Option<Vertex>), BoardError>(
                    (kings as nat, king),
                ),
            decreases rows@.len() - y,
        {
            let chars = str_chars(rows[y]);
            let ghost row = texts[y as int];
            assert(chars@ == row);
            let ghost st0 = (kings as nat, king);
            let mut x: usize = 0;
            while x < chars.len()
                invariant
                    chars@ == row,
                    x <= chars@.len(),
                    kings <= 1,
                    spaces@ == rows_spaces(texts.take(y as int)) + row_spaces(row.take(x as int)),
                    row_scan(size, row, y as int, 0, st0) == row_scan(size, row, y as int, x as int, (kings as nat, king)),
                decreases chars@.len() - x,
            {
                let c = chars[x];
                let space = match Space::try_from_char(c) {
                    Ok(s) => s,
                    Err(e) => {
                        proof {
                            lemma_scan_error(size, texts, y as int, row, st0, x as int, (kings as nat, king));
                        }
                        return Err(BoardError::Space(e));
                    },
                };
                match space {
                    Space::Attacker | Space::Defender => {
                        let vertex = Vertex { size, x, y };
                        if vertex.on_restricted_square() {
                            proof {
                                lemma_scan_error(size, texts, y as int, row, st0, x as int, (kings as nat, king));
                            }
                            return Err(BoardError::Restricted);
                        }
                    },
                    Space::Empty => {},
                    Space::King => {
                        if kings >= 1 {
                            proof {
                                lemma_scan_error(size, texts, y as int, row, st0, x as int, (kings as nat, king));
                            }
                            return Err(BoardError::TwoKings);
                        }
                        kings = kings + 1;
                        king = Some(Vertex { size, x, y });
                    },
                }
                let ghost before = spaces@;
                spaces.push(space);
                proof {
                    assert(row.take(x as int + 1) == row.take(x as int).push(c));
                    assert(row_spaces(row.take(x as int + 1)) == row_spaces(row.take(x as int)).push(space));
                    assert(spaces@ == before.push(space));
                    assert(rows_spaces(texts.take(y as int)) + row_spaces(row.take(x as int + 1))
                        == (rows_spaces(texts.take(y as int)) + row_spaces(row.take(x as int))).push(space));
                }
                x = x + 1;
            }
            proof {
                assert(row.take(x as int) == row);
                assert(texts.take(y as int + 1).drop_last() == texts.take(y as int));
                assert(texts.take(y as int + 1).last() == row);
                lemma_rows_scan_step(size, texts, y as int, st0, (kings as nat, king));
            }
            y = y + 1;
        }
        proof {
            assert(texts.take(rows@.len() as int) == texts);
            assert(rows_scan(size, texts, rows@.len() as int, (kings as nat, king)) == Ok::<(nat, Option<Vertex>), BoardError>((kings as nat, king)));
        }
        let mut board = Board {
            spaces,
            attackers_captured: 0,
            defenders_captured: 0,
            king,
            display_ascii: false,
        };
        let captured = board.captured();
        board.attackers_captured = captured.attacker;
        board.defenders_captured = captured.defender;
        Ok(board)
    }
}

/// A failure in a row is the failure of the whole scan.
proof fn lemma_scan_error(
    size: BoardSize,
    texts: Seq<Seq<char>>,
    y: int,
    row: Seq<char>,
    st0: (nat, Option<Vertex>),
    x: int,
    st: (nat, Option<Vertex>),
)
    requires
        0 <= y < texts.len(),
        texts[y] == row,
        0 <= x < row.len(),
        square_result(size, x, y, row[x], st.0, st.1) is Err,
        row_scan(size, row, y, 0, st0) == row_scan(size, row, y, x, st),
        rows_scan(size, texts, 0, (0, None)) == match rows_scan(size, texts.take(y), 0, (0, None)) {
            Err(e) => Err(e),
            Ok(s) => rows_scan(size, texts, y, s),
        },
        rows_scan(size, texts.take(y), 0, (0, None)) == Ok::<(nat, Option<Vertex>), BoardError>(st0),
    ensures
        rows_scan(size, texts, 0, (0, None)) == Err::<(nat, Option<Vertex>), BoardError>(
            square_result(size, x, y, row[x], st.0, st.1)->Err_0,
        ),
{
}

/// Reading one more row: the scan of the first rows and then the rest is the whole scan.
proof fn lemma_rows_scan_step(
    size: BoardSize,
    texts: Seq<Seq<char>>,
    y: int,
    st0: (nat, Option<Vertex>),
    st1: (nat, Option<Vertex>),
)
    requires
        0 <= y < texts.len(),
        rows_scan(size, texts.take(y), 0, (0, None)) == Ok::<(nat, Option<Vertex>), BoardError>(st0),
        row_scan(size, texts[y], y, 0, st0) == Ok::<(nat, Option<Vertex>), BoardError>(st1),
    ensures
        rows_scan(size, texts.take(y + 1), 0, (0, None)) == Ok::<(nat, Option<Vertex>), BoardError>(st1),
{
    lemma_rows_scan_prefix(size, texts.take(y + 1), y, 0, (0, None));
    assert(texts.take(y + 1).take(y) == texts.take(y));
    assert(texts.take(y + 1)[y] == texts[y]);
}

/// Scanning a list of rows from row `k`, where only row `y` is left after the first `y`:
/// scanning the first `y` rows, then row `y`.
proof fn lemma_rows_scan_prefix(
    size: BoardSize,
    texts: Seq<Seq<char>>,
    y: int,
    k: int,
    st: (nat, Option<Vertex>),
)
    requires
        texts.len() == y + 1,
        0 <= k <= y,
    ensures
        rows_scan(size, texts, k, st) == match rows_scan(size, texts.take(y), k, st) {
            Err(e) => Err(e),
            Ok(s) => row_scan(size, texts[y], y, 0, s),
        },
    decreases y - k,
{
    if k < y {
        assert(texts.take(y)[k] == texts[k]);
        match row_scan(size, texts[k], k, 0, st) {
            Err(e) => {},
            Ok(s2) => {
                lemma_rows_scan_prefix(size, texts, y, k + 1, s2);
            },
        }
    } else {
        assert(rows_scan(size, texts, y + 1, (0, None)) == Ok::<(nat, Option<Vertex>), BoardError>((0, None)));
        match row_scan(size, texts[y], y, 0, st) {
            Err(e) => {},
            Ok(s2) => {
                assert(rows_scan(size, texts, y + 1, s2) == Ok::<(nat, Option<Vertex>), BoardError>(s2));
            },
        }
    }
}

} // verus!
