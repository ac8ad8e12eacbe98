use vstd::prelude::*;

use crate::play::Vertex;
use crate::space::Space;

verus! {


/// The two board sizes of the game: 11 by 11 and 13 by 13.
#[derive(Clone, Copy, Debug, PartialEq, Eq, Structural, Hash)]
pub enum BoardSize {
    _11,
    _13,
}

/// A number that is no board size.
#[derive(Clone, Copy, Debug, PartialEq, Eq, Structural)]
pub struct BoardSizeError {
    pub value: usize,
}

impl BoardSize {
    /// The number of squares along a side.
    pub open spec fn n(self) -> nat {
        match self {
            BoardSize::_11 => 11,
            BoardSize::_13 => 13,
        }
    }

    pub fn default() -> (s: BoardSize)
        ensures
            s == BoardSize::_11,
    {
        BoardSize::_11
    }

    /// The number of squares along a side.
    pub fn to_usize(self) -> (r: usize)
        ensures
            r == self.n(),
    {
        match self {
            BoardSize::_11 => 11,
            BoardSize::_13 => 13,
        }
    }

    /// The size whose side has `value` squares.
    pub fn try_from_usize(value: usize) -> (r: Result<BoardSize, BoardSizeError>)
        ensures
            value == 11 ==> r == Ok::<BoardSize, BoardSizeError>(BoardSize::_11),
            value == 13 ==> r == Ok::<BoardSize, BoardSizeError>(BoardSize::_13),
            value != 11 && value != 13 ==> r == Err::<BoardSize, BoardSizeError>(
                BoardSizeError { value },
            ),
    {
        if value == 11 {
            Ok(BoardSize::_11)
        } else if value == 13 {
            Ok(BoardSize::_13)
        } else {
            Err(BoardSizeError { value })
        }
    }
}

/// A text that names no board size.
#[derive(Clone, Debug)]
pub struct BoardSizeTextError {
    pub text: String,
}

impl BoardSizeTextError {
    /// What went wrong, in words.
    pub fn message(&self) -> (s: String)
        ensures
            s@ == "expected 11 or 13, got "@ + self.text@,
    {
        let mut s = String::new();
        crate::text::push_str(&mut s, "expected 11 or 13, got ");
        crate::text::push_str(&mut s, self.text.as_str());
        s
    }
}

impl BoardSize {
    /// Reads a board size: `11` or `13`.
    pub fn from_str(s: &str) -> (r: Result<BoardSize, BoardSizeTextError>)
        ensures
            s@ == "11"@ ==> (r matches Ok(b) && b == BoardSize::_11),
            s@ == "13"@ ==> (r matches Ok(b) && b == BoardSize::_13),
            s@ != "11"@ && s@ != "13"@ ==> (r matches Err(e) && e.text@ == s@),
    {
        proof {
            reveal_strlit("11");
            reveal_strlit("13");
            assert("11"@[1] != "13"@[1]);
        }
        if crate::text::str_eq(s, "11") {
            Ok(BoardSize::_11)
        } else if crate::text::str_eq(s, "13") {
            Ok(BoardSize::_13)
        } else {
            Err(BoardSizeTextError { text: s.to_string() })
        }
    }
}

/// A position: the squares row by row from the top left, the king's square, and the
/// number of pieces of each side that have been captured.
#[derive(Clone, Debug)]
pub struct Board {
    pub spaces: Vec<Space>,
    pub king: Option<Vertex>,
    pub attackers_captured: usize,
    pub defenders_captured: usize,
    pub display_ascii: bool,
}

/// The number of squares of kind `p` in `s`.
pub open spec fn count(s: Seq<Space>, p: Space) -> nat
    decreases s.len(),
{
    if s.len() == 0 {
        0
    } else {
        count(s.drop_last(), p) + if s.last() == p {
            1nat
        } else {
            0nat
        }
    }
}

/// The squares that a row of a board diagram stands for (`X`, `O`, `.`, `K`).
pub open spec fn row_spaces(row: Seq<char>) -> Seq<Space> {
    row.map_values(|c: char| Space::spec_from_char(c).unwrap())
}

/// The squares of a board diagram, row after row.
pub open spec fn rows_spaces(rows: Seq<Seq<char>>) -> Seq<Space>
    decreases rows.len(),
{
    if rows.len() == 0 {
        seq![]
    } else {
        rows_spaces(rows.drop_last()) + row_spaces(rows.last())
    }
}

/// The starting diagram of the 11 by 11 board.
pub open spec fn start_rows_11() -> Seq<Seq<char>> {
    seq![
        "...XXXXX..."@,
        ".....X....."@,
        "..........."@,
        "X....O....X"@,
        "X...OOO...X"@,
        "XX.OOKOO.XX"@,
        "X...OOO...X"@,
        "X....O....X"@,
        "..........."@,
        ".....X....."@,
        "...XXXXX..."@,
    ]
}

/// The starting diagram of the 13 by 13 board.
pub open spec fn start_rows_13() -> Seq<Seq<char>> {
    seq![
        "...XXXXXXX..."@,
        "......X......"@,
        "............."@,
        "X.....O.....X"@,
        "X.....O.....X"@,
        "X....OOO....X"@,
        "XX.OOOKOOO.XX"@,
        "X....OOO....X"@,
        "X.....O.....X"@,
        "X.....O.....X"@,
        "............."@,
        "......X......"@,
        "...XXXXXXX..."@,
    ]
}

/// The squares of the starting position of a board of the given size.
pub open spec fn start_spaces(size: BoardSize) -> Seq<Space> {
    match size {
        BoardSize::_11 => rows_spaces(start_rows_11()),
        BoardSize::_13 => rows_spaces(start_rows_13()),
    }
}

/// The number of attackers a side starts with on a board of this size.
pub open spec fn attackers_at_start(n: nat) -> nat {
    if n == 11 {
        24
    } else {
        32
    }
}

/// The number of defenders (the king aside) a side starts with on a board of this size.
pub open spec fn defenders_at_start(n: nat) -> nat {
    if n == 11 {
        12
    } else {
        16
    }
}

/// The number of squares of a board with `n` squares to a side.
pub open spec fn area(n: nat) -> nat {
    if n == 11 {
        121
    } else {
        169
    }
}

/// The index of the square in column `x` and row `y` of a board with `n` squares to a side.
pub open spec fn cell(n: nat, x: int, y: int) -> int {
    if n == 11 {
        y * 11 + x
    } else {
        y * 13 + x
    }
}


/// How many pieces of each side are off the board, and whether the king is.
#[derive(Clone, Copy, Debug, PartialEq, Eq, Structural)]
pub struct Captured {
    pub attacker: usize,
    pub defender: usize,
    pub king: bool,
}

impl Board {
    /// Two boards agree in every field.
    pub open spec fn equals(self, other: Board) -> bool {
        &&& self.spaces@ == other.spaces@
        &&& self.king == other.king
        &&& self.attackers_captured == other.attackers_captured
        &&& self.defenders_captured == other.defenders_captured
        &&& self.display_ascii == other.display_ascii
    }

    /// The number of squares along a side.
    pub open spec fn n(self) -> nat {
        if self.spaces@.len() == 121 {
            11
        } else {
            13
        }
    }

    pub open spec fn spec_size(self) -> BoardSize {
        if self.spaces@.len() == 121 {
            BoardSize::_11
        } else {
            BoardSize::_13
        }
    }

    /// A board of one of the two sizes, whose king field, when set, names one of its squares.
    pub open spec fn wf(self) -> bool {
        &&& (self.spaces@.len() == 121 || self.spaces@.len() == 169)
        &&& (self.king matches Some(k) ==> self.on_board(k))
    }

    /// The vertex is a square of this board.
    pub open spec fn on_board(self, v: Vertex) -> bool {
        v.size == self.spec_size() && v.x < self.n() && v.y < self.n()
    }

    /// The square in column `x` and row `y`.
    pub open spec fn at_xy(self, x: int, y: int) -> Space {
        self.spaces@[cell(self.n(), x, y)]
    }

    /// The square at a vertex.
    pub open spec fn at(self, v: Vertex) -> Space {
        self.at_xy(v.x as int, v.y as int)
    }

    /// The king field names the king's square, and no other square holds a king; without a
    /// king field, no square holds one.
    pub open spec fn king_placed(self) -> bool {
        match self.king {
            Some(k) => self.at(k) == Space::King && forall|i: int|
                0 <= i < self.spaces@.len() && #[trigger] self.spaces@[i] == Space::King ==> i
                    == cell(self.n(), k.x as int, k.y as int),
            None => forall|i: int|
                0 <= i < self.spaces@.len() ==> #[trigger] self.spaces@[i] != Space::King,
        }
    }

    /// No side has more pieces than it starts with.
    pub open spec fn counts_ok(self) -> bool {
        &&& count(self.spaces@, Space::Attacker) <= attackers_at_start(self.n())
        &&& count(self.spaces@, Space::Defender) <= defenders_at_start(self.n())
    }

    /// The captured counters agree with the pieces left on the board.
    pub open spec fn counters_agree(self) -> bool {
        &&& self.attackers_captured == attackers_at_start(self.n()) - count(
            self.spaces@,
            Space::Attacker,
        )
        &&& self.defenders_captured == defenders_at_start(self.n()) - count(
            self.spaces@,
            Space::Defender,
        )
    }

    /// The size of the board.
    pub fn size(&self) -> (r: BoardSize)
        requires
            self.spaces@.len() == 121 || self.spaces@.len() == 169,
        ensures
            r == self.spec_size(),
            r.n() == self.n(),
    {
        if self.spaces.len() == 121 {
            BoardSize::_11
        } else {
            BoardSize::_13
        }
    }

    /// The square at a vertex, counted on this board's rows.
    pub fn get(&self, vertex: &Vertex) -> (r: Space)
        requires
            self.spaces@.len() == 121 || self.spaces@.len() == 169,
            0 <= cell(self.n(), vertex.x as int, vertex.y as int) < self.spaces@.len(),
        ensures
            r == self.at(*vertex),
    {
        if self.spaces.len() == 121 {
            self.spaces[vertex.y * 11 + vertex.x]
        } else {
            self.spaces[vertex.y * 13 + vertex.x]
        }
    }

    /// Puts `space` on the square at a vertex.
    pub(crate) fn set(&mut self, vertex: &Vertex, space: Space)
        requires
            old(self).spaces@.len() == 121 || old(self).spaces@.len() == 169,
            0 <= cell(old(self).n(), vertex.x as int, vertex.y as int) < old(self).spaces@.len(),
        ensures
            final(self).spaces@ == old(self).spaces@.update(
                cell(old(self).n(), vertex.x as int, vertex.y as int),
                space,
            ),
            final(self).king == old(self).king,
            final(self).attackers_captured == old(self).attackers_captured,
            final(self).defenders_captured == old(self).defenders_captured,
            final(self).display_ascii == old(self).display_ascii,
    {
        let i = if self.spaces.len() == 121 {
            vertex.y * 11 + vertex.x
        } else {
            vertex.y * 13 + vertex.x
        };
        self.spaces.set(i, space);
    }

    /// Puts `space` on a square unless the king stands there; says whether
    /// it did.
    pub(crate) fn set_if_not_king(&mut self, vertex: &Vertex, space: Space) -> (r: bool)
        requires
            old(self).spaces@.len() == 121 || old(self).spaces@.len() == 169,
            0 <= cell(old(self).n(), vertex.x as int, vertex.y as int) < old(self).spaces@.len(),
        ensures
            r == (old(self).at(*vertex) != Space::King),
            r ==> final(self).spaces@ == old(self).spaces@.update(
                cell(old(self).n(), vertex.x as int, vertex.y as int),
                space,
            ),
            !r ==> final(self).spaces@ == old(self).spaces@,
            final(self).king == old(self).king,
            final(self).attackers_captured == old(self).attackers_captured,
            final(self).defenders_captured == old(self).defenders_captured,
            final(self).display_ascii == old(self).display_ascii,
    {
        if self.get(vertex) == Space::King {
            false
        } else {
            self.set(vertex, space);
            true
        }
    }

    /// How many pieces of each side are off the board, and whether the king is.
    pub fn captured(&self) -> (c: Captured)
        requires
            self.spaces@.len() == 121 || self.spaces@.len() == 169,
            self.counts_ok(),
        ensures
            c.attacker == attackers_at_start(self.n()) - count(self.spaces@, Space::Attacker),
            c.defender == defenders_at_start(self.n()) - count(self.spaces@, Space::Defender),
            c.king == (count(self.spaces@, Space::King) == 0),
    {
        let mut attacker: usize = 0;
        let mut defender: usize = 0;
        let mut king = true;
        let mut i: usize = 0;
        while i < self.spaces.len()
            invariant
                i <= self.spaces@.len(),
                self.spaces@.len() <= 169,
                attacker == count(self.spaces@.take(i as int), Space::Attacker),
                defender == count(self.spaces@.take(i as int), Space::Defender),
                king == (count(self.spaces@.take(i as int), Space::King) == 0),
            decreases self.spaces@.len() - i,
        {
            proof {
                lemma_count_take(self.spaces@, i as int, Space::Attacker);
                lemma_count_take(self.spaces@, i as int, Space::Defender);
                lemma_count_take(self.spaces@, i as int, Space::King);
                lemma_count_bound(self.spaces@.take(i as int), Space::Attacker);
                lemma_count_bound(self.spaces@.take(i as int), Space::Defender);
            }
            match self.spaces[i] {
                Space::Attacker => attacker += 1,
                Space::Empty => {},
                Space::King => king = false,
                Space::Defender => defender += 1,
            }
            i = i + 1;
        }
        assert(self.spaces@.take(i as int) =~= self.spaces@);
        if self.spaces.len() == 121 {
            attacker = 24 - attacker;
            defender = 12 - defender;
        } else {
            attacker = 32 - attacker;
            defender = 16 - defender;
        }
        Captured { attacker, defender, king }
    }

    /// Whether two boards have the same pieces on the same squares.
    pub fn same_spaces(&self, other: &Board) -> (r: bool)
        ensures
            r == (self.spaces@ == other.spaces@),
    {
        if self.spaces.len() != other.spaces.len() {
            return false;
        }
        let mut i: usize = 0;
        while i < self.spaces.len()
            invariant
                self.spaces@.len() == other.spaces@.len(),
                i <= self.spaces@.len(),
                forall|j: int| 0 <= j < i ==> self.spaces@[j] == other.spaces@[j],
            decreases self.spaces@.len() - i,
        {
            if self.spaces[i] != other.spaces[i] {
                return false;
            }
            i = i + 1;
        }
        assert(self.spaces@ =~= other.spaces@);
        true
    }

    /// A copy of the board.
    pub fn copy(&self) -> (b: Board)
        ensures
            b.equals(*self),
    {
        let mut spaces: Vec<Space> = Vec::new();
        let mut i: usize = 0;
        while i < self.spaces.len()
            invariant
                i <= self.spaces@.len(),
                spaces@ == self.spaces@.take(i as int),
            decreases self.spaces@.len() - i,
        {
            spaces.push(self.spaces[i]);
            i = i + 1;
            assert(spaces@ =~= self.spaces@.take(i as int));
        }
        assert(spaces@ =~= self.spaces@);
        Board {
            spaces,
            king: self.king,
            attackers_captured: self.attackers_captured,
            defenders_captured: self.defenders_captured,
            display_ascii: self.display_ascii,
        }
    }

    /// The starting position of a board of the given size.
    pub fn new(board_size: BoardSize) -> (b: Board)
        ensures
            b.wf(),
            b.spec_size() == board_size,
            b.spaces@ == start_spaces(board_size),
            b.king == Some(
                Vertex {
                    size: board_size,
                    x: (board_size.n() / 2) as usize,
                    y: (board_size.n() / 2) as usize,
                },
            ),
            b.attackers_captured == 0,
            b.defenders_captured == 0,
            !b.display_ascii,
    {
        match board_size {
            BoardSize::_11 => board_11x11(),
            BoardSize::_13 => board_13x13(),
        }
    }
}

/// The starting position of the 11 by 11 board.
pub fn board_11x11() -> (b: Board)
    ensures
        b.wf(),
        b.spaces@ == rows_spaces(start_rows_11()),
        b.spaces@.len() == 121,
        b.king == Some(Vertex { size: BoardSize::_11, x: 5, y: 5 }),
        b.attackers_captured == 0,
        b.defenders_captured == 0,
        !b.display_ascii,
{
    let spaces = start_spaces_11();
    Board {
        spaces,
        attackers_captured: 0,
        defenders_captured: 0,
        king: Some(Vertex { size: BoardSize::_11, x: 5, y: 5 }),
        display_ascii: false,
    }
}

/// The starting position of the 13 by 13 board.
pub fn board_13x13() -> (b: Board)
    ensures
        b.wf(),
        b.spaces@ == rows_spaces(start_rows_13()),
        b.spaces@.len() == 169,
        b.king == Some(Vertex { size: BoardSize::_13, x: 6, y: 6 }),
        b.attackers_captured == 0,
        b.defenders_captured == 0,
        !b.display_ascii,
{
    let spaces = start_spaces_13();
    Board {
        spaces,
        attackers_captured: 0,
        defenders_captured: 0,
        king: Some(Vertex { size: BoardSize::_13, x: 6, y: 6 }),
        display_ascii: false,
    }
}

/// Counting one more square of a sequence adds one when it is of the kind counted.
pub proof fn lemma_count_push(s: Seq<Space>, x: Space, p: Space)
    ensures
        count(s.push(x), p) == count(s, p) + if x == p {
            1nat
        } else {
            0nat
        },
{
    assert(s.push(x).drop_last() =~= s);
}

/// Counting a prefix one square longer.
pub proof fn lemma_count_take(s: Seq<Space>, i: int, p: Space)
    requires
        0 <= i < s.len(),
    ensures
        count(s.take(i + 1), p) == count(s.take(i), p) + if s[i] == p {
            1nat
        } else {
            0nat
        },
{
    assert(s.take(i + 1) =~= s.take(i).push(s[i]));
    lemma_count_push(s.take(i), s[i], p);
}

/// Counting a concatenation.
pub proof fn lemma_count_append(a: Seq<Space>, b: Seq<Space>, p: Space)
    ensures
        count(a + b, p) == count(a, p) + count(b, p),
    decreases b.len(),
{
    if b.len() == 0 {
        assert(a + b =~= a);
    } else {
        lemma_count_append(a, b.drop_last(), p);
        assert((a + b).drop_last() =~= a + b.drop_last());
    }
}

/// Changing one square changes the count by what left and what came.
pub proof fn lemma_count_update(s: Seq<Space>, i: int, x: Space, p: Space)
    requires
        0 <= i < s.len(),
    ensures
        count(s.update(i, x), p) + (if s[i] == p {
            1nat
        } else {
            0nat
        }) == count(s, p) + (if x == p {
            1nat
        } else {
            0nat
        }),
    decreases s.len(),
{
    if i == s.len() - 1 {
        assert(s.update(i, x).drop_last() =~= s.drop_last());
    } else {
        lemma_count_update(s.drop_last(), i, x, p);
        assert(s.update(i, x).drop_last() =~= s.drop_last().update(i, x));
    }
}

/// A count is never more than the length.
pub proof fn lemma_count_bound(s: Seq<Space>, p: Space)
    ensures
        count(s, p) <= s.len(),
    decreases s.len(),
{
    if s.len() > 0 {
        lemma_count_bound(s.drop_last(), p);
    }
}

/// Appends the squares of one row of a board diagram.
fn push_row(v: &mut Vec<Space>, row: &str)
    requires
        forall|i: int| 0 <= i < row@.len() ==> (#[trigger] Space::spec_from_char(row@[i])) is Some,
    ensures
        final(v)@ == old(v)@ + row_spaces(row@),
{
    let len = row.unicode_len();
    let mut i: usize = 0;
    while i < len
        invariant
            len == row@.len(),
            i <= len,
            forall|j: int| 0 <= j < row@.len() ==> (#[trigger] Space::spec_from_char(row@[j])) is Some,
            v@ == old(v)@ + row_spaces(row@.take(i as int)),
        decreases len - i,
    {
        let c = row.get_char(i);
        let sp = match Space::try_from_char(c) {
            Ok(sp) => sp,
            Err(_) => {
                assert(Space::spec_from_char(row@[i as int]) is Some);
                i = i + 1;
                continue;
            },
        };
        v.push(sp);
        assert(row_spaces(row@.take(i + 1)) =~= row_spaces(row@.take(i as int)).push(sp));
        i = i + 1;
    }
    assert(row@.take(len as int) =~= row@);
}

/// The squares of the starting position of the 11 by 11 board.
fn start_spaces_11() -> (v: Vec<Space>)
    ensures
        v@ == rows_spaces(start_rows_11()),
        v@.len() == 121,
{
    let mut v: Vec<Space> = Vec::new();
    proof {
        reveal_strlit("...XXXXX...");
        reveal_strlit(".....X.....");
        reveal_strlit("...........");
        reveal_strlit("X....O....X");
        reveal_strlit("X...OOO...X");
        reveal_strlit("XX.OOKOO.XX");
    }
    push_row(&mut v, "...XXXXX...");
    push_row(&mut v, ".....X.....");
    push_row(&mut v, "...........");
    push_row(&mut v, "X....O....X");
    push_row(&mut v, "X...OOO...X");
    push_row(&mut v, "XX.OOKOO.XX");
    push_row(&mut v, "X...OOO...X");
    push_row(&mut v, "X....O....X");
    push_row(&mut v, "...........");
    push_row(&mut v, ".....X.....");
    push_row(&mut v, "...XXXXX...");
    proof {
        reveal_with_fuel(rows_spaces, 12);
        assert(v@ =~= rows_spaces(start_rows_11()));
    }
    v
}

/// The squares of the starting position of the 13 by 13 board.
fn start_spaces_13() -> (v: Vec<Space>)
    ensures
        v@ == rows_spaces(start_rows_13()),
        v@.len() == 169,
{
    let mut v: Vec<Space> = Vec::new();
    proof {
        reveal_strlit("...XXXXXXX...");
        reveal_strlit("......X......");
        reveal_strlit(".............");
        reveal_strlit("X.....O.....X");
        reveal_strlit("X....OOO....X");
        reveal_strlit("XX.OOOKOOO.XX");
    }
    push_row(&mut v, "...XXXXXXX...");
    push_row(&mut v, "......X......");
    push_row(&mut v, ".............");
    push_row(&mut v, "X.....O.....X");
    push_row(&mut v, "X.....O.....X");
    push_row(&mut v, "X....OOO....X");
    push_row(&mut v, "XX.OOOKOOO.XX");
    push_row(&mut v, "X....OOO....X");
    push_row(&mut v, "X.....O.....X");
    push_row(&mut v, "X.....O.....X");
    push_row(&mut v, ".............");
    push_row(&mut v, "......X......");
    push_row(&mut v, "...XXXXXXX...");
    proof {
        reveal_with_fuel(rows_spaces, 14);
        assert(v@ =~= rows_spaces(start_rows_13()));
    }
    v
}


/// The number of squares in `k` rows of a board with `n` squares to a side.
pub open spec fn rows_area(k: int, n: nat) -> int {
    if n == 11 {
        k * 11
    } else {
        k * 13
    }
}

/// In a diagram whose rows all have `n` characters, the square in column `x` of row `y` is
/// the one its character stands for.
pub proof fn lemma_rows_spaces_at(rows: Seq<Seq<char>>, n: nat, y: int, x: int)
    requires
        n == 11 || n == 13,
        forall|i: int| 0 <= i < rows.len() ==> #[trigger] rows[i].len() == n,
        0 <= y < rows.len(),
        0 <= x < n,
    ensures
        rows_spaces(rows).len() == rows_area(rows.len() as int, n),
        rows_spaces(rows)[cell(n, x, y)] == Space::spec_from_char(rows[y][x]).unwrap(),
    decreases rows.len(),
{
    lemma_rows_spaces_len(rows, n);
    let a = rows_spaces(rows.drop_last());
    let b = row_spaces(rows.last());
    lemma_rows_spaces_len(rows.drop_last(), n);
    assert(rows_spaces(rows) == a + b);
    if y < rows.len() - 1 {
        assert forall|i: int| 0 <= i < rows.drop_last().len() implies #[trigger] rows.drop_last()[i].len() == n by {
            assert(rows.drop_last()[i] == rows[i]);
        }
        lemma_rows_spaces_at(rows.drop_last(), n, y, x);
        assert(rows.drop_last()[y] == rows[y]);
    } else {
        assert(b[x] == Space::spec_from_char(rows.last()[x]).unwrap());
    }
}

/// A diagram of `k` rows of `n` characters gives `k` times `n` squares.
pub proof fn lemma_rows_spaces_len(rows: Seq<Seq<char>>, n: nat)
    requires
        n == 11 || n == 13,
        forall|i: int| 0 <= i < rows.len() ==> #[trigger] rows[i].len() == n,
    ensures
        rows_spaces(rows).len() == rows_area(rows.len() as int, n),
    decreases rows.len(),
{
    if rows.len() > 0 {
        assert forall|i: int| 0 <= i < rows.drop_last().len() implies #[trigger] rows.drop_last()[i].len() == n by {
            assert(rows.drop_last()[i] == rows[i]);
        }
        lemma_rows_spaces_len(rows.drop_last(), n);
    }
}

} // verus!

