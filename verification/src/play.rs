use vstd::prelude::*;

use crate::board::{cell, BoardSize};
use crate::role::{lowercase, spec_role_from_lowercase, Role, RoleError};
use crate::time::{spec_time_left, TimeLeft, TimeSettings};
use crate::text::{
    digit_value, digits_value, is_digit, parse_unsigned, push_char, push_decimal, str_eq,
    unsigned_digits,
};

verus! {

/// A square of the board: column `x` from the left, row `y` from the top.
#[derive(Clone, Copy, Debug, PartialEq, Eq, Structural, Hash)]
pub struct Vertex {
    pub size: BoardSize,
    pub x: usize,
    pub y: usize,
}

/// Why a text is no vertex.
#[derive(Clone, Copy, Debug, PartialEq, Eq, Structural)]
pub enum VertexError {
    /// The first letter names no column.
    IllegalLetter,
    /// What follows the letter is no number.
    NotANumber,
    /// The text is empty, or the row is off the board.
    InvalidCoordinate,
}

/// The column letter that stands first in a vertex's name, with the board size it belongs to.
pub open spec fn column_of(c: char) -> Option<(BoardSize, nat)> {
    if 'a' <= c && c <= 'k' {
        Some((BoardSize::_11, (c as u32 - 'a' as u32) as nat))
    } else if 'A' <= c && c <= 'M' {
        Some((BoardSize::_13, (c as u32 - 'A' as u32) as nat))
    } else {
        None
    }
}

/// What reading `s` as a vertex gives: a column letter (`a`-`k` on the 11 by 11 board, `A`-`M`
/// on the 13 by 13 board) and a row number counted from the bottom.
pub open spec fn spec_vertex_from_str(s: Seq<char>) -> Result<Vertex, VertexError> {
    if s.len() == 0 {
        Err(VertexError::InvalidCoordinate)
    } else {
        match column_of(s[0]) {
            None => Err(VertexError::IllegalLetter),
            Some((size, x)) => match parse_unsigned(s.drop_first()) {
                None => Err(VertexError::NotANumber),
                Some(row) => if row > usize::MAX {
                    Err(VertexError::NotANumber)
                } else if 1 <= row && row <= size.n() {
                    Ok(Vertex { size, x: x as usize, y: (size.n() - row) as usize })
                } else {
                    Err(VertexError::InvalidCoordinate)
                },
            },
        }
    }
}

/// The lowercase column letters of the 11 by 11 board, then `l` and `m`.
pub open spec fn lower_letter(x: nat) -> char {
    ('a' as u32 + x) as char
}

/// The uppercase column letters.
pub open spec fn upper_letter(x: nat) -> char {
    ('A' as u32 + x) as char
}

impl Vertex {
    /// The number of squares along a side of the vertex's board.
    pub open spec fn n(self) -> nat {
        self.size.n()
    }

    /// The vertex lies on its board.
    pub open spec fn valid(self) -> bool {
        self.x < self.n() && self.y < self.n()
    }

    /// The name of the vertex: its column letter, lowercase on the 11 by 11 board and
    /// uppercase on the 13 by 13 board, then its row counted from the bottom.
    pub open spec fn name(self) -> Seq<char> {
        seq![
            if self.size == BoardSize::_11 {
                lower_letter(self.x as nat)
            } else {
                upper_letter(self.x as nat)
            },
        ] + crate::text::decimal((self.n() - self.y) as nat)
    }

    /// The index of the vertex in the row-by-row list of squares.
    pub open spec fn spec_index(self) -> int {
        cell(self.n(), self.x as int, self.y as int)
    }

    pub open spec fn spec_up(self) -> Option<Vertex> {
        if self.y > 0 {
            Some(Vertex { size: self.size, x: self.x, y: (self.y - 1) as usize })
        } else {
            None
        }
    }

    pub open spec fn spec_left(self) -> Option<Vertex> {
        if self.x > 0 {
            Some(Vertex { size: self.size, x: (self.x - 1) as usize, y: self.y })
        } else {
            None
        }
    }

    pub open spec fn spec_down(self) -> Option<Vertex> {
        if self.y + 1 < self.n() {
            Some(Vertex { size: self.size, x: self.x, y: (self.y + 1) as usize })
        } else {
            None
        }
    }

    pub open spec fn spec_right(self) -> Option<Vertex> {
        if self.x + 1 < self.n() {
            Some(Vertex { size: self.size, x: (self.x + 1) as usize, y: self.y })
        } else {
            None
        }
    }

    pub open spec fn spec_touches_wall(self) -> bool {
        self.x == 0 || self.x + 1 == self.n() || self.y == 0 || self.y + 1 == self.n()
    }

    /// The throne is the middle square.
    pub open spec fn spec_on_throne(self) -> bool {
        self.x == self.n() / 2 && self.y == self.n() / 2
    }

    /// The exit squares are the four corners.
    pub open spec fn spec_on_exit_square(self) -> bool {
        (self.x == 0 || self.x + 1 == self.n()) && (self.y == 0 || self.y + 1 == self.n())
    }

    /// Only the king may stand on the throne and the corners.
    pub open spec fn spec_on_restricted_square(self) -> bool {
        self.spec_on_throne() || self.spec_on_exit_square()
    }

    /// The square above, if there is one.
    pub fn up(&self) -> (r: Option<Vertex>)
        ensures
            r == self.spec_up(),
    {
        if self.y > 0 {
            Some(Vertex { size: self.size, x: self.x, y: self.y - 1 })
        } else {
            None
        }
    }

    /// The square to the left, if there is one.
    pub fn left(&self) -> (r: Option<Vertex>)
        ensures
            r == self.spec_left(),
    {
        if self.x > 0 {
            Some(Vertex { size: self.size, x: self.x - 1, y: self.y })
        } else {
            None
        }
    }

    /// The square below, if there is one.
    pub fn down(&self) -> (r: Option<Vertex>)
        ensures
            r == self.spec_down(),
    {
        if self.y < self.size.to_usize() - 1 {
            Some(Vertex { size: self.size, x: self.x, y: self.y + 1 })
        } else {
            None
        }
    }

    /// The square to the right, if there is one.
    pub fn right(&self) -> (r: Option<Vertex>)
        ensures
            r == self.spec_right(),
    {
        if self.x < self.size.to_usize() - 1 {
            Some(Vertex { size: self.size, x: self.x + 1, y: self.y })
        } else {
            None
        }
    }

    /// The vertex lies on an edge of the board.
    pub fn touches_wall(&self) -> (r: bool)
        ensures
            r == self.spec_touches_wall(),
    {
        let last = self.size.to_usize() - 1;
        self.x == 0 || self.x == last || self.y == 0 || self.y == last
    }

    pub fn on_throne(&self) -> (r: bool)
        ensures
            r == self.spec_on_throne(),
    {
        let middle = self.size.to_usize() / 2;
        self.x == middle && self.y == middle
    }

    pub fn on_exit_square(&self) -> (r: bool)
        ensures
            r == self.spec_on_exit_square(),
    {
        let last = self.size.to_usize() - 1;
        (self.x == 0 || self.x == last) && (self.y == 0 || self.y == last)
    }

    pub fn on_restricted_square(&self) -> (r: bool)
        ensures
            r == self.spec_on_restricted_square(),
    {
        self.on_throne() || self.on_exit_square()
    }

    /// The index of the vertex in the row-by-row list of squares.
    pub fn index(&self) -> (r: usize)
        requires
            self.valid(),
        ensures
            r == self.spec_index(),
            0 <= r < self.n() * self.n(),
    {
        match self.size {
            BoardSize::_11 => self.y * 11 + self.x,
            BoardSize::_13 => self.y * 13 + self.x,
        }
    }

    /// Reads a vertex such as `a1` (11 by 11) or `M13` (13 by 13).
    pub fn from_str(s: &str) -> (r: Result<Vertex, VertexError>)
        ensures
            r == spec_vertex_from_str(s@),
            r matches Ok(v) ==> v.valid(),
    {
        let len = s.unicode_len();
        if len == 0 {
            return Err(VertexError::InvalidCoordinate);
        }
        let c = s.get_char(0);
        let (size, x): (BoardSize, usize) = if c >= 'a' && c <= 'k' {
            (BoardSize::_11, (c as u32 - 'a' as u32) as usize)
        } else if c >= 'A' && c <= 'M' {
            (BoardSize::_13, (c as u32 - 'A' as u32) as usize)
        } else {
            return Err(VertexError::IllegalLetter);
        };
        assert(column_of(s@[0]) == Some((size, x as nat)));
        let ghost rest = s@.drop_first();
        let mut start: usize = 1;
        if len > 1 && s.get_char(1) == '+' {
            start = 2;
        }
        let ghost digits = s@.subrange(start as int, len as int);
        assert(digits =~= unsigned_digits(rest));
        if start >= len {
            assert(digits.len() == 0);
            assert(rest =~= s@.drop_first());
            assert(parse_unsigned(s@.drop_first()) is None);
            assert(s@.len() != 0);
            assert(spec_vertex_from_str(s@) == Err::<Vertex, VertexError>(VertexError::NotANumber));
            return Err(VertexError::NotANumber);
        }
        // The value read so far, unless it no longer fits.
        let mut value: usize = 0;
        let mut over = false;
        let mut i: usize = start;
        while i < len
            invariant
                len == s@.len(),
                1 <= start <= i <= len,
                digits == s@.subrange(start as int, len as int),
                s@.len() > 0,
                column_of(s@[0]) == Some((size, x as nat)),
                digits == unsigned_digits(rest),
                rest == s@.drop_first(),
                forall|j: int| start <= j < i ==> is_digit(#[trigger] s@[j]),
                !over ==> value == digits_value(s@.subrange(start as int, i as int)),
                over ==> digits_value(s@.subrange(start as int, i as int)) > usize::MAX,
            decreases len - i,
        {
            let d = s.get_char(i);
            if !(d >= '0' && d <= '9') {
                assert(!is_digit(digits[i - start]));
                assert(!(forall|j: int| 0 <= j < digits.len() ==> is_digit(#[trigger] digits[j])));
                assert(parse_unsigned(s@.drop_first()) is None);
                return Err(VertexError::NotANumber);
            }
            let ghost prev = s@.subrange(start as int, i as int);
            assert(s@.subrange(start as int, i + 1) =~= prev.push(d));
            assert(digits_value(prev.push(d)) == digits_value(prev) * 10 + digit_value(d)) by {
                assert(prev.push(d).drop_last() =~= prev);
            }
            let dv = (d as u32 - '0' as u32) as usize;
            if !over {
                match value.checked_mul(10) {
                    Some(m) => match m.checked_add(dv) {
                        Some(v2) => {
                            value = v2;
                        },
                        None => {
                            over = true;
                        },
                    },
                    None => {
                        over = true;
                    },
                }
            } else {
                assert(digits_value(prev) * 10 + digit_value(d) > usize::MAX) by (nonlinear_arith)
                    requires
                        digits_value(prev) > usize::MAX,
                ;
            }
            i = i + 1;
        }
        assert(s@.subrange(start as int, len as int) == digits);
        assert(forall|j: int| 0 <= j < digits.len() ==> is_digit(#[trigger] digits[j])) by {
            assert forall|j: int| 0 <= j < digits.len() implies is_digit(#[trigger] digits[j]) by {
                assert(digits[j] == s@[j + start]);
            }
        }
        if over {
            return Err(VertexError::NotANumber);
        }
        let n = size.to_usize();
        if value < 1 || value > n {
            return Err(VertexError::InvalidCoordinate);
        }
        Ok(Vertex { size, x, y: n - value })
    }

    /// The name of the vertex: lowercase letters on the 11 by 11 board, uppercase on the
    /// 13 by 13 board, then the row counted from the bottom.
    pub fn to_string(&self) -> (s: String)
        requires
            self.x < 13,
            self.y <= self.n(),
        ensures
            s@ == self.name(),
    {
        let mut s = String::new();
        let letter = if self.size == BoardSize::_11 {
            (('a' as u32) + self.x as u32) as u8 as char
        } else {
            (('A' as u32) + self.x as u32) as u8 as char
        };
        push_char(&mut s, letter);
        push_decimal(&mut s, (self.size.to_usize() - self.y) as u128);
        s
    }

    /// The name of the vertex with an uppercase letter on either board.
    pub fn fmt_other(&self) -> (s: String)
        requires
            self.x < 13,
            self.y <= self.n(),
        ensures
            s@ == seq![upper_letter(self.x as nat)] + crate::text::decimal(
                (self.n() - self.y) as nat,
            ),
    {
        let mut s = String::new();
        push_char(&mut s, (('A' as u32) + self.x as u32) as u8 as char);
        push_decimal(&mut s, (self.size.to_usize() - self.y) as u128);
        s
    }
}

/// A move of a piece from one square to another.
#[derive(Clone, Copy, Debug, PartialEq, Eq, Structural, Hash)]
pub struct Play {
    pub role: Role,
    pub from: Vertex,
    pub to: Vertex,
}

/// A turn: a move, or a resignation.
#[derive(Clone, Copy, Debug, PartialEq, Eq, Structural, Hash)]
pub enum Plae {
    Play(Play),
    AttackerResigns,
    DefenderResigns,
}

/// The squares whose pieces a move captured.
#[derive(Clone, Debug)]
pub struct Captures(pub Vec<Vertex>);

impl Captures {
    pub fn default() -> (c: Captures)
        ensures
            c.0@.len() == 0,
    {
        Captures(Vec::new())
    }
}


/// A move, with the time each player had left after it.
#[derive(Clone, Copy, Debug, PartialEq, Eq, Structural, Hash)]
pub struct PlayRecordTimed {
    pub play: Option<Plae>,
    pub attacker_time: TimeLeft,
    pub defender_time: TimeLeft,
}

/// The turns of a game, with both clocks after each when the game is timed.
#[derive(Clone, Debug)]
pub enum Plays {
    PlayRecordsTimed(Vec<PlayRecordTimed>),
    PlayRecords(Vec<Option<Plae>>),
}

impl Plays {
    /// The number of turns recorded.
    pub open spec fn spec_len(self) -> nat {
        match self {
            Plays::PlayRecordsTimed(plays) => plays@.len(),
            Plays::PlayRecords(plays) => plays@.len(),
        }
    }

    /// The two records hold the same turns.
    pub open spec fn same(self, other: Plays) -> bool {
        match (self, other) {
            (Plays::PlayRecordsTimed(a), Plays::PlayRecordsTimed(b)) => a@ == b@,
            (Plays::PlayRecords(a), Plays::PlayRecords(b)) => a@ == b@,
            _ => false,
        }
    }

    /// A copy of the record.
    pub fn copy(&self) -> (p: Plays)
        ensures
            p.same(*self),
    {
        match self {
            Plays::PlayRecordsTimed(plays) => {
                let mut v: Vec<PlayRecordTimed> = Vec::new();
                let mut i: usize = 0;
                while i < plays.len()
                    invariant
                        i <= plays@.len(),
                        v@ == plays@.take(i as int),
                    decreases plays@.len() - i,
                {
                    v.push(plays[i]);
                    i = i + 1;
                    assert(v@ =~= plays@.take(i as int));
                }
                assert(v@ =~= plays@);
                Plays::PlayRecordsTimed(v)
            },
            Plays::PlayRecords(plays) => {
                let mut v: Vec<Option<Plae>> = Vec::new();
                let mut i: usize = 0;
                while i < plays.len()
                    invariant
                        i <= plays@.len(),
                        v@ == plays@.take(i as int),
                    decreases plays@.len() - i,
                {
                    v.push(plays[i]);
                    i = i + 1;
                    assert(v@ =~= plays@.take(i as int));
                }
                assert(v@ =~= plays@);
                Plays::PlayRecords(v)
            },
        }
    }

    /// Whether no turn is recorded.
    pub fn is_empty(&self) -> (r: bool)
        ensures
            r == (self.spec_len() == 0),
    {
        match self {
            Plays::PlayRecordsTimed(plays) => plays.len() == 0,
            Plays::PlayRecords(plays) => plays.len() == 0,
        }
    }

    /// The number of turns recorded.
    pub fn len(&self) -> (r: usize)
        ensures
            r == self.spec_len(),
    {
        match self {
            Plays::PlayRecordsTimed(plays) => plays.len(),
            Plays::PlayRecords(plays) => plays.len(),
        }
    }

    /// An empty record, with clocks when the settings are timed.
    pub fn new(time_settings: &TimeSettings) -> (p: Plays)
        ensures
            p.spec_len() == 0,
            (p is PlayRecordsTimed) == (*time_settings is Timed),
    {
        match time_settings {
            TimeSettings::Timed(_) => Plays::PlayRecordsTimed(Vec::new()),
            TimeSettings::UnTimed => Plays::PlayRecords(Vec::new()),
        }
    }

    /// An empty record with clocks.
    pub fn default() -> (p: Plays)
        ensures
            p.spec_len() == 0,
            p is PlayRecordsTimed,
    {
        Plays::PlayRecordsTimed(Vec::new())
    }

    /// The time the player of `role` had left after the `index`-th turn, or `-` when the game
    /// is not timed.
    pub fn time_left(&self, role: Role, index: usize) -> (s: String)
        requires
            self is PlayRecordsTimed ==> index < self.spec_len() && role != Role::Roleless,
        ensures
            match self {
                Plays::PlayRecordsTimed(plays) => s@ == spec_time_left(
                    if role == Role::Attacker {
                        plays@[index as int].attacker_time.milliseconds_left
                    } else {
                        plays@[index as int].defender_time.milliseconds_left
                    } as int,
                ),
                Plays::PlayRecords(_) => s@ == "-"@,
            },
    {
        match self {
            Plays::PlayRecordsTimed(plays) => match role {
                Role::Attacker => plays[index].attacker_time.to_string(),
                _ => plays[index].defender_time.to_string(),
            },
            Plays::PlayRecords(_) => {
                let mut s = String::new();
                push_char(&mut s, '-');
                proof {
                    reveal_strlit("-");
                }
                assert(s@ =~= "-"@);
                s
            },
        }
    }
}


/// Why a turn could not be read.
#[derive(Clone, Copy, Debug, PartialEq, Eq, Structural)]
pub enum PlaeError {
    /// The text is not two vertices joined by `-`.
    ExpectedVertexVertex,
    /// A vertex could not be read.
    Vertex(VertexError),
}

/// The position of the first `-` in the text, if any.
pub open spec fn first_dash(s: Seq<char>) -> Option<int> {
    if exists|i: int| 0 <= i < s.len() && s[i] == '-' {
        Some(choose|i: int| 0 <= i < s.len() && s[i] == '-' && forall|j: int| 0 <= j < i ==> s[j] != '-')
    } else {
        None
    }
}

/// The turn a text `from-to` stands for, moved by `role`.
pub open spec fn spec_plae_from_str(s: Seq<char>, role: Role) -> Result<Plae, PlaeError> {
    match first_dash(s) {
        None => Err(PlaeError::ExpectedVertexVertex),
        Some(i) => match spec_vertex_from_str(s.subrange(0, i)) {
            Err(e) => Err(PlaeError::Vertex(e)),
            Ok(from) => match spec_vertex_from_str(s.subrange(i + 1, s.len() as int)) {
                Err(e) => Err(PlaeError::Vertex(e)),
                Ok(to) => Ok(Plae::Play(Play { role, from, to })),
            },
        },
    }
}

impl Plae {
    /// Reads a move such as `a4-d4`, moved by `role`: the text is split at its first `-`.
    pub fn from_str_(play: &str, role: &Role) -> (r: Result<Plae, PlaeError>)
        ensures
            r == spec_plae_from_str(play@, *role),
    {
        let len = play.unicode_len();
        let mut i: usize = 0;
        while i < len && play.get_char(i) != '-'
            invariant
                i <= len,
                len == play@.len(),
                forall|j: int| 0 <= j < i ==> play@[j] != '-',
            decreases len - i,
        {
            i = i + 1;
        }
        if i == len {
            proof {
                assert(!(exists|j: int| 0 <= j < play@.len() && play@[j] == '-'));
            }
            return Err(PlaeError::ExpectedVertexVertex);
        }
        proof {
            assert(play@[i as int] == '-');
            let k = choose|k: int|
                0 <= k < play@.len() && play@[k] == '-' && forall|j: int| 0 <= j < k ==> play@[j] != '-';
            assert(k == i as int) by {
                if k < i {
                } else if k > i {
                    assert(play@[i as int] != '-');
                }
            }
        }
        let from = match Vertex::from_str(play.substring_char(0, i)) {
            Ok(v) => v,
            Err(e) => return Err(PlaeError::Vertex(e)),
        };
        let to = match Vertex::from_str(play.substring_char(i + 1, len)) {
            Ok(v) => v,
            Err(e) => return Err(PlaeError::Vertex(e)),
        };
        Ok(Plae::Play(Play { role: *role, from, to }))
    }
}


/// Reading the name of a vertex of its board gives the vertex back.
pub proof fn lemma_vertex_name_round_trip(v: Vertex)
    requires
        v.valid(),
    ensures
        spec_vertex_from_str(v.name()) == Ok::<Vertex, VertexError>(v),
{
    let s = v.name();
    let row = (v.n() - v.y) as nat;
    crate::text::lemma_parse_decimal(row);
    assert(s.drop_first() == crate::text::decimal(row));
    assert(s[0] == if v.size == BoardSize::_11 {
        lower_letter(v.x as nat)
    } else {
        upper_letter(v.x as nat)
    });
}


/// The name a side goes by in a debug print.
pub open spec fn role_debug_name(r: Role) -> Seq<char> {
    match r {
        Role::Attacker => "Attacker"@,
        Role::Defender => "Defender"@,
        Role::Roleless => "Roleless"@,
    }
}

/// The text of a turn as the text protocol writes it, with its line end.
pub open spec fn plae_text(p: Plae) -> Seq<char> {
    match p {
        Plae::Play(play) => "play "@ + play.role.spec_to_str() + " "@ + play.from.name() + " "@
            + play.to.name() + "\n"@,
        Plae::AttackerResigns => "play attacker resigns _\n"@,
        Plae::DefenderResigns => "play defender resigns _\n"@,
    }
}

/// The turns of a record, each indented on a line of its own.
pub open spec fn records_text(records: Seq<Option<Plae>>) -> Seq<char>
    decreases records.len(),
{
    if records.len() == 0 {
        seq![]
    } else {
        records_text(records.drop_last()) + match records.last() {
            Some(p) => "    "@ + plae_text(p),
            None => seq![],
        }
    }
}

/// The vertices, each followed by a space.
pub open spec fn vertices_text(vs: Seq<Vertex>) -> Seq<char>
    decreases vs.len(),
{
    if vs.len() == 0 {
        seq![]
    } else {
        vertices_text(vs.drop_last()) + vs.last().name() + " "@
    }
}

impl Play {
    /// The move as `Attacker from a4 to d4`.
    pub fn to_string(&self) -> (s: String)
        requires
            self.from.valid(),
            self.to.valid(),
        ensures
            s@ == role_debug_name(self.role) + " from "@ + self.from.name() + " to "@
                + self.to.name(),
    {
        let mut s = String::new();
        let name = match self.role {
            Role::Attacker => "Attacker",
            Role::Defender => "Defender",
            Role::Roleless => "Roleless",
        };
        crate::text::push_str(&mut s, name);
        crate::text::push_str(&mut s, " from ");
        crate::text::push_str(&mut s, self.from.to_string().as_str());
        crate::text::push_str(&mut s, " to ");
        crate::text::push_str(&mut s, self.to.to_string().as_str());
        s
    }
}

impl Plae {
    /// The turn as the text protocol writes it: `play attacker a4 d4` or
    /// `play attacker resigns _`, with a line end.
    pub fn to_string(&self) -> (s: String)
        requires
            self matches Plae::Play(p) ==> p.from.valid() && p.to.valid(),
        ensures
            s@ == plae_text(*self),
    {
        let mut s = String::new();
        match self {
            Plae::Play(play) => {
                crate::text::push_str(&mut s, "play ");
                crate::text::push_str(&mut s, play.role.to_str());
                crate::text::push_str(&mut s, " ");
                crate::text::push_str(&mut s, play.from.to_string().as_str());
                crate::text::push_str(&mut s, " ");
                crate::text::push_str(&mut s, play.to.to_string().as_str());
                crate::text::push_str(&mut s, "\n");
            },
            Plae::AttackerResigns => crate::text::push_str(&mut s, "play attacker resigns _\n"),
            Plae::DefenderResigns => crate::text::push_str(&mut s, "play defender resigns _\n"),
        }
        s
    }
}

impl Captures {
    /// The captured squares, each followed by a space.
    pub fn to_string(&self) -> (s: String)
        requires
            forall|i: int| 0 <= i < self.0@.len() ==> (#[trigger] self.0@[i]).valid(),
        ensures
            s@ == vertices_text(self.0@),
    {
        let mut s = String::new();
        let mut i: usize = 0;
        while i < self.0.len()
            invariant
                i <= self.0@.len(),
                forall|j: int| 0 <= j < self.0@.len() ==> (#[trigger] self.0@[j]).valid(),
                s@ == vertices_text(self.0@.take(i as int)),
            decreases self.0@.len() - i,
        {
            let ghost before = s@;
            crate::text::push_str(&mut s, self.0[i].to_string().as_str());
            crate::text::push_str(&mut s, " ");
            assert(self.0@.take(i as int + 1).drop_last() == self.0@.take(i as int));
            assert(s@ =~= vertices_text(self.0@.take(i as int + 1)));
            i = i + 1;
        }
        assert(self.0@.take(self.0@.len() as int) == self.0@);
        s
    }
}

impl Plays {
    /// The turns recorded, whether or not with clocks.
    pub open spec fn turns(self) -> Seq<Option<Plae>> {
        match self {
            Plays::PlayRecordsTimed(v) => v@.map_values(|r: PlayRecordTimed| r.play),
            Plays::PlayRecords(v) => v@,
        }
    }

    /// The record as the game shows it: when it holds a turn, a line end, then each turn
    /// indented on a line of its own.
    pub fn to_string(&self) -> (s: String)
        requires
            forall|i: int|
                0 <= i < self.turns().len() ==> (#[trigger] self.turns()[i] matches Some(Plae::Play(p))
                    ==> p.from.valid() && p.to.valid()),
        ensures
            s@ == (if self.spec_len() > 0 {
                seq!['\n']
            } else {
                seq![]
            }) + records_text(self.turns()),
    {
        let mut s = String::new();
        let len = self.len();
        if len > 0 {
            push_char(&mut s, '\n');
        }
        let ghost head = s@;
        let ghost turns = self.turns();
        assert(turns.len() == len);
        let mut i: usize = 0;
        while i < len
            invariant
                i <= len,
                turns == self.turns(),
                turns.len() == len,
                forall|k: int|
                    0 <= k < turns.len() ==> (#[trigger] turns[k] matches Some(Plae::Play(p))
                        ==> p.from.valid() && p.to.valid()),
                s@ == head + records_text(turns.take(i as int)),
            decreases len - i,
        {
            let turn = match self {
                Plays::PlayRecordsTimed(v) => v[i].play,
                Plays::PlayRecords(v) => v[i],
            };
            assert(turn == turns[i as int]);
            if let Some(p) = turn {
                crate::text::push_str(&mut s, "    ");
                crate::text::push_str(&mut s, p.to_string().as_str());
            }
            assert(turns.take(i as int + 1).drop_last() == turns.take(i as int));
            assert(s@ =~= head + records_text(turns.take(i as int + 1)));
            i = i + 1;
        }
        assert(turns.take(len as int) == turns);
        s
    }
}

/// Why the words of a `play` command name no turn.
#[derive(Clone, Debug)]
pub enum PlayCommandError {
    /// Too few words: neither `play ROLE FROM TO` nor `play ROLE resigns`.
    Expected,
    /// The second word names no side.
    Role(RoleError),
    /// A square could not be read.
    Vertex(VertexError),
}

/// What the words of a `play` command come to.
#[derive(Clone, Copy, Debug, PartialEq, Eq, Structural)]
pub enum PlayCommand {
    /// Too few words.
    Expected,
    /// The second word names no side.
    BadRole,
    /// A square could not be read.
    BadVertex(VertexError),
    /// The turn the words name.
    Turn(Plae),
}

/// The turn that the words of a `play` command name: `play ROLE resigns`, or
/// `play ROLE FROM TO`; the side in any case.
pub open spec fn spec_play_command(args: Seq<Seq<char>>) -> PlayCommand {
    if args.len() < 3 {
        PlayCommand::Expected
    } else {
        match spec_role_from_lowercase(lowercase(args[1])) {
            None => PlayCommand::BadRole,
            Some(role) => if args[2] == "resigns"@ {
                PlayCommand::Turn(
                    if role == Role::Defender {
                        Plae::DefenderResigns
                    } else {
                        Plae::AttackerResigns
                    },
                )
            } else if args.len() < 4 {
                PlayCommand::Expected
            } else {
                match spec_vertex_from_str(args[2]) {
                    Err(e) => PlayCommand::BadVertex(e),
                    Ok(from) => match spec_vertex_from_str(args[3]) {
                        Err(e) => PlayCommand::BadVertex(e),
                        Ok(to) => PlayCommand::Turn(Plae::Play(Play { role, from, to })),
                    },
                }
            },
        }
    }
}

/// The texts of the words of a command.
pub open spec fn arg_texts(args: Seq<&str>) -> Seq<Seq<char>> {
    args.map_values(|a: &str| a@)
}

impl Plae {
    /// Reads the words of a `play` command: `play ROLE resigns`, or `play ROLE FROM TO`.
    pub fn try_from_args(args: &[&str]) -> (r: Result<Plae, PlayCommandError>)
        ensures
            match spec_play_command(arg_texts(args@)) {
                PlayCommand::Expected => r matches Err(PlayCommandError::Expected),
                PlayCommand::BadRole => r matches Err(PlayCommandError::Role(e)) && e.text@
                    == lowercase(args@[1]@),
                PlayCommand::BadVertex(v) => r matches Err(PlayCommandError::Vertex(w)) && w == v,
                PlayCommand::Turn(p) => r matches Ok(q) && q == p,
            },
    {
        let ghost words = arg_texts(args@);
        if args.len() < 3 {
            return Err(PlayCommandError::Expected);
        }
        assert(words[1] == args@[1]@ && words[2] == args@[2]@);
        let role = match Role::from_str(args[1]) {
            Ok(role) => role,
            Err(e) => return Err(PlayCommandError::Role(e)),
        };
        if str_eq(args[2], "resigns") {
            if role == Role::Defender {
                return Ok(Plae::DefenderResigns);
            }
            return Ok(Plae::AttackerResigns);
        }
        if args.len() < 4 {
            return Err(PlayCommandError::Expected);
        }
        assert(words[3] == args@[3]@);
        let from = match Vertex::from_str(args[2]) {
            Ok(v) => v,
            Err(e) => return Err(PlayCommandError::Vertex(e)),
        };
        let to = match Vertex::from_str(args[3]) {
            Ok(v) => v,
            Err(e) => return Err(PlayCommandError::Vertex(e)),
        };
        Ok(Plae::Play(Play { role, from, to }))
    }
}

} // verus!
