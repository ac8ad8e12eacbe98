use vstd::prelude::*;

use colored::Colorize;

use crate::board::{cell, Board};
use crate::play::Vertex;
use crate::space::Space;
use crate::text::{decimal, push_char, push_decimal, push_str};

verus! {

/// The column letters, each after a space.
pub const BOARD_LETTERS: &'static str = " A B C D E F G H I J K L M ";

/// The line of column letters over and under a board with `n` columns.
pub open spec fn letters_line(n: nat) -> Seq<char> {
    "   "@ + BOARD_LETTERS@.subrange(0, 2 * n as int)
}

/// The horizontal frame line of a board with `n` columns.
pub open spec fn bar(n: nat) -> Seq<char> {
    Seq::new(2 * n + 1, |i: int| '─')
}

/// A row number right-aligned in two places.
pub open spec fn label(k: nat) -> Seq<char> {
    if k < 10 {
        seq![' '] + decimal(k)
    } else {
        decimal(k)
    }
}

/// The text of a square followed by a space.
pub open spec fn square_text(b: Board, v: Vertex, mark: Seq<char>) -> Seq<char> {
    (if v.spec_on_restricted_square() && b.at(v) == Space::Empty {
        mark
    } else if b.display_ascii {
        b.at(v).spec_display_ascii()
    } else {
        b.at(v).spec_display()
    }) + seq![' ']
}

/// The texts of the first `x` squares of row `y`.
pub open spec fn row_squares(b: Board, y: int, x: int, mark: Seq<char>) -> Seq<char>
    decreases x,
{
    if x <= 0 {
        seq![]
    } else {
        row_squares(b, y, x - 1, mark) + square_text(
            b,
            Vertex { size: b.spec_size(), x: (x - 1) as usize, y: y as usize },
            mark,
        )
    }
}

/// The text of row `y`: its number, the frame, its squares, the frame and its number again.
pub open spec fn row_line(b: Board, y: int, mark: Seq<char>) -> Seq<char> {
    let k = (b.n() - y) as nat;
    label(k) + "│ "@ + row_squares(b, y, b.n() as int, mark) + "│"@ + label(k) + seq!['\n']
}

/// The texts of the first `y` rows.
pub open spec fn rows_lines(b: Board, y: int, mark: Seq<char>) -> Seq<char>
    decreases y,
{
    if y <= 0 {
        seq![]
    } else {
        rows_lines(b, y - 1, mark) + row_line(b, y - 1, mark)
    }
}

/// The picture of a board: letters, a frame, the rows with their numbers, the frame and the
/// letters again; `mark` stands for an empty throne or corner.
pub open spec fn board_text(b: Board, mark: Seq<char>) -> Seq<char> {
    let n = b.n();
    seq!['\n'] + letters_line(n) + "\n  ┌"@ + bar(n) + "┐\n"@ + rows_lines(b, n as int, mark) + "  └"@
        + bar(n) + "┘\n"@ + letters_line(n)
}

/// The green escape code that a terminal shows text in.
pub open spec fn green_text(text: Seq<char>) -> Seq<char> {
    "\u{1b}[32m"@ + text + "\u{1b}[0m"@
}

/// colored's `Colorize::green` on a one-character text, shown with `Display`: colored prints
/// the text in green escape codes when it colours output (which it decides from the
/// environment and the terminal), and plain otherwise.
#[verifier::external_body]
fn green(mark: &str) -> (s: String)
    requires
        mark@.len() == 1,
        mark@[0] != '\u{1b}',
    ensures
        s@ == mark@ || s@ == green_text(mark@),
{
    mark.green().to_string()
}

/// Appends the line of column letters.
fn push_letters(s: &mut String, n: usize)
    requires
        n == 11 || n == 13,
    ensures
        final(s)@ == old(s)@ + letters_line(n as nat),
{
    proof {
        reveal_strlit(" A B C D E F G H I J K L M ");
    }
    push_str(s, "   ");
    push_str(s, BOARD_LETTERS.substring_ascii(0, 2 * n));
    assert(s@ =~= old(s)@ + letters_line(n as nat));
}

/// Appends the frame line.
fn push_bar(s: &mut String, n: usize)
    requires
        n == 11 || n == 13,
    ensures
        final(s)@ == old(s)@ + bar(n as nat),
{
    let ghost s0 = s@;
    let mut i: usize = 0;
    while i < 2 * n + 1
        invariant
            n == 11 || n == 13,
            i <= 2 * n + 1,
            s@ == s0 + Seq::new(i as nat, |j: int| '─'),
        decreases 2 * n + 1 - i,
    {
        push_char(s, '─');
        i = i + 1;
        assert(s@ =~= s0 + Seq::new(i as nat, |j: int| '─'));
    }
}

/// Appends a row number right-aligned in two places.
fn push_label(s: &mut String, k: usize)
    ensures
        final(s)@ == old(s)@ + label(k as nat),
{
    if k < 10 {
        push_char(s, ' ');
        push_decimal(s, k as u128);
        assert(s@ =~= old(s)@ + label(k as nat));
    } else {
        push_decimal(s, k as u128);
    }
}

impl Board {
    /// Appends the text of row `y`.
    fn push_row_line(&self, s: &mut String, y: usize, mark: &str)
        requires
            self.wf(),
            y < self.n(),
        ensures
            final(s)@ == old(s)@ + row_line(*self, y as int, mark@),
    {
        let size = self.size();
        let n = size.to_usize();
        push_label(s, n - y);
        push_str(s, "│ ");
        let ghost mid = s@;
        let mut x: usize = 0;
        while x < n
            invariant
                self.wf(),
                n == self.n(),
                size == self.spec_size(),
                y < n,
                x <= n,
                s@ == mid + row_squares(*self, y as int, x as int, mark@),
            decreases n - x,
        {
            let v = Vertex { size, x, y };
            let space = self.get(&v);
            if v.on_restricted_square() && space == Space::Empty {
                push_str(s, mark);
            } else if self.display_ascii {
                push_str(s, space.display_ascii());
            } else {
                push_str(s, space.display());
            }
            push_char(s, ' ');
            assert(s@ =~= mid + row_squares(*self, y as int, x as int + 1, mark@));
            x = x + 1;
        }
        push_str(s, "│");
        push_label(s, n - y);
        push_char(s, '\n');
        assert(s@ =~= old(s)@ + row_line(*self, y as int, mark@));
    }

    /// The picture of the board, with `mark` for an empty throne or corner.
    pub fn display_with(&self, mark: &str) -> (s: String)
        requires
            self.wf(),
        ensures
            s@ == board_text(*self, mark@),
    {
        let size = self.size();
        let n = size.to_usize();
        let mut s = String::new();
        push_char(&mut s, '\n');
        push_letters(&mut s, n);
        push_str(&mut s, "\n  ┌");
        push_bar(&mut s, n);
        push_str(&mut s, "┐\n");
        let ghost head = s@;
        let mut y: usize = 0;
        while y < n
            invariant
                self.wf(),
                n == self.n(),
                y <= n,
                s@ == head + rows_lines(*self, y as int, mark@),
            decreases n - y,
        {
            self.push_row_line(&mut s, y, mark);
            assert(s@ =~= head + rows_lines(*self, y as int + 1, mark@));
            y = y + 1;
        }
        push_str(&mut s, "  └");
        push_bar(&mut s, n);
        push_str(&mut s, "┘\n");
        push_letters(&mut s, n);
        assert(s@ =~= board_text(*self, mark@));
        s
    }

    /// The picture of the board: letters, a frame, the rows with their numbers, the frame and
    /// the letters again; an empty throne or corner shows as `⌘` (`#` in ASCII), green when
    /// colored colours the output.
    pub fn to_string(&self) -> (s: String)
        requires
            self.wf(),
        ensures
            ({
                let m = if self.display_ascii {
                    "#"@
                } else {
                    "⌘"@
                };
                s@ == board_text(*self, m) || s@ == board_text(*self, green_text(m))
            }),
    {
        proof {
            reveal_strlit("#");
            reveal_strlit("⌘");
        }
        let mark = if self.display_ascii {
            green("#")
        } else {
            green("⌘")
        };
        self.display_with(mark.as_str())
    }

    /// The board as a diagram of rows in quotes, `X` for an attacker, `O` a defender, `K` the
    /// king and `.` an empty square.
    pub open spec fn diagram_rows(self, y: int) -> Seq<char>
        decreases y,
    {
        if y <= 0 {
            seq![]
        } else {
            self.diagram_rows(y - 1) + seq!['"'] + Seq::new(
                self.n(),
                |x: int| self.at_xy(x, y - 1).spec_diagram_char(),
            ) + "\"\n"@
        }
    }

    /// The board as a diagram: a blank line, then each row in quotes.
    #[verifier::loop_isolation(false)]
    pub fn to_debug_string(&self) -> (s: String)
        requires
            self.wf(),
        ensures
            s@ == seq!['\n'] + self.diagram_rows(self.n() as int),
    {
        let n = self.size().to_usize();
        let mut s = String::new();
        push_char(&mut s, '\n');
        let mut y: usize = 0;
        while y < n
            invariant
                self.wf(),
                n == self.n(),
                y <= n,
                s@ == seq!['\n'] + self.diagram_rows(y as int),
            decreases n - y,
        {
            let ghost before = s@;
            push_char(&mut s, '"');
            let mut x: usize = 0;
            while x < n
                invariant
                    self.wf(),
                    n == self.n(),
                    y < n,
                    x <= n,
                    s@ == before + seq!['"'] + Seq::new(x as nat, |i: int| self.at_xy(i, y as int).spec_diagram_char()),
                decreases n - x,
            {
                let i = if n == 11 {
                    y * 11 + x
                } else {
                    y * 13 + x
                };
                push_char(&mut s, self.spaces[i].diagram_char());
                x = x + 1;
                assert(s@ =~= before + seq!['"'] + Seq::new(x as nat, |i: int| self.at_xy(i, y as int).spec_diagram_char()));
            }
            push_str(&mut s, "\"\n");
            assert(s@ =~= seq!['\n'] + self.diagram_rows(y as int + 1));
            y = y + 1;
        }
        s
    }
}

} // verus!
