use vstd::prelude::*;

use crate::board::BoardSize;
use crate::opentafl::{ascii_tokens, ascii_tokens_exec, views};
use crate::text::{join_words, push_char, str_chars};

verus! {

/// How large the client draws the board.
#[derive(Clone, Copy, Debug, PartialEq, Eq, Structural)]
pub enum Size {
    Tiny,
    TinyWide,
    Small,
    Medium,
    Large,
    Giant,
}

impl Size {
    /// Small, unless chosen otherwise.
    pub fn default() -> (s: Size)
        ensures
            s == Size::Small,
    {
        Size::Small
    }
}

/// Where the player is in making a move with the mouse.
#[derive(Clone, Copy, Debug, PartialEq, Eq, Structural)]
pub enum Move {
    From,
    To,
    Revert,
    /// No move under way.
    Idle,
}

/// Whether a listed user is logged in.
#[derive(Clone, Copy, Debug, PartialEq, Eq, Structural)]
pub enum LoggedIn {
    No,
    /// Not known.
    Unknown,
    Yes,
}

/// The colours of the client.
#[derive(Clone, Copy, Debug, PartialEq, Eq, Structural)]
pub enum Theme {
    Dark,
    Light,
    Tol,
}

impl Theme {
    /// Dark, unless chosen otherwise.
    pub fn default() -> (t: Theme)
        ensures
            t == Theme::Dark,
    {
        Theme::Dark
    }
}

/// Whether the board shows its coordinates.
#[derive(Clone, Copy, Debug, PartialEq, Eq, Structural)]
pub enum Coordinates {
    Hide,
    Show,
}

impl Coordinates {
    /// Shown, unless chosen otherwise.
    pub fn default() -> (c: Coordinates)
        ensures
            c == Coordinates::Show,
    {
        Coordinates::Show
    }

    /// The other setting.
    pub fn not(self) -> (c: Coordinates)
        ensures
            c != self,
    {
        match self {
            Coordinates::Hide => Coordinates::Show,
            Coordinates::Show => Coordinates::Hide,
        }
    }

    /// Shown when `value` holds.
    pub fn from_bool(value: bool) -> (c: Coordinates)
        ensures
            c == (if value {
                Coordinates::Show
            } else {
                Coordinates::Hide
            }),
    {
        if value {
            Coordinates::Show
        } else {
            Coordinates::Hide
        }
    }

    /// Whether they are shown.
    pub fn to_bool(self) -> (b: bool)
        ensures
            b == (self == Coordinates::Show),
    {
        match self {
            Coordinates::Show => true,
            Coordinates::Hide => false,
        }
    }
}

/// The tabs of the client's window.
#[derive(Clone, Copy, Debug, PartialEq, Eq, Structural)]
pub enum TabId {
    AccountSettings,
    Chat,
    Games,
    GameNew,
    Tournament,
    Users,
}

impl TabId {
    /// The games tab, unless chosen otherwise.
    pub fn default() -> (t: TabId)
        ensures
            t == TabId::Games,
    {
        TabId::Games
    }

    /// The title of the tab.
    pub open spec fn title(self) -> Seq<char> {
        match self {
            TabId::AccountSettings => "Account Settings"@,
            TabId::Chat => "Chat"@,
            TabId::Games => "Games"@,
            TabId::GameNew => "Create Game"@,
            TabId::Tournament => "Tournament"@,
            TabId::Users => "Users"@,
        }
    }

    /// The title of the tab.
    pub fn to_str(&self) -> (s: &'static str)
        ensures
            s@ == self.title(),
    {
        match self {
            TabId::AccountSettings => "Account Settings",
            TabId::Chat => "Chat",
            TabId::Games => "Games",
            TabId::GameNew => "Create Game",
            TabId::Tournament => "Tournament",
            TabId::Users => "Users",
        }
    }
}

/// The loudest sound setting.
pub const MAX_VOLUME: u32 = 8;

/// A sound setting, from 0 to `MAX_VOLUME`.
#[derive(Clone, Copy, Debug, PartialEq, Eq, Structural)]
pub struct Volume(pub u32);

impl Volume {
    /// The middle setting, 4.
    pub fn default() -> (v: Volume)
        ensures
            v.0 == 4,
    {
        Volume(4)
    }
}

/// The words of a message, split at ASCII whitespace, joined again by single spaces.
pub fn text_collect(text: &str) -> (s: String)
    ensures
        s@ == join_words(ascii_tokens(text@)),
{
    let chars = str_chars(text);
    let words = ascii_tokens_exec(&chars);
    let s = join_tokens(&words, 0);
    assert(views(words@).skip(0) == views(words@));
    s
}

/// The words from position `from` on, joined by single spaces.
pub(crate) fn join_tokens(words: &Vec<Vec<char>>, from: usize) -> (s: String)
    requires
        from <= words@.len(),
    ensures
        s@ == join_words(views(words@).skip(from as int)),
{
    let ghost ws = views(words@);
    let mut s = String::new();
    let mut k: usize = from;
    assert(ws.subrange(from as int, from as int) =~= Seq::<Seq<char>>::empty());
    while k < words.len()
        invariant
            from <= k <= words@.len(),
            ws == views(words@),
            s@ == join_words(ws.subrange(from as int, k as int)),
        decreases words@.len() - k,
    {
        let ghost before = s@;
        if k > from {
            push_char(&mut s, ' ');
        }
        let w = &words[k];
        let mut i: usize = 0;
        while i < w.len()
            invariant
                i <= w@.len(),
                s@ == before + (if k > from {
                    seq![' ']
                } else {
                    seq![]
                }) + w@.take(i as int),
            decreases w@.len() - i,
        {
            push_char(&mut s, w[i]);
            i = i + 1;
            assert(s@ == before + (if k > from {
                seq![' ']
            } else {
                seq![]
            }) + w@.take(i as int));
        }
        proof {
            assert(w@.take(w@.len() as int) == w@);
            let t = ws.subrange(from as int, k + 1);
            assert(t.drop_last() =~= ws.subrange(from as int, k as int));
            assert(t.last() == w@);
            if k == from {
                assert(before == Seq::<char>::empty());
                assert(t.len() == 1);
                assert(s@ == w@);
            }
        }
        k = k + 1;
    }
    assert(ws.subrange(from as int, words@.len() as int) =~= ws.skip(from as int));
    s
}

/// The sizes the client draws a board with: the squares, the letters, the pieces and the
/// space between squares.
#[derive(Clone, Copy, Debug, PartialEq, Eq, Structural)]
pub struct Dimensions {
    pub board_dimension: u32,
    pub letter_size: u32,
    pub piece_size: u32,
    pub spacing: u32,
}

/// The sizes for a board of `board_size` on a screen of `screen_size`.
pub open spec fn spec_dimensions(board_size: BoardSize, screen_size: Size) -> (u32, u32, u32, u32) {
    match board_size {
        BoardSize::_11 => match screen_size {
            Size::Large | Size::Giant => (75, 55, 60, 6),
            Size::Medium => (65, 45, 50, 8),
            Size::Small => (55, 35, 40, 11),
            Size::Tiny | Size::TinyWide => (40, 20, 25, 16),
        },
        BoardSize::_13 => match screen_size {
            Size::Large | Size::Giant => (65, 45, 50, 8),
            Size::Medium => (58, 38, 43, 10),
            Size::Small => (50, 30, 35, 12),
            Size::Tiny | Size::TinyWide => (40, 20, 25, 15),
        },
    }
}

impl Dimensions {
    /// The sizes for a board of `board_size` on a screen of `screen_size`: smaller screens
    /// and larger boards get smaller squares.
    pub fn new(board_size: BoardSize, screen_size: &Size) -> (d: Dimensions)
        ensures
            (d.board_dimension, d.letter_size, d.piece_size, d.spacing) == spec_dimensions(
                board_size,
                *screen_size,
            ),
    {
        let (board_dimension, letter_size, piece_size, spacing) = match board_size {
            BoardSize::_11 => match screen_size {
                Size::Large | Size::Giant => (75, 55, 60, 6),
                Size::Medium => (65, 45, 50, 8),
                Size::Small => (55, 35, 40, 11),
                Size::Tiny | Size::TinyWide => (40, 20, 25, 16),
            },
            BoardSize::_13 => match screen_size {
                Size::Large | Size::Giant => (65, 45, 50, 8),
                Size::Medium => (58, 38, 43, 10),
                Size::Small => (50, 30, 35, 12),
                Size::Tiny | Size::TinyWide => (40, 20, 25, 15),
            },
        };
        Dimensions { board_dimension, letter_size, piece_size, spacing }
    }
}

} // verus!
