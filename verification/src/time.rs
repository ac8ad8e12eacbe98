use vstd::prelude::*;

use crate::text::{
    decimal, decimal2, parse_i64, push_char, push_decimal, push_decimal2, push_str, spec_parse_i64,
    join_words, str_eq,
};

verus! {

pub const DAY: i64 = 86_400_000;
pub const HOUR: i64 = 3_600_000;
pub const MINUTE: i64 = 60_000;
pub const SECOND: i64 = 1_000;

/// A Fischer clock: the time a player has left, and the seconds added after each move.
#[derive(Clone, Copy, Debug, PartialEq, Eq, Structural, Hash)]
pub struct Time {
    pub add_seconds: i64,
    pub milliseconds_left: i64,
}

/// The clock settings of a game.
#[derive(Clone, Copy, Debug, PartialEq, Eq, Structural, Hash)]
pub enum TimeSettings {
    Timed(Time),
    UnTimed,
}

/// The time a player had left after a move.
#[derive(Clone, Copy, Debug, PartialEq, Eq, Structural, Hash)]
pub struct TimeLeft {
    pub milliseconds_left: i64,
}

/// The preset clock settings a player can pick.
#[derive(Clone, Copy, Debug, PartialEq, Eq, Structural, Hash)]
pub enum TimeEnum {
    Classical,
    Long,
    Rapid,
    VeryLong,
}

/// The settings are not timed, so there is no time left to read.
#[derive(Clone, Copy, Debug, PartialEq, Eq, Structural)]
pub struct UnTimedError;

/// The magnitude of a signed number.
pub open spec fn magnitude(v: int) -> nat {
    if v < 0 {
        (-v) as nat
    } else {
        v as nat
    }
}

/// A part of a clock reading: Rust's `{:02}` of a number with this sign and magnitude.
pub open spec fn padded(negative: bool, m: nat) -> Seq<char> {
    if negative && m != 0 {
        seq!['-'] + decimal(m)
    } else {
        decimal2(m)
    }
}

/// Rust's `{}` of a number with this sign and magnitude.
pub open spec fn signed(negative: bool, m: nat) -> Seq<char> {
    if negative && m != 0 {
        seq!['-'] + decimal(m)
    } else {
        decimal(m)
    }
}

/// `hh:mm:ss` for a magnitude in milliseconds.
pub open spec fn hms(negative: bool, m: nat) -> Seq<char> {
    padded(negative, (m % (DAY as nat)) / (HOUR as nat)) + seq![':'] + padded(
        negative,
        (m % (HOUR as nat)) / (MINUTE as nat),
    ) + seq![':'] + padded(negative, (m % (MINUTE as nat)) / (SECOND as nat))
}

/// The time left on a clock as shown to the players: seconds alone, `mm:ss`, `hh:mm:ss`, or
/// days and `hh:mm:ss`, each part counted as Rust's truncating division does.
pub open spec fn spec_time_left(ms: int) -> Seq<char> {
    let negative = ms < 0;
    let m = magnitude(ms);
    let days = m / (DAY as nat);
    let hours = (m % (DAY as nat)) / (HOUR as nat);
    let minutes = (m % (HOUR as nat)) / (MINUTE as nat);
    let seconds = (m % (MINUTE as nat)) / (SECOND as nat);
    if days == 0 {
        if hours == 0 {
            if minutes == 0 {
                padded(negative, seconds)
            } else {
                padded(negative, minutes) + seq![':'] + padded(negative, seconds)
            }
        } else {
            hms(negative, m)
        }
    } else {
        signed(negative, days) + seq![' '] + hms(negative, m)
    }
}

/// A clock as shown in a game list: the time left, a bar, and the added time as `hh:mm:ss`.
pub open spec fn spec_time_display(t: Time) -> Seq<char> {
    let negative = t.milliseconds_left < 0;
    let m = magnitude(t.milliseconds_left as int);
    let days = m / (DAY as nat);
    let add_negative = t.add_seconds < 0;
    let a = magnitude(t.add_seconds as int);
    let added = padded(add_negative, a / 3600) + seq![':'] + padded(add_negative, (a % 3600) / 60)
        + seq![':'] + padded(add_negative, a % 60);
    if days == 0 {
        hms(negative, m) + " | "@ + added
    } else {
        signed(negative, days) + seq![' '] + hms(negative, m) + " | "@ + added
    }
}

/// The magnitude of a signed 64-bit number.
fn magnitude_u64(v: i64) -> (m: u64)
    ensures
        m == magnitude(v as int),
{
    if v < 0 {
        ((-(v + 1)) as u64) + 1
    } else {
        v as u64
    }
}

/// Appends Rust's `{:02}` of a number with this sign and magnitude.
fn push_padded(s: &mut String, negative: bool, m: u64)
    ensures
        final(s)@ == old(s)@ + padded(negative, m as nat),
{
    if negative && m != 0 {
        push_char(s, '-');
        push_decimal(s, m as u128);
        assert(old(s)@.push('-') + decimal(m as nat) =~= old(s)@ + (seq!['-'] + decimal(
            m as nat,
        )));
    } else {
        push_decimal2(s, m);
    }
}

/// Appends Rust's `{}` of a number with this sign and magnitude.
fn push_signed(s: &mut String, negative: bool, m: u64)
    ensures
        final(s)@ == old(s)@ + signed(negative, m as nat),
{
    if negative && m != 0 {
        push_char(s, '-');
        push_decimal(s, m as u128);
        assert(old(s)@.push('-') + decimal(m as nat) =~= old(s)@ + (seq!['-'] + decimal(
            m as nat,
        )));
    } else {
        push_decimal(s, m as u128);
    }
}

/// Appends the `hh:mm:ss` part of a clock reading.
fn push_hms(s: &mut String, negative: bool, m: u64)
    ensures
        final(s)@ == old(s)@ + hms(negative, m as nat),
{
    let ghost s0 = s@;
    push_padded(s, negative, (m % 86_400_000) / 3_600_000);
    push_char(s, ':');
    push_padded(s, negative, (m % 3_600_000) / 60_000);
    push_char(s, ':');
    push_padded(s, negative, (m % 60_000) / 1_000);
    assert(s@ =~= s0 + hms(negative, m as nat));
}

/// The time left on a clock as shown to the players.
pub fn time_left(milliseconds_left: i64) -> (s: String)
    ensures
        s@ == spec_time_left(milliseconds_left as int),
{
    let negative = milliseconds_left < 0;
    let m = magnitude_u64(milliseconds_left);
    let days = m / 86_400_000;
    let hours = (m % 86_400_000) / 3_600_000;
    let minutes = (m % 3_600_000) / 60_000;
    let seconds = (m % 60_000) / 1_000;
    let mut s = String::new();
    if days == 0 {
        if hours == 0 {
            if minutes == 0 {
                push_padded(&mut s, negative, seconds);
            } else {
                push_padded(&mut s, negative, minutes);
                push_char(&mut s, ':');
                push_padded(&mut s, negative, seconds);
            }
        } else {
            push_hms(&mut s, negative, m);
        }
    } else {
        push_signed(&mut s, negative, days);
        push_char(&mut s, ' ');
        push_hms(&mut s, negative, m);
    }
    assert(s@ =~= spec_time_left(milliseconds_left as int));
    s
}

impl Time {
    /// Fifteen minutes, and ten seconds added after each move.
    pub fn default() -> (t: Time)
        ensures
            t.add_seconds == 10,
            t.milliseconds_left == 15 * MINUTE,
    {
        Time { add_seconds: 10, milliseconds_left: 15 * MINUTE }
    }

    /// The time left as shown to the players.
    pub fn time_left(&self) -> (s: String)
        ensures
            s@ == spec_time_left(self.milliseconds_left as int),
    {
        time_left(self.milliseconds_left)
    }

    /// The clock as shown in a game list.
    pub fn to_string(&self) -> (s: String)
        ensures
            s@ == spec_time_display(*self),
    {
        let negative = self.milliseconds_left < 0;
        let m = magnitude_u64(self.milliseconds_left);
        let days = m / 86_400_000;
        let add_negative = self.add_seconds < 0;
        let a = magnitude_u64(self.add_seconds);
        let mut s = String::new();
        if days != 0 {
            push_signed(&mut s, negative, days);
            push_char(&mut s, ' ');
        }
        push_hms(&mut s, negative, m);
        push_str(&mut s, " | ");
        push_padded(&mut s, add_negative, a / 3600);
        push_char(&mut s, ':');
        push_padded(&mut s, add_negative, (a % 3600) / 60);
        push_char(&mut s, ':');
        push_padded(&mut s, add_negative, a % 60);
        assert(s@ =~= spec_time_display(*self));
        s
    }
}

impl TimeEnum {
    pub fn default() -> (t: TimeEnum)
        ensures
            t == TimeEnum::Rapid,
    {
        TimeEnum::Rapid
    }

    /// The clock settings of the preset, as shown to the players.
    pub fn to_str(&self) -> (s: &'static str)
        ensures
            *self == TimeEnum::Classical ==> s@ == "00:30:00 | 00:00:20"@,
            *self == TimeEnum::Long ==> s@ == "3 00:00:00 | 6:00:00"@,
            *self == TimeEnum::Rapid ==> s@ == "00:15:00 | 00:00:10 "@,
            *self == TimeEnum::VeryLong ==> s@ == "7 12:00:00 | 15:00:00 "@,
    {
        match self {
            TimeEnum::Classical => "00:30:00 | 00:00:20",
            TimeEnum::Long => "3 00:00:00 | 6:00:00",
            TimeEnum::Rapid => "00:15:00 | 00:00:10 ",
            TimeEnum::VeryLong => "7 12:00:00 | 15:00:00 ",
        }
    }
}

impl TimeSettings {
    /// Timed, with the default clock.
    pub fn default() -> (t: TimeSettings)
        ensures
            t == TimeSettings::Timed(Time { add_seconds: 10, milliseconds_left: 900_000 }),
    {
        TimeSettings::Timed(Time::default())
    }

    /// The time left as shown to the players, or `-` when the game is not timed.
    pub fn time_left(&self) -> (s: String)
        ensures
            match self {
                TimeSettings::Timed(t) => s@ == spec_time_left(t.milliseconds_left as int),
                TimeSettings::UnTimed => s@ == "-"@,
            },
    {
        match self {
            TimeSettings::Timed(time) => time.time_left(),
            TimeSettings::UnTimed => {
                let mut s = String::new();
                push_char(&mut s, '-');
                proof {
                    reveal_strlit("-");
                }
                assert(s@ =~= "-"@);
                s
            },
        }
    }

    /// Whether the game is timed.
    pub fn is_timed(&self) -> (b: bool)
        ensures
            b == (*self is Timed),
    {
        match self {
            TimeSettings::Timed(_) => true,
            TimeSettings::UnTimed => false,
        }
    }
}

impl TimeLeft {
    /// The time left on a clock.
    pub fn from_time(time: Time) -> (t: TimeLeft)
        ensures
            t.milliseconds_left == time.milliseconds_left,
    {
        TimeLeft { milliseconds_left: time.milliseconds_left }
    }

    /// The time left under timed settings; untimed settings have none.
    pub fn try_from_settings(time: TimeSettings) -> (r: Result<TimeLeft, UnTimedError>)
        ensures
            match time {
                TimeSettings::Timed(t) => r == Ok::<TimeLeft, UnTimedError>(
                    TimeLeft { milliseconds_left: t.milliseconds_left },
                ),
                TimeSettings::UnTimed => r == Err::<TimeLeft, UnTimedError>(UnTimedError),
            },
    {
        match time {
            TimeSettings::Timed(t) => Ok(TimeLeft { milliseconds_left: t.milliseconds_left }),
            TimeSettings::UnTimed => Err(UnTimedError),
        }
    }

    /// The time left as shown to the players.
    pub fn to_string(&self) -> (s: String)
        ensures
            s@ == spec_time_left(self.milliseconds_left as int),
    {
        time_left(self.milliseconds_left)
    }
}

/// Why the words of a `time_settings` command name no clock settings.
#[derive(Clone, Copy, Debug, PartialEq, Eq, Structural)]
pub enum TimeSettingsError {
    /// Neither `un-timed` nor `fischer` with two numbers.
    Expected,
    /// The milliseconds are no integer.
    Arg2NotAnInteger,
    /// The seconds added are no integer.
    Arg3NotAnInteger,
}

impl TimeSettingsError {
    /// The text of the error.
    pub open spec fn spec_message(self) -> Seq<char> {
        match self {
            TimeSettingsError::Expected => "expected: 'time_settings un-timed' or 'time_settings fischer MILLISECONDS ADD_SECONDS'"@,
            TimeSettingsError::Arg2NotAnInteger => "time_settings: arg 2 is not an integer"@,
            TimeSettingsError::Arg3NotAnInteger => "time_settings: arg 3 is not an integer"@,
        }
    }

    /// The text of the error.
    pub fn message(&self) -> (s: &'static str)
        ensures
            s@ == self.spec_message(),
    {
        match self {
            TimeSettingsError::Expected => "expected: 'time_settings un-timed' or 'time_settings fischer MILLISECONDS ADD_SECONDS'",
            TimeSettingsError::Arg2NotAnInteger => "time_settings: arg 2 is not an integer",
            TimeSettingsError::Arg3NotAnInteger => "time_settings: arg 3 is not an integer",
        }
    }
}

/// The texts of the words of a command.
pub open spec fn word_texts(args: Seq<&str>) -> Seq<Seq<char>> {
    args.map_values(|a: &str| a@)
}

/// The clock settings that the words of a `time_settings` command name: `un-timed` as the
/// second word, or `fischer` followed by the milliseconds and the seconds added.
pub open spec fn spec_time_settings_from(args: Seq<Seq<char>>) -> Result<TimeSettings, TimeSettingsError> {
    if args.len() > 1 && args[1] == "un-timed"@ {
        Ok(TimeSettings::UnTimed)
    } else if args.len() < 4 {
        Err(TimeSettingsError::Expected)
    } else if args[1] == "fischer"@ {
        match spec_parse_i64(args[2]) {
            None => Err(TimeSettingsError::Arg2NotAnInteger),
            Some(ms) => match spec_parse_i64(args[3]) {
                None => Err(TimeSettingsError::Arg3NotAnInteger),
                Some(add) => Ok(TimeSettings::Timed(Time { add_seconds: add, milliseconds_left: ms })),
            },
        }
    } else {
        Err(TimeSettingsError::Expected)
    }
}

/// The text Rust writes for a signed number.
pub open spec fn int_text(v: int) -> Seq<char> {
    signed(v < 0, magnitude(v))
}

impl TimeSettings {
    /// Reads the words of a `time_settings` command: `time_settings un-timed`, or
    /// `time_settings fischer MILLISECONDS ADD_SECONDS`.
    pub fn try_from_args(args: &[&str]) -> (r: Result<TimeSettings, TimeSettingsError>)
        ensures
            r == spec_time_settings_from(word_texts(args@)),
    {
        let ghost words = word_texts(args@);
        if args.len() > 1 {
            assert(words[1] == args@[1]@);
            if str_eq(args[1], "un-timed") {
                return Ok(TimeSettings::UnTimed);
            }
        }
        if args.len() < 4 {
            return Err(TimeSettingsError::Expected);
        }
        assert(words[2] == args@[2]@ && words[3] == args@[3]@);
        if str_eq(args[1], "fischer") {
            let ms = match parse_i64(args[2]) {
                Some(v) => v,
                None => return Err(TimeSettingsError::Arg2NotAnInteger),
            };
            let add = match parse_i64(args[3]) {
                Some(v) => v,
                None => return Err(TimeSettingsError::Arg3NotAnInteger),
            };
            Ok(TimeSettings::Timed(Time { add_seconds: add, milliseconds_left: ms }))
        } else {
            Err(TimeSettingsError::Expected)
        }
    }

    /// The settings as the protocol writes them: `fischer MILLISECONDS ADD_SECONDS`, or
    /// `un-timed _ _`.
    pub fn to_debug_string(&self) -> (s: String)
        ensures
            match self {
                TimeSettings::Timed(t) => s@ == "fischer "@ + int_text(t.milliseconds_left as int)
                    + " "@ + int_text(t.add_seconds as int),
                TimeSettings::UnTimed => s@ == "un-timed _ _"@,
            },
            s@ == join_words(settings_words(*self)),
    {
        let mut s = String::new();
        match self {
            TimeSettings::Timed(time) => {
                push_str(&mut s, "fischer ");
                push_signed(&mut s, time.milliseconds_left < 0, magnitude_u64(time.milliseconds_left));
                push_str(&mut s, " ");
                push_signed(&mut s, time.add_seconds < 0, magnitude_u64(time.add_seconds));
            },
            TimeSettings::UnTimed => push_str(&mut s, "un-timed _ _"),
        }
        proof {
            reveal_with_fuel(join_words, 3);
            reveal_strlit("fischer ");
            reveal_strlit("fischer");
            reveal_strlit(" ");
            reveal_strlit("un-timed _ _");
            reveal_strlit("un-timed");
            reveal_strlit("_");
            let w = settings_words(*self);
            assert(w.drop_last().drop_last() == seq![w[0]]);
            assert(w.drop_last().last() == w[1]);
            assert(s@ =~= join_words(w));
        }
        s
    }

    /// The settings as shown in a game list: the clock, or `-` when the game is not timed.
    pub fn to_string(&self) -> (s: String)
        ensures
            match self {
                TimeSettings::Timed(t) => s@ == spec_time_display(*t),
                TimeSettings::UnTimed => s@ == "-"@,
            },
    {
        match self {
            TimeSettings::Timed(time) => time.to_string(),
            TimeSettings::UnTimed => {
                let mut s = String::new();
                push_str(&mut s, "-");
                s
            },
        }
    }
}

/// The words after `time_settings` that name the settings in the protocol.
pub open spec fn settings_words(t: TimeSettings) -> Seq<Seq<char>> {
    match t {
        TimeSettings::Timed(x) => seq![
            "fischer"@,
            int_text(x.milliseconds_left as int),
            int_text(x.add_seconds as int),
        ],
        TimeSettings::UnTimed => seq!["un-timed"@, "_"@, "_"@],
    }
}

/// Rust's text of a number that fits an `i64` reads back as that number.
pub proof fn lemma_int_text_reads_back(v: i64)
    ensures
        spec_parse_i64(int_text(v as int)) == Some(v),
{
    let m = magnitude(v as int);
    crate::text::lemma_decimal_digits(m);
    let d = decimal(m);
    if v < 0 {
        assert(int_text(v as int) == seq!['-'] + d);
        assert((seq!['-'] + d).drop_first() == d);
    } else {
        assert(int_text(v as int) == d);
        assert(crate::text::is_digit(d[0]));
    }
}

/// The words that name clock settings in the protocol read back as the same settings.
pub proof fn lemma_time_settings_round_trip(t: TimeSettings)
    ensures
        spec_time_settings_from(seq!["time_settings"@] + settings_words(t)) == Ok::<
            TimeSettings,
            TimeSettingsError,
        >(t),
{
    reveal_strlit("fischer");
    reveal_strlit("un-timed");
    let args = seq!["time_settings"@] + settings_words(t);
    assert(args[1] == settings_words(t)[0]);
    match t {
        TimeSettings::Timed(x) => {
            lemma_int_text_reads_back(x.milliseconds_left);
            lemma_int_text_reads_back(x.add_seconds);
            assert("fischer"@[0] != "un-timed"@[0]);
            assert(args[2] == int_text(x.milliseconds_left as int));
            assert(args[3] == int_text(x.add_seconds as int));
        },
        TimeSettings::UnTimed => {},
    }
}

} // verus!
