use vstd::prelude::*;

use crate::client::join_tokens;
use crate::opentafl::{ascii_tokens, ascii_tokens_exec, views};
use crate::text::{
    decimal, digit_value, digits_value, is_digit, join_words, parse_unsigned, push_decimal, push_str,
    str_chars, str_eq, string_from_chars, unsigned_digits,
};
use crate::utils::{is_whitespace, white_space};
use crate::{Id, VERSION_ID};

verus! {

/// How many lines a connection may send before it has logged in.
pub const LOGIN_ATTEMPTS: usize = 100;

/// A control character: general category Cc, U+0000 to U+001F and U+007F to U+009F.
pub open spec fn control(c: char) -> bool {
    c as u32 <= 0x1F || (0x7F <= c as u32 && c as u32 <= 0x9F)
}

/// Whether a character is a control character.
fn is_control(c: char) -> (r: bool)
    ensures
        r == control(c),
{
    let u = c as u32;
    u <= 0x1F || (0x7F <= u && u <= 0x9F)
}

/// Some character other than whitespace comes at or before position `i`.
pub open spec fn word_by(s: Seq<char>, i: int) -> bool {
    exists|j: int| 0 <= j <= i && !white_space(#[trigger] s[j])
}

/// A control character lies within the text once the whitespace at both ends is trimmed:
/// some character other than whitespace comes at or before it and at or after it.
pub open spec fn inner_control(s: Seq<char>) -> bool {
    exists|i: int, k: int|
        0 <= i <= k < s.len() && word_by(s, i) && control(#[trigger] s[i]) && !white_space(
            #[trigger] s[k],
        )
}

/// Every character of the text is whitespace: trimmed, it is empty.
pub open spec fn all_white(s: Seq<char>) -> bool {
    forall|i: int| 0 <= i < s.len() ==> white_space(#[trigger] s[i])
}

/// How many bytes a character takes in UTF-8.
pub open spec fn utf8_width(c: char) -> nat {
    if (c as u32) < 0x80 {
        1
    } else if (c as u32) < 0x800 {
        2
    } else if (c as u32) < 0x10000 {
        3
    } else {
        4
    }
}

/// How many bytes a text takes in UTF-8.
pub open spec fn utf8_len(s: Seq<char>) -> nat
    decreases s.len(),
{
    if s.len() == 0 {
        0
    } else {
        utf8_len(s.drop_last()) + utf8_width(s.last())
    }
}

/// Whether the text takes more than `limit` bytes in UTF-8.
pub(crate) fn utf8_longer_than(s: &[char], limit: u64) -> (r: bool)
    requires
        limit < 0x1000_0000,
    ensures
        r == (utf8_len(s@) > limit),
{
    let mut total: u64 = 0;
    let mut i: usize = 0;
    while i < s.len()
        invariant
            i <= s@.len(),
            limit < 0x1000_0000,
            total == utf8_len(s@.take(i as int)),
            total <= limit,
        decreases s@.len() - i,
    {
        let u = s[i] as u32;
        let w: u64 = if u < 0x80 {
            1
        } else if u < 0x800 {
            2
        } else if u < 0x10000 {
            3
        } else {
            4
        };
        proof {
            assert(s@.take(i + 1).drop_last() == s@.take(i as int));
        }
        total = total + w;
        i = i + 1;
        if total > limit {
            proof {
                lemma_utf8_len_grows(s@, i as int);
            }
            return true;
        }
    }
    assert(s@.take(s@.len() as int) == s@);
    false
}

/// A text takes at least as many bytes as any of its beginnings.
proof fn lemma_utf8_len_grows(s: Seq<char>, i: int)
    requires
        0 <= i <= s.len(),
    ensures
        utf8_len(s.take(i)) <= utf8_len(s),
    decreases s.len() - i,
{
    if i < s.len() {
        lemma_utf8_len_grows(s, i + 1);
        assert(s.take(i + 1).drop_last() == s.take(i));
    } else {
        assert(s.take(i) == s);
    }
}

/// Whether the text holds a control character once trimmed, and whether it holds anything
/// but whitespace.
fn scan_login_line(s: &Vec<char>) -> (r: (bool, bool))
    ensures
        r.0 == inner_control(s@),
        r.1 == !all_white(s@),
{
    let mut seen = false;
    let mut pending = false;
    let mut i: usize = 0;
    while i < s.len()
        invariant
            i <= s@.len(),
            seen == (exists|j: int| 0 <= j < i && !white_space(#[trigger] s@[j])),
            pending == (exists|x: int| 0 <= x < i && word_by(s@, x) && control(#[trigger] s@[x])),
            forall|x: int, k: int|
                0 <= x <= k < i && word_by(s@, x) && control(#[trigger] s@[x]) ==> white_space(
                    #[trigger] s@[k],
                ),
        decreases s@.len() - i,
    {
        let c = s[i];
        let w = is_whitespace(c);
        let ctl = is_control(c);
        if !w {
            if pending || ctl {
                proof {
                    if ctl {
                        assert(word_by(s@, i as int));
                        assert(control(s@[i as int]) && !white_space(s@[i as int]));
                    } else {
                        let x = choose|x: int| 0 <= x < i && word_by(s@, x) && control(#[trigger] s@[x]);
                        assert(control(s@[x]) && !white_space(s@[i as int]));
                    }
                }
                return (true, true);
            }
            seen = true;
        } else if ctl && seen {
            pending = true;
            proof {
                let j = choose|j: int| 0 <= j < i && !white_space(#[trigger] s@[j]);
                assert(word_by(s@, i as int));
            }
        }
        proof {
            assert forall|x: int| 0 <= x <= i && word_by(s@, x) && control(#[trigger] s@[x])
                implies x < i || !white_space(s@[x]) || seen by {
                if x == i as int && white_space(s@[x]) {
                    let j = choose|j: int| 0 <= j <= x && !white_space(#[trigger] s@[j]);
                    assert(j < i);
                }
            }
        }
        i = i + 1;
    }
    proof {
        if !seen {
            assert forall|i: int| 0 <= i < s@.len() implies white_space(#[trigger] s@[i]) by {}
        }
        if inner_control(s@) {
            let (x, k) = choose|x: int, k: int|
                0 <= x <= k < s@.len() && word_by(s@, x) && control(#[trigger] s@[x])
                    && !white_space(#[trigger] s@[k]);
            assert(white_space(s@[k]));
        }
    }
    (false, seen)
}

/// Why a login line ends the connection.
#[derive(Clone, Copy, Debug, PartialEq, Eq, Structural)]
pub enum LoginError {
    /// The trimmed line holds a control character.
    ControlCharacters,
    /// The line is empty or all whitespace: the client quit without logging in.
    Quit,
}

impl LoginError {
    /// The message for the error.
    pub fn message(&self) -> (s: &'static str)
        ensures
            *self == LoginError::ControlCharacters ==> s@
                == "there are control characters in the username or password"@,
            *self == LoginError::Quit ==> s@ == "The user sent a command without logging in, then quit."@,
    {
        match self {
            LoginError::ControlCharacters => "there are control characters in the username or password",
            LoginError::Quit => "The user sent a command without logging in, then quit.",
        }
    }
}

/// What a login line `VERSION ACTION USERNAME PASSWORD...` asks for.
#[derive(Clone, Debug)]
pub enum LoginRequest {
    /// Fewer than three words: nothing is answered, the next line is read.
    Ignored,
    /// The client speaks another version of the protocol.
    WrongVersion,
    /// The username takes more than 16 bytes.
    UsernameTooLong,
    /// The password takes more than 32 bytes.
    PasswordTooLong,
    /// The user asks for a new password.
    ResetPassword { username: String },
    /// The user asks the server to log in, create an account, or the like.
    Ask { username: String, action: String, password: String },
}

/// The password of a login line: the words after the username, joined by single spaces.
pub open spec fn login_password(toks: Seq<Seq<char>>) -> Seq<char> {
    join_words(toks.skip(3))
}

impl LoginRequest {
    /// The request is what the login line with the words `toks` asks for.
    pub open spec fn answers(&self, toks: Seq<Seq<char>>) -> bool {
        if toks.len() < 3 {
            *self is Ignored
        } else if toks[0] != VERSION_ID@ {
            *self is WrongVersion
        } else if utf8_len(toks[2]) > 16 {
            *self is UsernameTooLong
        } else if utf8_len(login_password(toks)) > 32 {
            *self is PasswordTooLong
        } else if toks[1] == "reset_password"@ {
            *self matches LoginRequest::ResetPassword { username } && username@ == toks[2]
        } else {
            *self matches LoginRequest::Ask { username, action, password } && username@ == toks[2]
                && action@ == toks[1] && password@ == login_password(toks)
        }
    }

    /// What the login writes back to the client at once, if anything.
    pub fn reply(&self) -> (r: Option<&'static str>)
        ensures
            *self is WrongVersion ==> (r matches Some(s) && s@ == "? login wrong_version\n"@),
            *self is UsernameTooLong ==> (r matches Some(s) && s@
                == "? login _ username is more than 16 characters\n"@),
            *self is PasswordTooLong ==> (r matches Some(s) && s@
                == "? login _ password is more than 32 characters\n"@),
            *self is ResetPassword ==> (r matches Some(s) && s@ == "? login reset_password\n"@),
            *self is Ignored || *self is Ask ==> r is None,
    {
        match self {
            LoginRequest::Ignored => None,
            LoginRequest::WrongVersion => Some("? login wrong_version\n"),
            LoginRequest::UsernameTooLong => Some("? login _ username is more than 16 characters\n"),
            LoginRequest::PasswordTooLong => Some("? login _ password is more than 32 characters\n"),
            LoginRequest::ResetPassword { .. } => Some("? login reset_password\n"),
            LoginRequest::Ask { .. } => None,
        }
    }

    /// The line the login sends on to the server for the connection `id`, if any: a
    /// password reset goes out under the index 0, and waits for no answer; any other request
    /// goes out under the connection's index, and the answer is awaited.
    pub fn server_line(&self, id: Id) -> (r: Option<String>)
        ensures
            match self {
                LoginRequest::ResetPassword { username } => r matches Some(s) && s@ == "0 "@
                    + username@ + " reset_password"@,
                LoginRequest::Ask { username, action, password } => r matches Some(s) && s@
                    == decimal(id as nat) + " "@ + username@ + " "@ + action@ + " "@ + password@,
                _ => r is None,
            },
    {
        match self {
            LoginRequest::ResetPassword { username } => {
                let mut s = String::new();
                push_str(&mut s, "0 ");
                push_str(&mut s, username.as_str());
                push_str(&mut s, " reset_password");
                Some(s)
            },
            LoginRequest::Ask { username, action, password } => {
                let mut s = String::new();
                push_decimal(&mut s, id);
                push_str(&mut s, " ");
                push_str(&mut s, username.as_str());
                push_str(&mut s, " ");
                push_str(&mut s, action.as_str());
                push_str(&mut s, " ");
                push_str(&mut s, password.as_str());
                Some(s)
            },
            _ => None,
        }
    }
}

/// The rules a line read before logging in is held to: the line, trimmed, may hold no control
/// character and may not be empty; then its words, split at ASCII whitespace, are the
/// version, the action, the username and the password.
pub fn check_login_line(line: &str) -> (r: Result<LoginRequest, LoginError>)
    ensures
        inner_control(line@) ==> r == Err::<LoginRequest, LoginError>(LoginError::ControlCharacters),
        !inner_control(line@) && all_white(line@) ==> r == Err::<LoginRequest, LoginError>(
            LoginError::Quit,
        ),
        !inner_control(line@) && !all_white(line@) ==> (r matches Ok(q) && q.answers(
            ascii_tokens(line@),
        )),
{
    let chars = str_chars(line);
    let (ctl, some) = scan_login_line(&chars);
    if ctl {
        return Err(LoginError::ControlCharacters);
    }
    if !some {
        return Err(LoginError::Quit);
    }
    let toks = ascii_tokens_exec(&chars);
    let ghost ts = views(toks@);
    if toks.len() < 3 {
        return Ok(LoginRequest::Ignored);
    }
    assert(ts[0] == toks@[0]@ && ts[1] == toks@[1]@ && ts[2] == toks@[2]@);
    let version = string_from_chars(toks[0].as_slice());
    if !str_eq(version.as_str(), VERSION_ID) {
        return Ok(LoginRequest::WrongVersion);
    }
    if utf8_longer_than(toks[2].as_slice(), 16) {
        return Ok(LoginRequest::UsernameTooLong);
    }
    let password = join_tokens(&toks, 3);
    let pchars = str_chars(password.as_str());
    if utf8_longer_than(pchars.as_slice(), 32) {
        return Ok(LoginRequest::PasswordTooLong);
    }
    let username = string_from_chars(toks[2].as_slice());
    let action = string_from_chars(toks[1].as_slice());
    if str_eq(action.as_str(), "reset_password") {
        return Ok(LoginRequest::ResetPassword { username });
    }
    Ok(LoginRequest::Ask { username, action, password })
}

/// What the login does with the server's answer to a request.
#[derive(Clone, Debug)]
pub enum LoginAnswer {
    /// The user is logged in.
    LoggedIn,
    /// Write this to the client and read the next line.
    Write(String),
}

/// What the server's answer `message` to the request `action` gives: a login or an account
/// creation that the server confirms logs the user in; a refused login is answered with a
/// general error, a refused account creation with the server's own answer; any other action
/// with a general error.
pub fn login_answer(action: &str, message: &str) -> (r: LoginAnswer)
    ensures
        action@ == "login"@ ==> if message@ == "= login"@ {
            r is LoggedIn
        } else {
            r matches LoginAnswer::Write(s) && s@ == "? login multiple_possible_errors\n"@
        },
        action@ == "create_account"@ ==> if message@ == "= create_account"@ {
            r is LoggedIn
        } else {
            r matches LoginAnswer::Write(s) && s@ == message@.push('\n')
        },
        action@ != "login"@ && action@ != "create_account"@ ==> (r matches LoginAnswer::Write(s)
            && s@ == "? login _\n"@),
{
    proof {
        reveal_strlit("login");
        reveal_strlit("create_account");
        assert("login"@.len() != "create_account"@.len());
    }
    if str_eq(action, "login") {
        if str_eq(message, "= login") {
            LoginAnswer::LoggedIn
        } else {
            LoginAnswer::Write("? login multiple_possible_errors\n".to_string())
        }
    } else if str_eq(action, "create_account") {
        if str_eq(message, "= create_account") {
            LoginAnswer::LoggedIn
        } else {
            let mut s = String::new();
            push_str(&mut s, message);
            push_str(&mut s, "\n");
            proof {
                reveal_strlit("\n");
                assert(s@ =~= message@.push('\n'));
            }
            LoginAnswer::Write(s)
        }
    } else {
        LoginAnswer::Write("? login _\n".to_string())
    }
}

/// The commands sent on behalf of a user who has just logged in on the connection `id`.
pub fn logged_in_lines(id: Id, username: &str) -> (r: Vec<String>)
    ensures
        r@.len() == 9,
        forall|i: int| 0 <= i < 9 ==> (#[trigger] r@[i])@ == decimal(id as nat) + " "@ + username@
            + " "@ + logged_in_command(i),
{
    let commands: [&'static str; 9] = [
        "email_get",
        "texts",
        "display_games",
        "display_users",
        "tournament_status",
        "admin",
        "admin_tournament",
        "version",
        "resume_games",
    ];
    let mut r: Vec<String> = Vec::new();
    let mut i: usize = 0;
    while i < 9
        invariant
            i <= 9,
            r@.len() == i,
            forall|k: int| 0 <= k < 9 ==> (#[trigger] commands@[k])@ == logged_in_command(k),
            forall|k: int| 0 <= k < i ==> (#[trigger] r@[k])@ == decimal(id as nat) + " "@
                + username@ + " "@ + logged_in_command(k),
        decreases 9 - i,
    {
        let mut s = String::new();
        push_decimal(&mut s, id);
        push_str(&mut s, " ");
        push_str(&mut s, username);
        push_str(&mut s, " ");
        push_str(&mut s, commands[i]);
        r.push(s);
        i = i + 1;
    }
    r
}

/// The `i`-th command sent for a user who has just logged in.
pub open spec fn logged_in_command(i: int) -> Seq<char> {
    if i == 0 {
        "email_get"@
    } else if i == 1 {
        "texts"@
    } else if i == 2 {
        "display_games"@
    } else if i == 3 {
        "display_users"@
    } else if i == 4 {
        "tournament_status"@
    } else if i == 5 {
        "admin"@
    } else if i == 6 {
        "admin_tournament"@
    } else if i == 7 {
        "version"@
    } else {
        "resume_games"@
    }
}


/// The text without the whitespace at its start.
pub open spec fn trim_start(s: Seq<char>) -> Seq<char>
    decreases s.len(),
{
    if s.len() > 0 && white_space(s[0]) {
        trim_start(s.drop_first())
    } else {
        s
    }
}

/// The text without the whitespace at its end.
pub open spec fn trim_end(s: Seq<char>) -> Seq<char>
    decreases s.len(),
{
    if s.len() > 0 && white_space(s.last()) {
        trim_end(s.drop_last())
    } else {
        s
    }
}

/// The text without the whitespace at either end.
pub open spec fn trim(s: Seq<char>) -> Seq<char> {
    trim_end(trim_start(s))
}

/// The text without the whitespace at either end.
fn trim_chars(s: &Vec<char>) -> (r: Vec<char>)
    ensures
        r@ == trim(s@),
{
    let mut a: usize = 0;
    assert(s@.skip(0) == s@);
    while a < s.len() && is_whitespace(s[a])
        invariant
            a <= s@.len(),
            trim_start(s@) == trim_start(s@.skip(a as int)),
        decreases s@.len() - a,
    {
        assert(s@.skip(a as int).drop_first() == s@.skip(a + 1));
        a = a + 1;
    }
    let ghost t = s@.skip(a as int);
    assert(trim_start(t) == t);
    let mut b: usize = s.len();
    while b > a && is_whitespace(s[b - 1])
        invariant
            a <= b <= s@.len(),
            t == s@.skip(a as int),
            trim_end(t) == trim_end(s@.subrange(a as int, b as int)),
        decreases b,
    {
        assert(s@.subrange(a as int, b as int).drop_last() == s@.subrange(a as int, b - 1));
        b = b - 1;
    }
    assert(trim_end(s@.subrange(a as int, b as int)) == s@.subrange(a as int, b as int));
    let mut r: Vec<char> = Vec::new();
    let mut i: usize = a;
    while i < b
        invariant
            a <= i <= b <= s@.len(),
            r@ == s@.subrange(a as int, i as int),
        decreases b - i,
    {
        r.push(s[i]);
        i = i + 1;
        assert(r@ =~= s@.subrange(a as int, i as int));
    }
    r
}

/// The number a word names, as `u128::from_str` reads it: an optional `+`, then decimal
/// digits, of a value that fits in 128 bits.
pub open spec fn spec_parse_u128(w: Seq<char>) -> Option<u128> {
    match parse_unsigned(w) {
        Some(v) => if v <= u128::MAX {
            Some(v as u128)
        } else {
            None
        },
        None => None,
    }
}

/// Reads a number as `u128::from_str` does.
pub(crate) fn parse_u128(w: &Vec<char>) -> (r: Option<u128>)
    ensures
        r == spec_parse_u128(w@),
{
    let len = w.len();
    let start: usize = if len > 0 && w[0] == '+' {
        1
    } else {
        0
    };
    let ghost digits = w@.subrange(start as int, len as int);
    assert(digits =~= unsigned_digits(w@));
    if start >= len {
        return None;
    }
    let mut value: u128 = 0;
    let mut over = false;
    let mut i: usize = start;
    while i < len
        invariant
            len == w@.len(),
            start <= i <= len,
            start < len,
            digits == w@.subrange(start as int, len as int),
            digits == unsigned_digits(w@),
            forall|j: int| start <= j < i ==> is_digit(#[trigger] w@[j]),
            !over ==> value == digits_value(w@.subrange(start as int, i as int)),
            over ==> digits_value(w@.subrange(start as int, i as int)) > u128::MAX,
        decreases len - i,
    {
        let d = w[i];
        if !(d >= '0' && d <= '9') {
            assert(!is_digit(digits[i - start]));
            return None;
        }
        let ghost prev = w@.subrange(start as int, i as int);
        assert(w@.subrange(start as int, i + 1) =~= prev.push(d));
        assert(digits_value(prev.push(d)) == digits_value(prev) * 10 + digit_value(d)) by {
            assert(prev.push(d).drop_last() =~= prev);
        }
        let dv = (d as u32 - '0' as u32) as u128;
        if !over {
            match value.checked_mul(10) {
                Some(m) => match m.checked_add(dv) {
                    Some(v2) => {
                        value = v2;
                    },
                    None => {
                        over = true;
                    },
                },
                None => {
                    over = true;
                },
            }
        } else {
            assert(digits_value(prev) * 10 + digit_value(d) > u128::MAX) by (nonlinear_arith)
                requires
                    digits_value(prev) > u128::MAX,
            ;
        }
        i = i + 1;
    }
    assert(w@.subrange(start as int, len as int) == digits);
    assert(forall|j: int| 0 <= j < digits.len() ==> is_digit(#[trigger] digits[j])) by {
        assert forall|j: int| 0 <= j < digits.len() implies is_digit(#[trigger] digits[j]) by {
            assert(digits[j] == w@[j + start]);
        }
    }
    if over {
        None
    } else {
        Some(value)
    }
}

/// The commands that name the game a user is in.
pub open spec fn joins_game(w: Seq<char>) -> bool {
    w == "join_game"@ || w == "resume_game"@ || w == "resume_game_json"@ || w
        == "resume_game_ron"@
}

/// The game a user is in after a line with the words `ws`: the one a join or resume names,
/// none after leaving, else the one before.
pub open spec fn next_game_id(game_id: Option<u128>, ws: Seq<Seq<char>>) -> Option<u128> {
    if ws.len() > 1 && joins_game(ws[0]) && spec_parse_u128(ws[1]) is Some {
        spec_parse_u128(ws[1])
    } else if ws.len() > 0 && ws[0] == "leave_game"@ {
        None
    } else {
        game_id
    }
}

/// What a line read from a logged-in user gives.
#[derive(Clone, Debug)]
pub enum SessionLine {
    /// The connection is done: the line is empty or holds a control character.
    Stop,
    /// Send this command to the server; the user is now in this game, if any.
    Forward { line: String, game_id: Option<u128> },
}

/// The rules for a line read from the logged-in user `username` on the connection `id`, who
/// is in the game `game_id`: the line, trimmed, ends the connection when it is empty or holds
/// a control character; else it goes to the server after the index and the username, and a
/// join or a resume names the game the user is in, a leave clears it.
pub fn session_line(id: Id, username: &str, game_id: Option<u128>, line: &str) -> (r: SessionLine)
    ensures
        ({
            let t = trim(line@);
            if t.len() == 0 || exists|i: int| 0 <= i < t.len() && control(#[trigger] t[i]) {
                r is Stop
            } else {
                r matches SessionLine::Forward { line: l, game_id: g } && l@ == decimal(id as nat)
                    + " "@ + username@ + " "@ + t && g == next_game_id(
                    game_id,
                    crate::futhorc::white_words(t),
                )
            }
        }),
{
    let chars = str_chars(line);
    let t = trim_chars(&chars);
    if t.len() == 0 {
        return SessionLine::Stop;
    }
    let mut i: usize = 0;
    while i < t.len()
        invariant
            i <= t@.len(),
            t@ == trim(line@),
            forall|j: int| 0 <= j < i ==> !control(#[trigger] t@[j]),
        decreases t@.len() - i,
    {
        if is_control(t[i]) {
            assert(control(t@[i as int]));
            return SessionLine::Stop;
        }
        i = i + 1;
    }
    let (words, _runs) = crate::futhorc::split_words(&t);
    let ghost ws = views(words@);
    let mut next = game_id;
    if words.len() > 0 {
        let first = string_from_chars(words[0].as_slice());
        let f = first.as_str();
        assert(ws[0] == words@[0]@);
        if words.len() > 1 && (str_eq(f, "join_game") || str_eq(f, "resume_game") || str_eq(
            f,
            "resume_game_json",
        ) || str_eq(f, "resume_game_ron")) {
            assert(ws[1] == words@[1]@);
            if let Some(n) = parse_u128(&words[1]) {
                next = Some(n);
            }
        }
        if str_eq(f, "leave_game") {
            next = None;
        }
        proof {
            reveal_strlit("leave_game");
            reveal_strlit("join_game");
            reveal_strlit("resume_game");
            reveal_strlit("resume_game_json");
            reveal_strlit("resume_game_ron");
        }
    }
    let mut s = String::new();
    push_decimal(&mut s, id);
    push_str(&mut s, " ");
    push_str(&mut s, username);
    push_str(&mut s, " ");
    let ts = string_from_chars(t.as_slice());
    push_str(&mut s, ts.as_str());
    SessionLine::Forward { line: s, game_id: next }
}

/// The commands sent when the logged-in user `username` on the connection `id` goes away:
/// leaving the game the user is in, if any, then logging out.
pub fn session_end_lines(id: Id, username: &str, game_id: Option<u128>) -> (r: Vec<String>)
    ensures
        match game_id {
            Some(g) => r@.len() == 2 && r@[0]@ == decimal(id as nat) + " "@ + username@
                + " leave_game "@ + decimal(g as nat),
            None => r@.len() == 1,
        },
        r@.last()@ == decimal(id as nat) + " "@ + username@ + " logout"@,
{
    let mut r: Vec<String> = Vec::new();
    if let Some(g) = game_id {
        let mut s = String::new();
        push_decimal(&mut s, id);
        push_str(&mut s, " ");
        push_str(&mut s, username);
        push_str(&mut s, " leave_game ");
        push_decimal(&mut s, g);
        r.push(s);
    }
    let mut s = String::new();
    push_decimal(&mut s, id);
    push_str(&mut s, " ");
    push_str(&mut s, username);
    push_str(&mut s, " logout");
    r.push(s);
    r
}

} // verus!
