use vstd::prelude::*;

use crate::text::{push_char, str_chars, string_from_chars};

verus! {

/// Whether a character has the Unicode White_Space property (PropList.txt): the controls
/// from tab to carriage return, space, next line, no-break space, ogham space mark, the
/// spaces from en quad to hair space, the line and paragraph separators, narrow no-break
/// space, medium mathematical space and ideographic space.
pub open spec fn white_space(c: char) -> bool {
    let u = c as u32;
    ||| 0x9 <= u <= 0xD
    ||| u == 0x20 || u == 0x85 || u == 0xA0 || u == 0x1680
    ||| 0x2000 <= u <= 0x200A
    ||| u == 0x2028 || u == 0x2029 || u == 0x202F || u == 0x205F || u == 0x3000
}

/// std's `char::is_whitespace`, which the documentation gives as whether the character has
/// the Unicode White_Space property; the contract spells out that property's characters.
#[verifier::external_body]
pub(crate) fn is_whitespace(c: char) -> (r: bool)
    ensures
        r == white_space(c),
{
    c.is_whitespace()
}

/// The text with every whitespace character taken out.
pub open spec fn without_white(s: Seq<char>) -> Seq<char>
    decreases s.len(),
{
    if s.len() == 0 {
        seq![]
    } else {
        without_white(s.drop_last()) + if white_space(s.last()) {
            seq![]
        } else {
            seq![s.last()]
        }
    }
}

/// A password as typed so far: its whitespace taken out, and whether it ended in whitespace
/// that was not all of it; then one space is kept at the end, so that typing can go on.
pub open spec fn spec_split_whitespace_password(s: Seq<char>) -> (Seq<char>, bool) {
    let kept = without_white(s);
    let ends = s.len() > 0 && white_space(s.last()) && kept.len() > 0;
    (
        if ends {
            kept.push(' ')
        } else {
            kept
        },
        ends,
    )
}

/// Takes the whitespace out of a password as typed so far, keeping one space at the end when
/// it ended in whitespace (and is not empty without it); says whether it did.
pub fn split_whitespace_password(string: &str) -> (r: (String, bool))
    ensures
        r.0@ == spec_split_whitespace_password(string@).0,
        r.1 == spec_split_whitespace_password(string@).1,
{
    let chars = str_chars(string);
    let mut kept: Vec<char> = Vec::new();
    let mut ends_with_whitespace = false;
    let mut i: usize = 0;
    while i < chars.len()
        invariant
            chars@ == string@,
            i <= chars@.len(),
            kept@ == without_white(chars@.take(i as int)),
            ends_with_whitespace == (i > 0 && white_space(chars@[i - 1])),
        decreases chars@.len() - i,
    {
        let c = chars[i];
        let white = is_whitespace(c);
        proof {
            assert(chars@.take(i as int + 1).drop_last() == chars@.take(i as int));
            assert(chars@.take(i as int + 1).last() == c);
        }
        if !white {
            kept.push(c);
        }
        ends_with_whitespace = white;
        i = i + 1;
    }
    proof {
        assert(chars@.take(chars@.len() as int) == chars@);
    }
    if kept.len() == 0 {
        ends_with_whitespace = false;
    }
    let mut string = string_from_chars(kept.as_slice());
    if ends_with_whitespace {
        push_char(&mut string, ' ');
    }
    (string, ends_with_whitespace)
}

} // verus!
