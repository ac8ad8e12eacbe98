use vstd::prelude::*;

use crate::text::{push_char, str_chars};

verus! {

// Icelandic written in runes, after the Icelandic Runic script of Alexander R.
// (https://www.omniglot.com/conscripts/icelandicrunic.htm).

/// The rune for a letter of the Icelandic alphabet, either case; any other character stands
/// for itself.
pub open spec fn icelandic_rune(c: char) -> char {
    if c == 'A' || c == 'a' {
        'ᛆ'
    } else if c == 'Á' || c == 'á' {
        'ᚨ'
    } else if c == 'B' || c == 'b' {
        'ᛒ'
    } else if c == 'D' || c == 'd' {
        'ᛑ'
    } else if c == 'Ð' || c == 'ð' {
        'ᚧ'
    } else if c == 'E' || c == 'e' {
        'ᛂ'
    } else if c == 'É' || c == 'é' {
        'ᛖ'
    } else if c == 'F' || c == 'f' {
        'ᚠ'
    } else if c == 'G' || c == 'g' {
        'ᚵ'
    } else if c == 'H' || c == 'h' {
        'ᚼ'
    } else if c == 'I' || c == 'i' {
        'ᛁ'
    } else if c == 'Í' || c == 'í' {
        'ᛇ'
    } else if c == 'J' || c == 'j' {
        'ᛃ'
    } else if c == 'K' || c == 'k' {
        'ᚴ'
    } else if c == 'L' || c == 'l' {
        'ᛚ'
    } else if c == 'M' || c == 'm' {
        'ᛘ'
    } else if c == 'N' || c == 'n' {
        'ᚿ'
    } else if c == 'O' || c == 'o' {
        'ᚮ'
    } else if c == 'Ó' || c == 'ó' {
        'ᛟ'
    } else if c == 'P' || c == 'p' {
        'ᛔ'
    } else if c == 'R' || c == 'r' {
        'ᚱ'
    } else if c == 'S' || c == 's' {
        'ᛋ'
    } else if c == 'T' || c == 't' {
        'ᛐ'
    } else if c == 'U' || c == 'u' {
        'ᚢ'
    } else if c == 'Ú' || c == 'ú' {
        'ᚤ'
    } else if c == 'V' || c == 'v' {
        'ᚡ'
    } else if c == 'X' || c == 'x' {
        'ᛪ'
    } else if c == 'Y' || c == 'y' {
        'ᛣ'
    } else if c == 'Ý' || c == 'ý' {
        'ᛨ'
    } else if c == 'Þ' || c == 'þ' {
        'ᚦ'
    } else if c == 'Æ' || c == 'æ' {
        'ᛅ'
    } else if c == 'Ö' || c == 'ö' {
        'ᚯ'
    } else {
        c
    }
}

/// The rune for a letter of the Icelandic alphabet, either case; any other character stands
/// for itself.
pub fn translate_to_runic(c: char) -> (r: char)
    ensures
        r == icelandic_rune(c),
{
    match c {
        'A' | 'a' => 'ᛆ',
        'Á' | 'á' => 'ᚨ',
        'B' | 'b' => 'ᛒ',
        'D' | 'd' => 'ᛑ',
        'Ð' | 'ð' => 'ᚧ',
        'E' | 'e' => 'ᛂ',
        'É' | 'é' => 'ᛖ',
        'F' | 'f' => 'ᚠ',
        'G' | 'g' => 'ᚵ',
        'H' | 'h' => 'ᚼ',
        'I' | 'i' => 'ᛁ',
        'Í' | 'í' => 'ᛇ',
        'J' | 'j' => 'ᛃ',
        'K' | 'k' => 'ᚴ',
        'L' | 'l' => 'ᛚ',
        'M' | 'm' => 'ᛘ',
        'N' | 'n' => 'ᚿ',
        'O' | 'o' => 'ᚮ',
        'Ó' | 'ó' => 'ᛟ',
        'P' | 'p' => 'ᛔ',
        'R' | 'r' => 'ᚱ',
        'S' | 's' => 'ᛋ',
        'T' | 't' => 'ᛐ',
        'U' | 'u' => 'ᚢ',
        'Ú' | 'ú' => 'ᚤ',
        'V' | 'v' => 'ᚡ',
        'X' | 'x' => 'ᛪ',
        'Y' | 'y' => 'ᛣ',
        'Ý' | 'ý' => 'ᛨ',
        'Þ' | 'þ' => 'ᚦ',
        'Æ' | 'æ' => 'ᛅ',
        'Ö' | 'ö' => 'ᚯ',
        ch => ch,
    }
}

/// A line written in runes, character by character.
pub fn translate_line(input: &str) -> (output: String)
    ensures
        output@ == input@.map_values(|c: char| icelandic_rune(c)),
{
    let chars = str_chars(input);
    let mut output = String::new();
    let mut i: usize = 0;
    while i < chars.len()
        invariant
            chars@ == input@,
            i <= chars@.len(),
            output@ == chars@.take(i as int).map_values(|c: char| icelandic_rune(c)),
        decreases chars@.len() - i,
    {
        push_char(&mut output, translate_to_runic(chars[i]));
        i = i + 1;
        assert(output@ == chars@.take(i as int).map_values(|c: char| icelandic_rune(c)));
    }
    assert(chars@.take(chars@.len() as int) == chars@);
    output
}

} // verus!
