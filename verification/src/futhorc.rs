use vstd::prelude::*;

use crate::opentafl::{ascii_tokens, ascii_tokens_exec, pieces, pieces_exec, views};
use crate::text::{str_chars, str_eq, string_from_chars};
use crate::utils::{is_whitespace, white_space};

verus! {

// Writing English in the Anglo-Saxon futhorc, after Harys Dalvi
// (https://www.harysdalvi.com/futhorc/): words are looked up in a dictionary of IPA
// pronunciations, and the sounds are written with runes.

/// The ASCII lower case of a character.
pub open spec fn ascii_lower(c: char) -> char {
    if 'A' <= c && c <= 'Z' {
        ((c as u32) + 32) as char
    } else {
        c
    }
}

/// A text with its ASCII letters in lower case.
pub open spec fn lower_all(s: Seq<char>) -> Seq<char> {
    s.map_values(|c: char| ascii_lower(c))
}

/// A pronunciation without its stress markers.
pub open spec fn stress_free(s: Seq<char>) -> Seq<char>
    decreases s.len(),
{
    if s.len() == 0 {
        seq![]
    } else {
        stress_free(s.drop_last()) + if s.last() == 'ˈ' || s.last() == 'ˌ' {
            seq![]
        } else {
            seq![s.last()]
        }
    }
}

/// The runes for one sound; a character that is no sound stands for itself.
pub open spec fn rune(c: char) -> Seq<char> {
    if c == 'X' {
        seq![' ']
    } else if c == ' ' {
        seq!['᛫']
    } else if c == 'ɑ' {
        seq!['ᚪ']
    } else if c == 'ɔ' {
        seq!['ᛟ']
    } else if c == 'æ' {
        seq!['ᚫ']
    } else if c == 'ɛ' {
        seq!['ᛖ']
    } else if c == 'ɪ' || c == 'I' {
        seq!['ᛁ']
    } else if c == 'i' {
        seq!['ᛁ', 'ᛁ']
    } else if c == 'ʊ' || c == 'u' {
        seq!['ᚣ']
    } else if c == 'ə' || c == 'ʌ' || c == 'ɜ' {
        seq!['ᚢ']
    } else if c == 'p' || c == 'P' {
        seq!['ᛈ']
    } else if c == 'b' {
        seq!['ᛒ']
    } else if c == 't' || c == 'T' {
        seq!['ᛏ']
    } else if c == 'd' || c == 'D' {
        seq!['ᛞ']
    } else if c == 'k' || c == 'K' {
        seq!['ᚳ']
    } else if c == 'g' {
        seq!['ᚷ']
    } else if c == 'f' || c == 'F' {
        seq!['ᚠ', 'ᚠ']
    } else if c == 'v' {
        seq!['ᚠ']
    } else if c == 'θ' || c == 'ð' {
        seq!['ᚦ']
    } else if c == 's' {
        seq!['ᛋ', 'ᛋ']
    } else if c == 'z' {
        seq!['ᛋ']
    } else if c == 'ʃ' || c == 'ʒ' {
        seq!['ᛋ', 'ᚻ']
    } else if c == 'h' {
        seq!['ᚻ']
    } else if c == 'm' || c == 'M' {
        seq!['ᛗ']
    } else if c == 'n' || c == 'N' {
        seq!['ᚾ']
    } else if c == 'ŋ' {
        seq!['ᛝ']
    } else if c == 'j' {
        seq!['ᛄ']
    } else if c == 'w' {
        seq!['ᚹ']
    } else if c == 'ɹ' || c == 'R' {
        seq!['ᚱ']
    } else if c == 'l' || c == 'L' {
        seq!['ᛚ']
    } else if c == 'ʤ' {
        seq!['ᚷ', 'ᚻ']
    } else if c == 'ʧ' {
        seq!['ᚳ', 'ᚻ']
    } else if c == 'ɚ' {
        seq!['ᚢ', 'ᚱ']
    } else {
        seq![c]
    }
}

/// A text with each sound written in runes.
pub open spec fn runic(s: Seq<char>) -> Seq<char>
    decreases s.len(),
{
    if s.len() == 0 {
        seq![]
    } else {
        runic(s.drop_last()) + rune(s.last())
    }
}

/// How many times the character `c` occurs in `s`.
pub open spec fn occurrences(s: Seq<char>, c: char) -> nat
    decreases s.len(),
{
    if s.len() == 0 {
        0
    } else {
        occurrences(s.drop_last(), c) + if s.last() == c {
            1nat
        } else {
            0nat
        }
    }
}

/// Occurrences in two texts written one after the other add up.
proof fn lemma_occurrences_concat(a: Seq<char>, b: Seq<char>, c: char)
    ensures
        occurrences(a + b, c) == occurrences(a, c) + occurrences(b, c),
    decreases b.len(),
{
    if b.len() == 0 {
        assert(a + b =~= a);
    } else {
        lemma_occurrences_concat(a, b.drop_last(), c);
        assert((a + b).drop_last() =~= a + b.drop_last());
    }
}

/// How many ŋ sounds and ing runes the text holds.
spec fn ing_count(s: Seq<char>) -> nat {
    occurrences(s, 'ŋ') + occurrences(s, 'ᛝ')
}

/// How many n sounds and n runes the text holds.
spec fn n_count(s: Seq<char>) -> nat {
    occurrences(s, 'n') + occurrences(s, 'N') + occurrences(s, 'ᚾ')
}

proof fn lemma_counts_concat(a: Seq<char>, b: Seq<char>)
    ensures
        ing_count(a + b) == ing_count(a) + ing_count(b),
        n_count(a + b) == n_count(a) + n_count(b),
{
    lemma_occurrences_concat(a, b, 'ŋ');
    lemma_occurrences_concat(a, b, 'ᛝ');
    lemma_occurrences_concat(a, b, 'n');
    lemma_occurrences_concat(a, b, 'N');
    lemma_occurrences_concat(a, b, 'ᚾ');
}

/// The runes of one sound: the ing rune for ŋ, the n rune for n.
proof fn lemma_rune_counts(c: char)
    ensures
        occurrences(rune(c), 'ᛝ') == (if c == 'ŋ' || c == 'ᛝ' { 1nat } else { 0nat }),
        occurrences(rune(c), 'ᚾ') == (if c == 'n' || c == 'N' || c == 'ᚾ' { 1nat } else { 0nat }),
{
    reveal_with_fuel(occurrences, 3);
}

/// In the runes of a text, the ing rune stands once for each ŋ, and the n rune once for each
/// n.
proof fn lemma_runic_counts(s: Seq<char>)
    ensures
        occurrences(runic(s), 'ᛝ') == ing_count(s),
        occurrences(runic(s), 'ᚾ') == n_count(s),
    decreases s.len(),
{
    if s.len() > 0 {
        lemma_runic_counts(s.drop_last());
        lemma_rune_counts(s.last());
        lemma_occurrences_concat(runic(s.drop_last()), rune(s.last()), 'ᛝ');
        lemma_occurrences_concat(runic(s.drop_last()), rune(s.last()), 'ᚾ');
    }
}

/// The runes for two sounds written together, where they have some.
pub open spec fn digraph(a: char, b: char) -> Option<Seq<char>> {
    if a == 'e' && (b == 'ɪ' || b == 'j') {
        Some(seq!['ᛠ'])
    } else if a == 'a' && b == 'ɪ' {
        Some(seq!['ᛡ'])
    } else if a == 'a' && b == 'j' {
        Some(seq!['ᛁ'])
    } else if a == 'a' && (b == 'ʊ' || b == 'w') {
        Some(seq!['ᚪ', 'ᚹ'])
    } else if a == 'o' && (b == 'ʊ' || b == 'w') {
        Some(seq!['ᚩ'])
    } else if a == 'ɔ' && b == 'ɪ' {
        Some(seq!['ᚩ', 'ᛁ'])
    } else if a == 't' && b == 'ʃ' {
        Some(seq!['ᚳ', 'ᚻ'])
    } else if a == 'd' && b == 'ʒ' {
        Some(seq!['ᚷ', 'ᚻ'])
    } else if a == 'ŋ' && b == 'g' {
        Some(seq!['ᛝ'])
    } else if a == 's' && b == 'S' {
        Some(seq!['ᛋ', 'ᛋ', 'ᛋ'])
    } else {
        None
    }
}

/// A pronunciation with its pairs of sounds that go together written first, from the left:
/// a pair takes both of its sounds, and every other sound stays as it is.
pub open spec fn pair_runes(s: Seq<char>) -> Seq<char>
    decreases s.len(),
{
    if s.len() == 0 {
        seq![]
    } else if s.len() >= 2 && digraph(s[0], s[1]) is Some {
        digraph(s[0], s[1])->0 + pair_runes(s.skip(2))
    } else {
        seq![s[0]] + pair_runes(s.drop_first())
    }
}

/// A pair of sounds written together keeps the count of ŋ sounds and of n sounds.
proof fn lemma_digraph_counts(a: char, b: char)
    requires
        digraph(a, b) is Some,
    ensures
        ing_count(digraph(a, b)->0) == ing_count(seq![a, b]),
        n_count(digraph(a, b)->0) == n_count(seq![a, b]),
{
    reveal_with_fuel(occurrences, 4);
    assert(seq![a, b].drop_last() =~= seq![a]);
    assert(seq![a].drop_last() =~= Seq::<char>::empty());
}

/// Writing the pairs of sounds that go together keeps the count of ŋ sounds (a ŋ before a g
/// becomes one ing rune) and of n sounds.
proof fn lemma_pair_counts(s: Seq<char>)
    ensures
        ing_count(pair_runes(s)) == ing_count(s),
        n_count(pair_runes(s)) == n_count(s),
    decreases s.len(),
{
    if s.len() == 0 {
        assert(ing_count(s) == 0 && n_count(s) == 0);
    } else if s.len() >= 2 && digraph(s[0], s[1]) is Some {
        let rest = s.skip(2);
        lemma_pair_counts(rest);
        lemma_digraph_counts(s[0], s[1]);
        lemma_counts_concat(digraph(s[0], s[1])->0, pair_runes(rest));
        assert(s =~= seq![s[0], s[1]] + rest);
        lemma_counts_concat(seq![s[0], s[1]], rest);
    } else {
        let rest = s.drop_first();
        lemma_pair_counts(rest);
        lemma_counts_concat(seq![s[0]], pair_runes(rest));
        assert(s =~= seq![s[0]] + rest);
        lemma_counts_concat(seq![s[0]], rest);
    }
}

/// In the runes of a sound sequence, the ing rune ᛝ stands once for each ŋ (whether or not a
/// g follows it), and the n rune ᚾ once for each n: the two sounds are never written alike.
/// A rune already in the sequence stands for itself.
pub proof fn lemma_ing_and_n_runes(s: Seq<char>)
    ensures
        occurrences(runic(pair_runes(s)), 'ᛝ') == occurrences(s, 'ŋ') + occurrences(s, 'ᛝ'),
        occurrences(runic(pair_runes(s)), 'ᚾ') == occurrences(s, 'n') + occurrences(s, 'N')
            + occurrences(s, 'ᚾ'),
{
    lemma_pair_counts(s);
    lemma_runic_counts(pair_runes(s));
}

/// Appends the characters of `src`.
pub(crate) fn append_chars(out: &mut Vec<char>, src: &[char])
    ensures
        final(out)@ == old(out)@ + src@,
{
    let ghost start = out@;
    let mut i: usize = 0;
    while i < src.len()
        invariant
            i <= src@.len(),
            out@ == start + src@.take(i as int),
        decreases src@.len() - i,
    {
        out.push(src[i]);
        i = i + 1;
        assert(out@ == start + src@.take(i as int));
    }
    assert(src@.take(src@.len() as int) == src@);
}

/// Puts the ASCII letters of a text in lower case.
fn lower_chars(chars: &mut Vec<char>)
    ensures
        final(chars)@ == lower_all(old(chars)@),
{
    let ghost start = chars@;
    let mut i: usize = 0;
    while i < chars.len()
        invariant
            i <= chars@.len(),
            chars@.len() == start.len(),
            forall|j: int| 0 <= j < i ==> chars@[j] == ascii_lower(#[trigger] start[j]),
            forall|j: int| i <= j < chars@.len() ==> chars@[j] == start[j],
        decreases chars@.len() - i,
    {
        let c = chars[i];
        if 'A' <= c && c <= 'Z' {
            let low = ((c as u8) + 32) as char;
            assert(low == ascii_lower(c));
            chars.set(i, low);
        }
        i = i + 1;
    }
    assert(chars@ == lower_all(start));
}

/// A pronunciation without its stress markers.
fn remove_stress_markers(s: &[char]) -> (r: Vec<char>)
    ensures
        r@ == stress_free(s@),
{
    let mut out: Vec<char> = Vec::new();
    let mut i: usize = 0;
    while i < s.len()
        invariant
            i <= s@.len(),
            out@ == stress_free(s@.take(i as int)),
        decreases s@.len() - i,
    {
        let c = s[i];
        assert(s@.take(i as int + 1).drop_last() == s@.take(i as int));
        if c != 'ˈ' && c != 'ˌ' {
            out.push(c);
        }
        i = i + 1;
    }
    assert(s@.take(s@.len() as int) == s@);
    out
}

/// Appends the runes for one sound.
fn push_rune(out: &mut Vec<char>, c: char)
    ensures
        final(out)@ == old(out)@ + rune(c),
{
    let ghost start = out@;
    if c == 'X' {
        out.push(' ');
    } else if c == ' ' {
        out.push('᛫');
    } else if c == 'ɑ' {
        out.push('ᚪ');
    } else if c == 'ɔ' {
        out.push('ᛟ');
    } else if c == 'æ' {
        out.push('ᚫ');
    } else if c == 'ɛ' {
        out.push('ᛖ');
    } else if c == 'ɪ' || c == 'I' {
        out.push('ᛁ');
    } else if c == 'i' {
        out.push('ᛁ');
        out.push('ᛁ');
    } else if c == 'ʊ' || c == 'u' {
        out.push('ᚣ');
    } else if c == 'ə' || c == 'ʌ' || c == 'ɜ' {
        out.push('ᚢ');
    } else if c == 'p' || c == 'P' {
        out.push('ᛈ');
    } else if c == 'b' {
        out.push('ᛒ');
    } else if c == 't' || c == 'T' {
        out.push('ᛏ');
    } else if c == 'd' || c == 'D' {
        out.push('ᛞ');
    } else if c == 'k' || c == 'K' {
        out.push('ᚳ');
    } else if c == 'g' {
        out.push('ᚷ');
    } else if c == 'f' || c == 'F' {
        out.push('ᚠ');
        out.push('ᚠ');
    } else if c == 'v' {
        out.push('ᚠ');
    } else if c == 'θ' || c == 'ð' {
        out.push('ᚦ');
    } else if c == 's' {
        out.push('ᛋ');
        out.push('ᛋ');
    } else if c == 'z' {
        out.push('ᛋ');
    } else if c == 'ʃ' || c == 'ʒ' {
        out.push('ᛋ');
        out.push('ᚻ');
    } else if c == 'h' {
        out.push('ᚻ');
    } else if c == 'm' || c == 'M' {
        out.push('ᛗ');
    } else if c == 'n' || c == 'N' {
        out.push('ᚾ');
    } else if c == 'ŋ' {
        out.push('ᛝ');
    } else if c == 'j' {
        out.push('ᛄ');
    } else if c == 'w' {
        out.push('ᚹ');
    } else if c == 'ɹ' || c == 'R' {
        out.push('ᚱ');
    } else if c == 'l' || c == 'L' {
        out.push('ᛚ');
    } else if c == 'ʤ' {
        out.push('ᚷ');
        out.push('ᚻ');
    } else if c == 'ʧ' {
        out.push('ᚳ');
        out.push('ᚻ');
    } else if c == 'ɚ' {
        out.push('ᚢ');
        out.push('ᚱ');
    } else {
        out.push(c);
    }
    assert(out@ == start + rune(c));
}

/// Appends a text with each sound written in runes.
fn push_runic(out: &mut Vec<char>, s: &[char])
    ensures
        final(out)@ == old(out)@ + runic(s@),
{
    let ghost start = out@;
    let mut i: usize = 0;
    while i < s.len()
        invariant
            i <= s@.len(),
            out@ == start + runic(s@.take(i as int)),
        decreases s@.len() - i,
    {
        let ghost before = out@;
        push_rune(out, s[i]);
        assert(s@.take(i as int + 1).drop_last() == s@.take(i as int));
        assert(out@ == start + runic(s@.take(i as int + 1)));
        i = i + 1;
    }
    assert(s@.take(s@.len() as int) == s@);
}

/// Appends the runes for two sounds written together and says so, where they have some;
/// else appends nothing.
fn push_digraph(out: &mut Vec<char>, a: char, b: char) -> (found: bool)
    ensures
        found == digraph(a, b) is Some,
        found ==> final(out)@ == old(out)@ + digraph(a, b)->0,
        !found ==> final(out)@ == old(out)@,
{
    let ghost start = out@;
    if a == 'e' && (b == 'ɪ' || b == 'j') {
        out.push('ᛠ');
    } else if a == 'a' && b == 'ɪ' {
        out.push('ᛡ');
    } else if a == 'a' && b == 'j' {
        out.push('ᛁ');
    } else if a == 'a' && (b == 'ʊ' || b == 'w') {
        out.push('ᚪ');
        out.push('ᚹ');
    } else if a == 'o' && (b == 'ʊ' || b == 'w') {
        out.push('ᚩ');
    } else if a == 'ɔ' && b == 'ɪ' {
        out.push('ᚩ');
        out.push('ᛁ');
    } else if a == 't' && b == 'ʃ' {
        out.push('ᚳ');
        out.push('ᚻ');
    } else if a == 'd' && b == 'ʒ' {
        out.push('ᚷ');
        out.push('ᚻ');
    } else if a == 'ŋ' && b == 'g' {
        out.push('ᛝ');
    } else if a == 's' && b == 'S' {
        out.push('ᛋ');
        out.push('ᛋ');
        out.push('ᛋ');
    } else {
        return false;
    }
    assert(out@ == start + digraph(a, b)->0);
    true
}

/// A pronunciation with its pairs of sounds that go together written first.
fn translate_to_runic_2(s: &[char]) -> (r: Vec<char>)
    ensures
        r@ == pair_runes(s@),
{
    let mut out: Vec<char> = Vec::new();
    let n = s.len();
    let mut i: usize = 0;
    assert(s@.skip(0) == s@);
    assert(out@ + pair_runes(s@) == pair_runes(s@));
    while i < n
        invariant
            n == s@.len(),
            i <= n,
            out@ + pair_runes(s@.skip(i as int)) == pair_runes(s@),
        decreases n - i,
    {
        let ghost rest = s@.skip(i as int);
        let ghost before = out@;
        if i + 1 < n && push_digraph(&mut out, s[i], s[i + 1]) {
            assert(rest[0] == s@[i as int] && rest[1] == s@[i + 1]);
            assert(rest.skip(2) == s@.skip(i + 2));
            assert(pair_runes(rest) == digraph(rest[0], rest[1])->0 + pair_runes(rest.skip(2)));
            assert(before + pair_runes(rest) == out@ + pair_runes(s@.skip(i + 2)));
            i = i + 2;
        } else {
            out.push(s[i]);
            assert(rest[0] == s@[i as int]);
            assert(rest.drop_first() == s@.skip(i + 1));
            assert(pair_runes(rest) == seq![rest[0]] + pair_runes(rest.drop_first()));
            assert(before + pair_runes(rest) == out@ + pair_runes(s@.skip(i + 1)));
            i = i + 1;
        }
    }
    assert(s@.skip(n as int) == Seq::<char>::empty());
    assert(out@ + Seq::<char>::empty() == out@);
    out
}

/// The words of a text: its runs of characters other than whitespace.
pub open spec fn white_words(s: Seq<char>) -> Seq<Seq<char>>
    decreases s.len(),
{
    if s.len() == 0 {
        seq![]
    } else {
        let t = white_words(s.drop_last());
        let c = s.last();
        if white_space(c) {
            t
        } else if s.len() >= 2 && !white_space(s[s.len() - 2]) {
            t.update(t.len() - 1, t.last().push(c))
        } else {
            t.push(seq![c])
        }
    }
}

/// The whitespace of a text: the run before the first word, then the run after each word
/// (empty where the text ends in a word).
pub open spec fn white_runs(s: Seq<char>) -> Seq<Seq<char>>
    decreases s.len(),
{
    if s.len() == 0 {
        seq![seq![]]
    } else {
        let r = white_runs(s.drop_last());
        let c = s.last();
        if white_space(c) {
            r.update(r.len() - 1, r.last().push(c))
        } else if s.len() >= 2 && !white_space(s[s.len() - 2]) {
            r
        } else {
            r.push(seq![])
        }
    }
}

/// There is one run of whitespace more than there are words.
pub proof fn lemma_runs_around_words(s: Seq<char>)
    ensures
        white_runs(s).len() == white_words(s).len() + 1,
        white_words(s).len() > 0 ==> (white_words(s).last().len() > 0),
        s.len() > 0 && !white_space(s.last()) ==> white_words(s).len() > 0,
        s.len() > 0 && !white_space(s.last()) ==> white_runs(s).last().len() == 0,
        s.len() > 0 && white_space(s.last()) ==> white_runs(s).last().len() > 0,
    decreases s.len(),
{
    if s.len() > 0 {
        lemma_runs_around_words(s.drop_last());
    }
}

/// A text put back together from its words and whitespace runs: the first run, then each
/// word followed by the run after it.
pub open spec fn rejoined(ws: Seq<Seq<char>>, rs: Seq<Seq<char>>) -> Seq<char>
    decreases ws.len(),
{
    if ws.len() == 0 {
        rs[0]
    } else {
        rejoined(ws.drop_last(), rs) + ws.last() + rs[ws.len() as int]
    }
}

/// Putting a text back together reads only the runs up to the one after the last word.
proof fn lemma_rejoined_runs(ws: Seq<Seq<char>>, rs1: Seq<Seq<char>>, rs2: Seq<Seq<char>>)
    requires
        forall|i: int| 0 <= i <= ws.len() ==> rs1[i] == rs2[i],
    ensures
        rejoined(ws, rs1) == rejoined(ws, rs2),
    decreases ws.len(),
{
    if ws.len() > 0 {
        lemma_rejoined_runs(ws.drop_last(), rs1, rs2);
    }
}

/// The whitespace runs and the words of a text interleave to give the text back: every run is
/// whitespace, every word is a non-empty run of other characters, and each run between two
/// words is not empty.
pub proof fn lemma_words_rejoin(s: Seq<char>)
    ensures
        white_runs(s).len() == white_words(s).len() + 1,
        rejoined(white_words(s), white_runs(s)) == s,
        forall|i: int, j: int|
            0 <= i < white_runs(s).len() && 0 <= j < white_runs(s)[i].len() ==> white_space(
                #[trigger] white_runs(s)[i][j],
            ),
        forall|i: int| 0 <= i < white_words(s).len() ==> (#[trigger] white_words(s)[i]).len() > 0,
        forall|i: int, j: int|
            0 <= i < white_words(s).len() && 0 <= j < white_words(s)[i].len() ==> !white_space(
                #[trigger] white_words(s)[i][j],
            ),
        forall|i: int| 0 < i < white_words(s).len() ==> (#[trigger] white_runs(s)[i]).len() > 0,
    decreases s.len(),
{
    lemma_runs_around_words(s);
    if s.len() > 0 {
        let t = s.drop_last();
        let c = s.last();
        lemma_words_rejoin(t);
        lemma_runs_around_words(t);
        let w = white_words(t);
        let r = white_runs(t);
        let w2 = white_words(s);
        let r2 = white_runs(s);
        let k = w.len() as int;
        assert(s =~= t.push(c));
        if white_space(c) {
            assert(w2 == w);
            assert(r2 == r.update(k, r[k].push(c)));
            if k == 0 {
                assert(rejoined(w2, r2) == r2[0]);
            } else {
                lemma_rejoined_runs(w.drop_last(), r, r2);
                assert(rejoined(w2, r2) =~= rejoined(w, r).push(c));
            }
            assert forall|i: int, j: int|
                0 <= i < r2.len() && 0 <= j < r2[i].len() implies white_space(#[trigger] r2[i][j]) by {
                if i < k {
                    assert(r2[i] == r[i]);
                } else if j < r[k].len() {
                    assert(r2[i][j] == r[k][j]);
                }
            }
        } else if s.len() >= 2 && !white_space(s[s.len() - 2]) {
            assert(t.last() == s[s.len() - 2]);
            assert(r2 == r);
            assert(w2 == w.update(k - 1, w[k - 1].push(c)));
            assert(r[k].len() == 0);
            lemma_rejoined_runs(w.drop_last(), r, r2);
            assert(w2.drop_last() == w.drop_last());
            assert(rejoined(w2, r2) =~= rejoined(w, r).push(c));
            assert forall|i: int, j: int|
                0 <= i < w2.len() && 0 <= j < w2[i].len() implies !white_space(#[trigger] w2[i][j]) by {
                if i < k - 1 {
                    assert(w2[i] == w[i]);
                } else if j < w[k - 1].len() {
                    assert(w2[i][j] == w[k - 1][j]);
                }
            }
        } else {
            assert(w2 == w.push(seq![c]));
            assert(r2 == r.push(seq![]));
            lemma_rejoined_runs(w, r, r2);
            assert(w2.drop_last() == w);
            assert(rejoined(w2, r2) =~= rejoined(w, r).push(c));
            if k > 0 {
                assert(t.len() > 0 && white_space(t.last()));
            }
            assert forall|i: int, j: int|
                0 <= i < w2.len() && 0 <= j < w2[i].len() implies !white_space(#[trigger] w2[i][j]) by {
                if i < k {
                    assert(w2[i] == w[i]);
                }
            }
            assert forall|i: int, j: int|
                0 <= i < r2.len() && 0 <= j < r2[i].len() implies white_space(#[trigger] r2[i][j]) by {
                if i <= k {
                    assert(r2[i] == r[i]);
                }
            }
        }
    }
}

/// Splits a text into its words and the runs of whitespace around them.
pub(crate) fn split_words(chars: &Vec<char>) -> (r: (Vec<Vec<char>>, Vec<Vec<char>>))
    ensures
        views(r.0@) == white_words(chars@),
        views(r.1@) == white_runs(chars@),
        r.1@.len() == r.0@.len() + 1,
{
    let mut words: Vec<Vec<char>> = Vec::new();
    let mut runs: Vec<Vec<char>> = Vec::new();
    let mut word: Vec<char> = Vec::new();
    let mut run: Vec<char> = Vec::new();
    let mut in_word = false;
    let mut i: usize = 0;
    assert(chars@.take(0) == Seq::<char>::empty());
    assert(views(words@) + Seq::<Seq<char>>::empty() == views(words@));
    while i < chars.len()
        invariant
            i <= chars@.len(),
            in_word == (i > 0 && !white_space(chars@[i - 1])),
            in_word ==> word@.len() > 0,
            !in_word ==> word@.len() == 0,
            white_words(chars@.take(i as int)) == views(words@) + if in_word {
                seq![word@]
            } else {
                seq![]
            },
            white_runs(chars@.take(i as int)) == views(runs@).push(run@),
        decreases chars@.len() - i,
    {
        let c = chars[i];
        let ghost prefix = chars@.take(i as int + 1);
        assert(prefix.drop_last() == chars@.take(i as int));
        assert(prefix.last() == c);
        let ghost wv = views(words@);
        let ghost rv = views(runs@);
        let ghost cw = word@;
        let ghost cr = run@;
        let white = is_whitespace(c);
        if white {
            if in_word {
                words.push(word);
                word = Vec::new();
                assert(views(words@) == wv.push(cw));
                assert(wv + seq![cw] == wv.push(cw));
            }
            run.push(c);
            assert(views(words@) + Seq::<Seq<char>>::empty() == views(words@));
            assert(rv.push(cr).update(rv.push(cr).len() - 1, cr.push(c)) == views(runs@).push(run@));
        } else if in_word {
            word.push(c);
            assert(prefix[prefix.len() - 2] == chars@[i - 1]);
            assert((wv + seq![cw]).update((wv + seq![cw]).len() - 1, cw.push(c)) == wv + seq![
                word@,
            ]);
        } else {
            word.push(c);
            runs.push(run);
            run = Vec::new();
            assert(word@ == seq![c]);
            assert(wv + Seq::<Seq<char>>::empty() == wv);
            assert(wv.push(seq![c]) == wv + seq![word@]);
            assert(views(runs@) == rv.push(cr));
            if i > 0 {
                assert(prefix[prefix.len() - 2] == chars@[i - 1]);
            }
        }
        in_word = !white;
        i = i + 1;
    }
    assert(chars@.take(chars@.len() as int) == chars@);
    if in_word {
        let ghost wv = views(words@);
        let ghost cw = word@;
        words.push(word);
        assert(views(words@) == wv.push(cw));
    } else {
        assert(views(words@) + Seq::<Seq<char>>::empty() == views(words@));
    }
    let ghost rv = views(runs@);
    let ghost cr = run@;
    runs.push(run);
    assert(views(runs@) == rv.push(cr));
    proof {
        lemma_runs_around_words(chars@);
    }
    (words, runs)
}

/// The text ends with `t`.
pub open spec fn ends_with(s: Seq<char>, t: Seq<char>) -> bool {
    s.len() >= t.len() && s.skip(s.len() - t.len()) == t
}

/// The pronunciation of a word, ready for runes: stress markers dropped; a final `ə`, `ʌ` or
/// `ɜ` written `ɑ` and a final `i` written `I`; and the sound of an ending `'d`, `'s` or
/// `'ll` (or a final apostrophe) marked with an apostrophe as the word has it.
pub open spec fn ipa_unit(ipa: Seq<char>, word: Seq<char>) -> Seq<char> {
    let w0 = stress_free(ipa);
    let w1 = if w0.len() > 0 && (w0.last() == 'ə' || w0.last() == 'ʌ' || w0.last() == 'ɜ') {
        w0.drop_last().push('ɑ')
    } else {
        w0
    };
    let w = if w1.len() > 0 && w1.last() == 'i' {
        w1.drop_last().push('I')
    } else {
        w1
    };
    let c = w.last();
    let rest = w.drop_last();
    let rest_i = rest.len() > 0 && rest.last() == 'i';
    if ends_with(word, seq!['\'', 'd']) {
        if rest.len() > 0 && rest.last() == 'ʌ' {
            rest.drop_last() + seq!['\'', 'ʌ', 'd']
        } else if rest.len() > 0 && rest.last() == 'ɪ' {
            rest.drop_last() + seq!['\'', 'ɪ', 'd']
        } else {
            rest + seq!['\'', c]
        }
    } else if ends_with(word, seq!['\'', 's']) {
        (if rest_i {
            rest.drop_last().push('I')
        } else {
            rest
        }) + seq!['\'', c]
    } else if ends_with(word, seq!['\'', 'l', 'l']) {
        if ends_with(w, seq!['ʌ', 'l']) {
            let front = w.take(w.len() - 2);
            if front.len() > 0 && front.last() == 'i' {
                front.drop_last() + seq!['I', '\'', 'ʌ', 'l']
            } else {
                front + seq!['\'', 'ʌ', 'l']
            }
        } else if rest_i {
            rest.drop_last() + seq!['I', '\'', c]
        } else {
            rest + seq!['\'', c]
        }
    } else if word.len() > 0 && word.last() == '\'' {
        w.push('\'')
    } else {
        w
    }
}

/// Whether a run of characters ends with the given one, two or three characters.
fn ends_with_chars(s: &[char], t: &[char]) -> (r: bool)
    ensures
        r == ends_with(s@, t@),
{
    if s.len() < t.len() {
        return false;
    }
    let off = s.len() - t.len();
    let mut k: usize = 0;
    while k < t.len()
        invariant
            t@.len() <= s@.len(),
            off == s@.len() - t@.len(),
            off + t@.len() == s.len(),
            k <= t@.len(),
            forall|j: int| 0 <= j < k ==> s@[off + j] == t@[j],
        decreases t@.len() - k,
    {
        if s[off + k] != t[k] {
            assert(s@.skip(off as int)[k as int] != t@[k as int]);
            return false;
        }
        k = k + 1;
    }
    assert(s@.skip(off as int) == t@);
    true
}

/// Appends characters, given as a list.
fn push_all(out: &mut Vec<char>, cs: Vec<char>)
    ensures
        final(out)@ == old(out)@ + cs@,
{
    append_chars(out, cs.as_slice());
}

/// The pronunciation of a word, ready for runes.
fn handle_ipa_word(ipa: &[char], word: &[char]) -> (r: Vec<char>)
    requires
        stress_free(ipa@).len() > 0,
    ensures
        r@ == ipa_unit(ipa@, word@),
{
    let mut w = remove_stress_markers(ipa);
    let ghost w0 = w@;
    let n = w.len();
    if w[n - 1] == 'ə' || w[n - 1] == 'ʌ' || w[n - 1] == 'ɜ' {
        w.pop();
        w.push('ɑ');
    }
    let ghost w1 = w@;
    assert(w1 == if w0.len() > 0 && (w0.last() == 'ə' || w0.last() == 'ʌ' || w0.last() == 'ɜ') {
        w0.drop_last().push('ɑ')
    } else {
        w0
    });
    if w[n - 1] == 'i' {
        w.pop();
        w.push('I');
    }
    let ghost wf = w@;
    assert(wf.len() == n);
    let ghost rest = wf.drop_last();
    let ghost c = wf.last();
    if ends_with_chars(word, &['\'', 'd']) {
        let c = w.pop().unwrap();
        let m = w.len();
        if m > 0 && w[m - 1] == 'ʌ' {
            w.pop();
            push_all(&mut w, vec!['\'', 'ʌ', 'd']);
        } else if m > 0 && w[m - 1] == 'ɪ' {
            w.pop();
            push_all(&mut w, vec!['\'', 'ɪ', 'd']);
        } else {
            w.push('\'');
            w.push(c);
        }
    } else if ends_with_chars(word, &['\'', 's']) {
        let c = w.pop().unwrap();
        let m = w.len();
        if m > 0 && w[m - 1] == 'i' {
            w.pop();
            w.push('I');
        }
        w.push('\'');
        w.push(c);
    } else if ends_with_chars(word, &['\'', 'l', 'l']) {
        if ends_with_chars(w.as_slice(), &['ʌ', 'l']) {
            w.pop();
            w.pop();
            assert(w@ == wf.take(wf.len() - 2));
            let m = w.len();
            if m > 0 && w[m - 1] == 'i' {
                w.pop();
                push_all(&mut w, vec!['I', '\'', 'ʌ', 'l']);
            } else {
                push_all(&mut w, vec!['\'', 'ʌ', 'l']);
            }
        } else {
            let c = w.pop().unwrap();
            let m = w.len();
            if m > 0 && w[m - 1] == 'i' {
                w.pop();
                w.push('I');
                w.push('\'');
                w.push(c);
                assert(w@ == rest.drop_last() + seq!['I', '\'', c]);
            } else {
                w.push('\'');
                w.push(c);
            }
        }
    } else if word.len() > 0 && word[word.len() - 1] == '\'' {
        w.push('\'');
    }
    assert(w@ == ipa_unit(ipa@, word@));
    w
}

/// The pronunciation that a dictionary gives a word: that of its last entry for the word.
pub open spec fn lookup(d: Seq<(Seq<char>, Seq<char>)>, key: Seq<char>) -> Option<Seq<char>>
    decreases d.len(),
{
    if d.len() == 0 {
        None
    } else if d.last().0 == key {
        Some(d.last().1)
    } else {
        lookup(d.drop_last(), key)
    }
}

/// Every pronunciation in the dictionary has a sound besides its stress markers.
pub open spec fn sounds_in_every_entry(d: Seq<(Seq<char>, Seq<char>)>) -> bool {
    forall|i: int| 0 <= i < d.len() ==> stress_free(#[trigger] d[i].1).len() > 0
}

/// A pronunciation that the dictionary gives has a sound besides its stress markers.
proof fn lemma_lookup_sounds(d: Seq<(Seq<char>, Seq<char>)>, key: Seq<char>)
    requires
        sounds_in_every_entry(d),
    ensures
        lookup(d, key) matches Some(v) ==> stress_free(v).len() > 0,
    decreases d.len(),
{
    if d.len() > 0 {
        assert(d.last() == d[d.len() - 1]);
        lemma_lookup_sounds(d.drop_last(), key);
    }
}

/// The punctuation marks that may end a word.
pub open spec fn is_punct(c: char) -> bool {
    c == ',' || c == ':' || c == ';' || c == '.' || c == '!' || c == '?'
}

/// A word without its final punctuation mark, and the mark.
pub open spec fn strip_punct(w: Seq<char>) -> (Seq<char>, Option<char>) {
    if w.len() > 0 && is_punct(w.last()) {
        (w.drop_last(), Some(w.last()))
    } else {
        (w, None)
    }
}

/// The characters of a punctuation mark, if any.
pub open spec fn punct_text(p: Option<char>) -> Seq<char> {
    match p {
        Some(c) => seq![c],
        None => seq![],
    }
}

/// A part of the text as written: in runes where it was found in the dictionary, else as
/// it stands.
pub open spec fn unit_text(u: Seq<char>, found: bool) -> Seq<char> {
    if found {
        runic(pair_runes(u))
    } else {
        u
    }
}

/// The whitespace after a word as written: a space right after a punctuation mark stays a
/// space, and every other space becomes a rune separator.
pub open spec fn sep_text(run: Seq<char>, p: Option<char>) -> Seq<char> {
    runic(
        if p is Some && run.len() > 0 && run[0] == ' ' {
            seq!['X'] + run.drop_first()
        } else {
            run
        },
    )
}

/// A part of a hyphenated word: its pronunciation, where the dictionary has the part, else
/// the part itself.
pub open spec fn piece_unit(d: Seq<(Seq<char>, Seq<char>)>, word: Seq<char>, piece: Seq<char>) -> (
    Seq<char>,
    bool,
) {
    match lookup(d, piece) {
        Some(ipa) => (ipa_unit(ipa, word), true),
        None => (piece, false),
    }
}

/// The parts of a hyphenated word as written, joined by hyphens, the punctuation mark after
/// the last.
pub open spec fn pieces_text(
    d: Seq<(Seq<char>, Seq<char>)>,
    word: Seq<char>,
    ps: Seq<Seq<char>>,
    p: Option<char>,
) -> Seq<char>
    decreases ps.len(),
{
    if ps.len() == 0 {
        seq![]
    } else if ps.len() == 1 {
        let u = piece_unit(d, word, ps[0]);
        unit_text(u.0 + punct_text(p), u.1)
    } else {
        let u = piece_unit(d, word, ps[0]);
        unit_text(u.0, u.1) + rune('-') + pieces_text(d, word, ps.drop_first(), p)
    }
}

/// A word as written, with the whitespace after it: in runes where the dictionary has it; a
/// word it lacks is written part by part when hyphenated, else left as it stands.
pub open spec fn word_text(d: Seq<(Seq<char>, Seq<char>)>, w: Seq<char>, run: Seq<char>) -> Seq<
    char,
> {
    let word = strip_punct(w).0;
    let p = strip_punct(w).1;
    (match lookup(d, word) {
        Some(ipa) => unit_text(ipa_unit(ipa, word) + punct_text(p), true),
        None => if word.contains('-') {
            pieces_text(d, word, pieces(word, '-'), p)
        } else {
            word + punct_text(p)
        },
    }) + sep_text(run, p)
}

/// The words of a text as written, each with the whitespace after it.
pub open spec fn words_text(
    d: Seq<(Seq<char>, Seq<char>)>,
    ws: Seq<Seq<char>>,
    rs: Seq<Seq<char>>,
) -> Seq<char>
    decreases ws.len(),
{
    if ws.len() == 0 {
        seq![]
    } else {
        words_text(d, ws.drop_last(), rs) + word_text(d, ws.last(), rs[ws.len() as int])
    }
}

/// A text as written in runes: in ASCII lower case, its leading whitespace as it stands, then
/// each word with the whitespace after it.
pub open spec fn runic_writing(d: Seq<(Seq<char>, Seq<char>)>, text: Seq<char>) -> Seq<char> {
    let t = lower_all(text);
    white_runs(t)[0] + words_text(d, white_words(t), white_runs(t))
}

/// A dictionary from English words to their pronunciations in IPA, for writing English in
/// runes. A later entry for a word takes the place of an earlier one.
#[derive(Clone, Debug)]
pub struct EnglishToRunes {
    pub english_to_ipa: Vec<(String, String)>,
}

impl EnglishToRunes {
    /// The entries, word and pronunciation.
    pub open spec fn entries(&self) -> Seq<(Seq<char>, Seq<char>)> {
        self.english_to_ipa@.map_values(|e: (String, String)| (e.0@, e.1@))
    }

    /// Every pronunciation has a sound besides its stress markers.
    pub open spec fn wf(&self) -> bool {
        sounds_in_every_entry(self.entries())
    }

    /// The position of the entry whose pronunciation the dictionary gives a word, if any.
    fn lookup_index(&self, key: &str) -> (r: Option<usize>)
        ensures
            match lookup(self.entries(), key@) {
                None => r is None,
                Some(v) => r matches Some(i) && i < self.english_to_ipa@.len()
                    && self.english_to_ipa@[i as int].1@ == v,
            },
    {
        let ghost d = self.entries();
        let mut i: usize = self.english_to_ipa.len();
        assert(d.take(i as int) == d);
        while i > 0
            invariant
                i <= self.english_to_ipa@.len(),
                d == self.entries(),
                lookup(d, key@) == lookup(d.take(i as int), key@),
            decreases i,
        {
            let ghost t = d.take(i as int);
            assert(t.drop_last() == d.take(i - 1));
            assert(t.last() == d[i - 1]);
            if str_eq(self.english_to_ipa[i - 1].0.as_str(), key) {
                return Some(i - 1);
            }
            i = i - 1;
        }
        None
    }

    /// Adds an entry, which takes the place of any earlier one for the word.
    fn insert(&mut self, word: String, ipa: String)
        ensures
            final(self).entries() == old(self).entries().push((word@, ipa@)),
    {
        let ghost d = self.entries();
        let ghost w = word@;
        let ghost v = ipa@;
        self.english_to_ipa.push((word, ipa));
        assert(self.entries() == d.push((w, v)));
    }

    /// Appends a part of the text as written: in runes where it was found in the
    /// dictionary.
    fn push_unit(out: &mut Vec<char>, u: &[char], found: bool)
        ensures
            final(out)@ == old(out)@ + unit_text(u@, found),
    {
        if found {
            let r2 = translate_to_runic_2(u);
            push_runic(out, r2.as_slice());
        } else {
            append_chars(out, u);
        }
    }

    /// A part of a hyphenated word: its pronunciation, where the dictionary has the part.
    fn piece(&self, word: &[char], piece: &[char]) -> (r: (Vec<char>, bool))
        requires
            self.wf(),
        ensures
            r.0@ == piece_unit(self.entries(), word@, piece@).0,
            r.1 == piece_unit(self.entries(), word@, piece@).1,
    {
        let key = string_from_chars(piece);
        match self.lookup_index(key.as_str()) {
            Some(i) => {
                proof {
                    lemma_lookup_sounds(self.entries(), piece@);
                }
                let ipa = str_chars(self.english_to_ipa[i].1.as_str());
                (handle_ipa_word(ipa.as_slice(), word), true)
            },
            None => {
                let mut v: Vec<char> = Vec::new();
                append_chars(&mut v, piece);
                assert(v@ == piece@);
                (v, false)
            },
        }
    }

    /// Appends the parts of a hyphenated word as written, joined by hyphens, the punctuation
    /// mark after the last.
    fn push_pieces(&self, out: &mut Vec<char>, word: &[char], p: Option<char>)
        requires
            self.wf(),
        ensures
            final(out)@ == old(out)@ + pieces_text(self.entries(), word@, pieces(word@, '-'), p),
    {
        let ps = pieces_exec(word, '-');
        let ghost pv = views(ps@);
        let ghost d = self.entries();
        let ghost target = out@ + pieces_text(d, word@, pv, p);
        proof {
            crate::opentafl::lemma_pieces_nonempty(word@, '-');
            assert(pv.skip(0) == pv);
        }
        let mut m: usize = 0;
        while m < ps.len()
            invariant
                m <= ps@.len(),
                pv == views(ps@),
                pv.len() >= 1,
                d == self.entries(),
                self.wf(),
                out@ + pieces_text(d, word@, pv.skip(m as int), p) == target,
            decreases ps@.len() - m,
        {
            let ghost rest = pv.skip(m as int);
            let ghost before = out@;
            assert(rest[0] == ps@[m as int]@);
            let (mut u, found) = self.piece(word, ps[m].as_slice());
            if m + 1 == ps.len() {
                if let Some(c) = p {
                    u.push(c);
                }
                assert(u@ == piece_unit(d, word@, rest[0]).0 + punct_text(p));
                Self::push_unit(out, u.as_slice(), found);
                assert(rest.len() == 1);
                assert(pv.skip(m + 1) == Seq::<Seq<char>>::empty());
                assert(out@ + Seq::<char>::empty() == out@);
            } else {
                Self::push_unit(out, u.as_slice(), found);
                push_rune(out, '-');
                assert(rest.drop_first() == pv.skip(m + 1));
                assert(before + pieces_text(d, word@, rest, p) == out@ + pieces_text(
                    d,
                    word@,
                    pv.skip(m + 1),
                    p,
                ));
            }
            m = m + 1;
        }
        assert(pv.skip(ps@.len() as int) == Seq::<Seq<char>>::empty());
        assert(out@ + Seq::<char>::empty() == out@);
    }

    /// Appends a word as written, with the whitespace after it.
    fn push_word(&self, out: &mut Vec<char>, w: &[char], run: &[char])
        requires
            self.wf(),
        ensures
            final(out)@ == old(out)@ + word_text(self.entries(), w@, run@),
    {
        let ghost d = self.entries();
        let n = w.len();
        let (word, p) = if n > 0 && (w[n - 1] == ',' || w[n - 1] == ':' || w[n - 1] == ';'
            || w[n - 1] == '.' || w[n - 1] == '!' || w[n - 1] == '?') {
            (vstd::slice::slice_subrange(w, 0, n - 1), Some(w[n - 1]))
        } else {
            (w, None)
        };
        assert(word@ == strip_punct(w@).0 && p == strip_punct(w@).1);
        let key = string_from_chars(word);
        match self.lookup_index(key.as_str()) {
            Some(i) => {
                proof {
                    lemma_lookup_sounds(d, word@);
                }
                let ipa = str_chars(self.english_to_ipa[i].1.as_str());
                let mut u = handle_ipa_word(ipa.as_slice(), word);
                if let Some(c) = p {
                    u.push(c);
                }
                assert(u@ == ipa_unit(ipa@, word@) + punct_text(p));
                Self::push_unit(out, u.as_slice(), true);
            },
            None => {
                let mut hyphen = false;
                let mut k: usize = 0;
                while k < word.len()
                    invariant
                        k <= word@.len(),
                        hyphen == exists|j: int| 0 <= j < k && word@[j] == '-',
                    decreases word@.len() - k,
                {
                    if word[k] == '-' {
                        hyphen = true;
                    }
                    k = k + 1;
                }
                assert(hyphen == word@.contains('-'));
                if hyphen {
                    self.push_pieces(out, word, p);
                } else {
                    let ghost before = out@;
                    append_chars(out, word);
                    if let Some(c) = p {
                        out.push(c);
                    }
                    assert(out@ == before + (word@ + punct_text(p)));
                }
            },
        }
        let mut sep: Vec<char> = Vec::new();
        append_chars(&mut sep, run);
        if p.is_some() && sep.len() > 0 && sep[0] == ' ' {
            sep.set(0, 'X');
            assert(sep@ == seq!['X'] + run@.drop_first());
        }
        push_runic(out, sep.as_slice());
    }

    /// Writes a text in runes: the text is put in ASCII lower case and split at whitespace;
    /// a word the dictionary has (after any final punctuation mark) is written in runes from
    /// its pronunciation; a hyphenated word it lacks is written part by part, each part the
    /// dictionary has in runes; any other word stays as it is. Spaces between words become
    /// rune separators, except right after a punctuation mark; other whitespace stays.
    pub fn translate(&self, words: String) -> (r: String)
        requires
            self.wf(),
        ensures
            r@ == runic_writing(self.entries(), words@),
    {
        let mut chars = str_chars(words.as_str());
        lower_chars(&mut chars);
        let (ws, rs) = split_words(&chars);
        let ghost d = self.entries();
        let ghost wv = views(ws@);
        let ghost rv = views(rs@);
        let mut out: Vec<char> = Vec::new();
        append_chars(&mut out, rs[0].as_slice());
        assert(rv[0] == rs@[0]@);
        assert(wv.take(0) == Seq::<Seq<char>>::empty());
        let mut k: usize = 0;
        while k < ws.len()
            invariant
                k <= ws@.len(),
                rs@.len() == ws@.len() + 1,
                wv == views(ws@),
                rv == views(rs@),
                d == self.entries(),
                self.wf(),
                out@ == rv[0] + words_text(d, wv.take(k as int), rv),
            decreases ws@.len() - k,
        {
            let ghost before = out@;
            self.push_word(&mut out, ws[k].as_slice(), rs[k + 1].as_slice());
            proof {
                let t = wv.take(k + 1);
                assert(t.drop_last() == wv.take(k as int));
                assert(t.last() == ws@[k as int]@);
                assert(rv[k + 1] == rs@[k + 1]@);
            }
            k = k + 1;
        }
        assert(wv.take(ws@.len() as int) == wv);
        string_from_chars(out.as_slice())
    }

    /// Writes a text in runes (see `translate`).
    pub fn translate_js(&self, words: String) -> (r: String)
        requires
            self.wf(),
        ensures
            r@ == runic_writing(self.entries(), words@),
    {
        self.translate(words)
    }
}

/// A line of text without a carriage return that ended it.
pub open spec fn strip_cr(l: Seq<char>) -> Seq<char> {
    if l.len() > 0 && l.last() == '\r' {
        l.drop_last()
    } else {
        l
    }
}

/// The lines of a text: split at line feeds, each line ended by a line feed without a
/// carriage return before it, and the last line only when something follows the last line
/// feed.
pub open spec fn text_lines(s: Seq<char>) -> Seq<Seq<char>> {
    let p = pieces(s, '\n');
    p.drop_last().map_values(|l: Seq<char>| strip_cr(l)) + if p.last().len() > 0 {
        seq![p.last()]
    } else {
        seq![]
    }
}

/// The word that marks a line of the dictionary that is passed over.
pub open spec fn skip_mark() -> Seq<char> {
    seq!['X', 'X', 'X', 'X', 'X']
}

/// A line of the dictionary text has a word, and, unless it is passed over, a pronunciation
/// after it with a sound besides its stress markers.
pub open spec fn line_ok(line: Seq<char>) -> bool {
    let t = ascii_tokens(line);
    t.len() >= 1 && (t[0] == skip_mark() || (t.len() >= 2 && stress_free(t[1]).len() > 0))
}

/// The entry that a line of the dictionary text gives: its first word without the last
/// character, and its second word; none for a line that is passed over.
pub open spec fn line_entry(line: Seq<char>) -> Option<(Seq<char>, Seq<char>)> {
    let t = ascii_tokens(line);
    if t[0] == skip_mark() {
        None
    } else {
        Some((t[0].drop_last(), t[1]))
    }
}

/// The entries that the lines of a dictionary text give, in order.
pub open spec fn lines_entries(lines: Seq<Seq<char>>) -> Seq<(Seq<char>, Seq<char>)>
    decreases lines.len(),
{
    if lines.len() == 0 {
        seq![]
    } else {
        lines_entries(lines.drop_last()) + match line_entry(lines.last()) {
            Some(e) => seq![e],
            None => seq![],
        }
    }
}

/// Every line of a dictionary text can be read.
pub open spec fn dictionary_ok(text: Seq<char>) -> bool {
    forall|i: int| 0 <= i < text_lines(text).len() ==> line_ok(#[trigger] text_lines(text)[i])
}

/// The entries that every dictionary has after those of its text.
pub open spec fn extra_entries() -> Seq<(Seq<char>, Seq<char>)> {
    seq![
        (seq!['k', 'n', 'o', 'w'], seq!['n', 'o', 'ʊ', 'w']),
        (seq!['f', 'u', 't', 'h', 'o', 'r', 'c'], seq!['v', 'ʌ', 'θ', 'ɑ', 'ɹ', 'k']),
        (seq!['t', 'h', 'e'], seq!['ð', 'ɛ']),
        (seq!['\'', 't', 'i', 's'], seq!['\'', 't', 'ɪ', 'z']),
    ]
}

/// The entries of the dictionary read from a text.
pub open spec fn dictionary_entries(text: Seq<char>) -> Seq<(Seq<char>, Seq<char>)> {
    lines_entries(text_lines(text)) + extra_entries()
}

/// The entries of lines that can be read have sounds in their pronunciations.
proof fn lemma_lines_entries_sound(lines: Seq<Seq<char>>)
    requires
        forall|i: int| 0 <= i < lines.len() ==> line_ok(#[trigger] lines[i]),
    ensures
        sounds_in_every_entry(lines_entries(lines)),
    decreases lines.len(),
{
    if lines.len() > 0 {
        let init = lines.drop_last();
        assert forall|i: int| 0 <= i < init.len() implies line_ok(#[trigger] init[i]) by {
            assert(init[i] == lines[i]);
        }
        lemma_lines_entries_sound(init);
        assert(line_ok(lines[lines.len() - 1]));
    }
}

/// The words of a text are not empty.
proof fn lemma_tokens_nonempty(s: Seq<char>)
    ensures
        forall|i: int| 0 <= i < ascii_tokens(s).len() ==> #[trigger] ascii_tokens(s)[i].len() > 0,
        s.len() > 0 && !crate::opentafl::ascii_ws(s.last()) ==> ascii_tokens(s).len() > 0,
    decreases s.len(),
{
    if s.len() > 0 {
        let init = s.drop_last();
        lemma_tokens_nonempty(init);
        if s.len() >= 2 {
            assert(init.last() == s[s.len() - 2]);
        }
        let t = ascii_tokens(init);
        let r = ascii_tokens(s);
        assert forall|i: int| 0 <= i < r.len() implies #[trigger] r[i].len() > 0 by {
            if i < t.len() {
                assert(t[i].len() > 0);
            }
        }
    }
}

/// Reads the entry of a line of the dictionary text.
fn line_entry_exec(line: &Vec<char>) -> (r: Option<(String, String)>)
    requires
        line_ok(line@),
    ensures
        match line_entry(line@) {
            None => r is None,
            Some(e) => r matches Some(x) && x.0@ == e.0 && x.1@ == e.1,
        },
{
    let toks = ascii_tokens_exec(line);
    proof {
        assert(views(toks@)[0] == toks@[0]@);
        lemma_tokens_nonempty(line@);
    }
    let first = &toks[0];
    if first.len() == 5 && first[0] == 'X' && first[1] == 'X' && first[2] == 'X' && first[3] == 'X'
        && first[4] == 'X' {
        assert(first@ == skip_mark());
        return None;
    }
    assert(first@ != skip_mark()) by {
        if first@ == skip_mark() {
            assert(first@[0] == 'X' && first@[1] == 'X' && first@[2] == 'X' && first@[3] == 'X'
                && first@[4] == 'X');
        }
    }
    assert(views(toks@)[1] == toks@[1]@);
    let n = first.len();
    let word = vstd::slice::slice_subrange(first.as_slice(), 0, n - 1);
    assert(word@ == first@.drop_last());
    Some((string_from_chars(word), string_from_chars(toks[1].as_slice())))
}

/// A string of the given characters.
fn string_of(cs: Vec<char>) -> (s: String)
    ensures
        s@ == cs@,
{
    string_from_chars(cs.as_slice())
}

impl EnglishToRunes {
    /// Reads a dictionary from its text, one entry per line: the word with one character
    /// after it, whitespace, then its pronunciation in IPA; a line whose first word is
    /// `XXXXX` is passed over. A few entries are then added, and take the place of any that
    /// the text has for the same words.
    pub fn from_dictionary(ipa: &str) -> (r: EnglishToRunes)
        requires
            dictionary_ok(ipa@),
        ensures
            r.entries() == dictionary_entries(ipa@),
            r.wf(),
    {
        let chars = str_chars(ipa);
        let ps = pieces_exec(chars.as_slice(), '\n');
        let ghost pv = views(ps@);
        let ghost lines = text_lines(ipa@);
        proof {
            crate::opentafl::lemma_pieces_nonempty(ipa@, '\n');
        }
        let mut dict = EnglishToRunes { english_to_ipa: Vec::new() };
        assert(dict.entries() == Seq::<(Seq<char>, Seq<char>)>::empty());
        let mut m: usize = 0;
        while m < ps.len()
            invariant
                m <= ps@.len(),
                pv == views(ps@),
                pv == pieces(ipa@, '\n'),
                pv.len() >= 1,
                lines == text_lines(ipa@),
                dictionary_ok(ipa@),
                m < pv.len() ==> dict.entries() == lines_entries(lines.take(m as int)),
                m == pv.len() ==> dict.entries() == lines_entries(lines),
            decreases ps@.len() - m,
        {
            let last = m + 1 == ps.len();
            let piece = &ps[m];
            assert(piece@ == pv[m as int]);
            let mut line: Vec<char> = Vec::new();
            append_chars(&mut line, piece.as_slice());
            if !last {
                let k = line.len();
                if k > 0 && line[k - 1] == '\r' {
                    line.pop();
                }
                assert(line@ == strip_cr(pv[m as int]));
                assert(lines[m as int] == line@);
                assert(line_ok(line@));
                let ghost before = dict.entries();
                if let Some((w, v)) = line_entry_exec(&line) {
                    dict.insert(w, v);
                }
                proof {
                    let t = lines.take(m + 1);
                    assert(t.drop_last() == lines.take(m as int));
                    assert(t.last() == line@);
                    if m + 1 == pv.len() - 1 && pv.last().len() == 0 {
                        assert(lines.take(m + 1) == lines);
                    }
                }
            } else if line.len() > 0 {
                assert(lines.len() == pv.len());
                assert(lines[m as int] == line@);
                assert(line_ok(line@));
                if let Some((w, v)) = line_entry_exec(&line) {
                    dict.insert(w, v);
                }
                proof {
                    let t = lines.take(m + 1);
                    assert(t.drop_last() == lines.take(m as int));
                    assert(t.last() == line@);
                    assert(lines.take(m + 1) == lines);
                }
            } else {
                proof {
                    assert(lines.len() == pv.len() - 1);
                    if m == 0 {
                        assert(lines.take(0) == lines);
                    } else {
                        assert(lines.take(m as int) == lines);
                    }
                }
            }
            m = m + 1;
        }
        let ghost read = dict.entries();
        dict.insert(string_of(vec!['k', 'n', 'o', 'w']), string_of(vec!['n', 'o', 'ʊ', 'w']));
        dict.insert(
            string_of(vec!['f', 'u', 't', 'h', 'o', 'r', 'c']),
            string_of(vec!['v', 'ʌ', 'θ', 'ɑ', 'ɹ', 'k']),
        );
        dict.insert(string_of(vec!['t', 'h', 'e']), string_of(vec!['ð', 'ɛ']));
        dict.insert(string_of(vec!['\'', 't', 'i', 's']), string_of(vec!['\'', 't', 'ɪ', 'z']));
        assert(dict.entries() == read + extra_entries());
        proof {
            lemma_lines_entries_sound(lines);
            let d = dict.entries();
            assert forall|i: int| 0 <= i < d.len() implies stress_free(#[trigger] d[i].1).len()
                > 0 by {
                if i >= read.len() {
                    let e = extra_entries()[i - read.len()];
                    assert(d[i] == e);
                    reveal_with_fuel(stress_free, 7);
                } else {
                    assert(d[i] == read[i]);
                }
            }
        }
        dict
    }
}

/// Whether a line of the dictionary text can be read.
fn line_is_readable(line: &Vec<char>) -> (r: bool)
    ensures
        r == line_ok(line@),
{
    let toks = ascii_tokens_exec(line);
    proof {
        lemma_tokens_nonempty(line@);
    }
    if toks.len() == 0 {
        return false;
    }
    assert(views(toks@)[0] == toks@[0]@);
    let first = &toks[0];
    if first.len() == 5 && first[0] == 'X' && first[1] == 'X' && first[2] == 'X' && first[3] == 'X'
        && first[4] == 'X' {
        assert(first@ == skip_mark());
        return true;
    }
    assert(first@ != skip_mark()) by {
        if first@ == skip_mark() {
            assert(first@[0] == 'X' && first@[1] == 'X' && first@[2] == 'X' && first@[3] == 'X'
                && first@[4] == 'X');
        }
    }
    if toks.len() < 2 {
        return false;
    }
    assert(views(toks@)[1] == toks@[1]@);
    let sounds = remove_stress_markers(toks[1].as_slice());
    sounds.len() > 0
}

/// Whether every line of a dictionary text can be read (see `EnglishToRunes::from_dictionary`).
pub fn dictionary_is_readable(ipa: &str) -> (r: bool)
    ensures
        r == dictionary_ok(ipa@),
{
    let chars = str_chars(ipa);
    let ps = pieces_exec(chars.as_slice(), '\n');
    let ghost pv = views(ps@);
    let ghost lines = text_lines(ipa@);
    proof {
        crate::opentafl::lemma_pieces_nonempty(ipa@, '\n');
    }
    let mut m: usize = 0;
    while m < ps.len()
        invariant
            m <= ps@.len(),
            pv == views(ps@),
            pv == pieces(ipa@, '\n'),
            pv.len() >= 1,
            lines == text_lines(ipa@),
            lines.len() == pv.len() || lines.len() == pv.len() - 1,
            forall|i: int| 0 <= i < m && i < lines.len() ==> line_ok(#[trigger] lines[i]),
        decreases ps@.len() - m,
    {
        let last = m + 1 == ps.len();
        let piece = &ps[m];
        assert(piece@ == pv[m as int]);
        let mut line: Vec<char> = Vec::new();
        append_chars(&mut line, piece.as_slice());
        if !last {
            let k = line.len();
            if k > 0 && line[k - 1] == '\r' {
                line.pop();
            }
            assert(line@ == strip_cr(pv[m as int]));
            assert(lines[m as int] == line@);
            if !line_is_readable(&line) {
                return false;
            }
        } else if line.len() > 0 {
            assert(lines.len() == pv.len());
            assert(lines[m as int] == line@);
            if !line_is_readable(&line) {
                return false;
            }
        } else {
            assert(lines.len() == pv.len() - 1);
        }
        m = m + 1;
    }
    true
}

/// Writes a text in runes with the dictionary read from `ipa` (see
/// `EnglishToRunes::translate`).
pub fn words_to_runes(words: String, ipa: &str) -> (r: String)
    requires
        dictionary_ok(ipa@),
    ensures
        r@ == runic_writing(dictionary_entries(ipa@), words@),
{
    let dictionary = EnglishToRunes::from_dictionary(ipa);
    dictionary.translate(words)
}

/// A later entry for a word takes the place of any earlier one, and leaves the other words
/// as they were.
pub proof fn lemma_later_entry_wins(
    d: Seq<(Seq<char>, Seq<char>)>,
    word: Seq<char>,
    ipa: Seq<char>,
    other: Seq<char>,
)
    requires
        other != word,
    ensures
        lookup(d.push((word, ipa)), word) == Some(ipa),
        lookup(d.push((word, ipa)), other) == lookup(d, other),
{
    assert(d.push((word, ipa)).drop_last() == d);
}


/// ASCII letter case never changes how a text is written in runes: the text and the text with
/// its ASCII letters lowered are written alike.
pub proof fn lemma_runic_writing_ignores_case(d: Seq<(Seq<char>, Seq<char>)>, text: Seq<char>)
    ensures
        runic_writing(d, lower_all(text)) == runic_writing(d, text),
{
    assert forall|i: int| 0 <= i < text.len() implies ascii_lower(ascii_lower(#[trigger] text[i]))
        == ascii_lower(text[i]) by {
        let c = text[i];
        if 'A' <= c && c <= 'Z' {
            assert(('a' as u32) <= (c as u32) + 32 <= ('z' as u32));
        }
    }
    assert(lower_all(lower_all(text)) =~= lower_all(text));
}

} // verus!
