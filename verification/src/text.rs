use vstd::prelude::*;

verus! {

/// Appends one character to a string (calls `String::push`).
#[verifier::external_body]
pub(crate) fn push_char(s: &mut String, c: char)
    ensures
        final(s)@ == old(s)@.push(c),
{
    s.push(c);
}

/// The decimal digit character for `d`.
pub open spec fn digit_char(d: nat) -> char {
    if d == 0 {
        '0'
    } else if d == 1 {
        '1'
    } else if d == 2 {
        '2'
    } else if d == 3 {
        '3'
    } else if d == 4 {
        '4'
    } else if d == 5 {
        '5'
    } else if d == 6 {
        '6'
    } else if d == 7 {
        '7'
    } else if d == 8 {
        '8'
    } else {
        '9'
    }
}

/// The decimal numeral of `v`, without leading zeros ("0" for zero).
pub open spec fn decimal(v: nat) -> Seq<char>
    decreases v,
{
    if v < 10 {
        seq![digit_char(v)]
    } else {
        decimal(v / 10).push(digit_char(v % 10))
    }
}

/// The decimal numeral of `v`, padded with zeros to at least two digits.
pub open spec fn decimal2(v: nat) -> Seq<char> {
    if v < 10 {
        seq!['0', digit_char(v)]
    } else {
        decimal(v)
    }
}

/// The value of a decimal digit character.
pub open spec fn digit_value(c: char) -> nat {
    (c as u32 - '0' as u32) as nat
}

pub open spec fn is_digit(c: char) -> bool {
    '0' <= c && c <= '9'
}

/// The number that a nonempty run of decimal digits names.
pub open spec fn digits_value(s: Seq<char>) -> nat
    decreases s.len(),
{
    if s.len() == 0 {
        0
    } else {
        digits_value(s.drop_last()) * 10 + digit_value(s.last())
    }
}

/// The digits of an unsigned number, after its optional `+`.
pub open spec fn unsigned_digits(s: Seq<char>) -> Seq<char> {
    if s.len() > 0 && s[0] == '+' {
        s.drop_first()
    } else {
        s
    }
}

/// What parsing `s` as an unsigned number gives, leaving size limits aside: an optional `+`,
/// then one or more decimal digits.
pub open spec fn parse_unsigned(s: Seq<char>) -> Option<nat> {
    let digits = unsigned_digits(s);
    if digits.len() > 0 && (forall|i: int| 0 <= i < digits.len() ==> is_digit(#[trigger] digits[i])) {
        Some(digits_value(digits))
    } else {
        None
    }
}

pub fn digit_to_char(d: u64) -> (c: char)
    requires
        d < 10,
    ensures
        c == digit_char(d as nat),
{
    if d == 0 {
        '0'
    } else if d == 1 {
        '1'
    } else if d == 2 {
        '2'
    } else if d == 3 {
        '3'
    } else if d == 4 {
        '4'
    } else if d == 5 {
        '5'
    } else if d == 6 {
        '6'
    } else if d == 7 {
        '7'
    } else if d == 8 {
        '8'
    } else {
        '9'
    }
}

/// Appends the decimal numeral of `v`.
pub fn push_decimal(s: &mut String, v: u128)
    ensures
        final(s)@ == old(s)@ + decimal(v as nat),
    decreases v,
{
    if v < 10 {
        push_char(s, digit_to_char(v as u64));
        assert(decimal(v as nat) =~= seq![digit_char(v as nat)]);
        assert(final(s)@ == old(s)@ + decimal(v as nat));
    } else {
        push_decimal(s, v / 10);
        push_char(s, digit_to_char((v % 10) as u64));
        assert(old(s)@ + decimal((v / 10) as nat) + seq![digit_char((v % 10) as nat)] =~= old(s)@
            + decimal(v as nat));
    }
}

/// Appends the decimal numeral of `v`, padded with zeros to two digits.
pub fn push_decimal2(s: &mut String, v: u64)
    ensures
        final(s)@ == old(s)@ + decimal2(v as nat),
{
    if v < 10 {
        push_char(s, '0');
        push_char(s, digit_to_char(v));
        assert(old(s)@.push('0').push(digit_char(v as nat)) =~= old(s)@ + decimal2(v as nat));
    } else {
        push_decimal(s, v as u128);
    }
}

/// Appends a string slice.
pub fn push_str(s: &mut String, t: &str)
    ensures
        final(s)@ == old(s)@ + t@,
{
    s.append(t);
}

/// The characters of a string slice.
pub fn str_chars(s: &str) -> (v: Vec<char>)
    ensures
        v@ == s@,
{
    let len = s.unicode_len();
    let mut v: Vec<char> = Vec::new();
    let mut i: usize = 0;
    while i < len
        invariant
            len == s@.len(),
            i <= len,
            v@ == s@.subrange(0, i as int),
        decreases len - i,
    {
        let c = s.get_char(i);
        v.push(c);
        i = i + 1;
        assert(v@ =~= s@.subrange(0, i as int));
    }
    assert(v@ =~= s@);
    v
}

/// A string that holds exactly the given characters.
pub fn string_from_chars(v: &[char]) -> (s: String)
    ensures
        s@ == v@,
{
    let mut s = String::new();
    let mut i: usize = 0;
    while i < v.len()
        invariant
            i <= v.len(),
            s@ == v@.subrange(0, i as int),
        decreases v.len() - i,
    {
        push_char(&mut s, v[i]);
        i = i + 1;
        assert(s@ =~= v@.subrange(0, i as int));
    }
    assert(s@ =~= v@);
    s
}

/// Whether two runs of characters are the same.
pub fn chars_eq(a: &[char], b: &[char]) -> (r: bool)
    ensures
        r == (a@ == b@),
{
    if a.len() != b.len() {
        return false;
    }
    let mut i: usize = 0;
    while i < a.len()
        invariant
            a.len() == b.len(),
            i <= a.len(),
            forall|j: int| 0 <= j < i ==> a@[j] == b@[j],
        decreases a.len() - i,
    {
        if a[i] != b[i] {
            return false;
        }
        i = i + 1;
    }
    assert(a@ =~= b@);
    true
}

/// Whether a string slice holds exactly the characters of another.
pub fn str_eq(a: &str, b: &str) -> (r: bool)
    ensures
        r == (a@ == b@),
{
    let va = str_chars(a);
    let vb = str_chars(b);
    chars_eq(va.as_slice(), vb.as_slice())
}


/// The decimal numeral of a number is a nonempty run of digits without a sign, naming the
/// number.
pub proof fn lemma_decimal_digits(v: nat)
    ensures
        decimal(v).len() > 0,
        forall|i: int| 0 <= i < decimal(v).len() ==> is_digit(#[trigger] decimal(v)[i]),
        digits_value(decimal(v)) == v,
    decreases v,
{
    if v >= 10 {
        lemma_decimal_digits(v / 10);
        let d = decimal(v / 10);
        let c = digit_char(v % 10);
        assert(decimal(v) == d.push(c));
        assert(d.push(c).drop_last() == d);
        assert forall|i: int| 0 <= i < d.push(c).len() implies is_digit(#[trigger] d.push(c)[i]) by {
            if i < d.len() {
                assert(d.push(c)[i] == d[i]);
            }
        }
        assert(digit_value(c) == v % 10);
        assert(d.push(c).last() == c);
        assert(digits_value(d.push(c)) == digits_value(d) * 10 + digit_value(c));
        assert((v / 10) * 10 + v % 10 == v) by (nonlinear_arith);
    } else {
        assert(decimal(v).drop_last() =~= Seq::<char>::empty());
        assert(digit_value(digit_char(v)) == v);
        assert(digits_value(decimal(v)) == digits_value(Seq::<char>::empty()) * 10 + digit_value(
            digit_char(v),
        ));
    }
}

/// Reading back the decimal numeral of a number gives the number.
pub proof fn lemma_parse_decimal(v: nat)
    ensures
        parse_unsigned(decimal(v)) == Some(v),
{
    lemma_decimal_digits(v);
    assert(is_digit(decimal(v)[0]));
    assert(unsigned_digits(decimal(v)) == decimal(v));
}

/// A nonempty run of decimal digits.
pub open spec fn all_digits(d: Seq<char>) -> bool {
    d.len() > 0 && forall|i: int| 0 <= i < d.len() ==> is_digit(#[trigger] d[i])
}

/// The number a text names as Rust reads a signed integer, leaving size limits aside: an
/// optional `+` or `-`, then one or more decimal digits.
pub open spec fn signed_value(s: Seq<char>) -> Option<int> {
    if s.len() > 0 && s[0] == '-' {
        if all_digits(s.drop_first()) {
            Some(-(digits_value(s.drop_first()) as int))
        } else {
            None
        }
    } else if s.len() > 0 && s[0] == '+' {
        if all_digits(s.drop_first()) {
            Some(digits_value(s.drop_first()) as int)
        } else {
            None
        }
    } else if all_digits(s) {
        Some(digits_value(s) as int)
    } else {
        None
    }
}

/// What reading a text as an `i64` gives: its number, when it names one that fits.
pub open spec fn spec_parse_i64(s: Seq<char>) -> Option<i64> {
    match signed_value(s) {
        Some(v) => if i64::MIN <= v <= i64::MAX {
            Some(v as i64)
        } else {
            None
        },
        None => None,
    }
}

/// Reads a text as an `i64`, as Rust's `str::parse` does: an optional sign, then decimal
/// digits, naming a number that fits.
pub fn parse_i64(s: &str) -> (r: Option<i64>)
    ensures
        r == spec_parse_i64(s@),
{
    let chars = str_chars(s);
    let n = chars.len();
    let negative = n > 0 && chars[0] == '-';
    let start: usize = if n > 0 && (chars[0] == '-' || chars[0] == '+') {
        1
    } else {
        0
    };
    let ghost digits = chars@.skip(start as int);
    assert(start == 1 ==> digits == s@.drop_first());
    assert(start == 0 ==> digits == s@);
    if start >= n {
        assert(digits.len() == 0);
        return None;
    }
    // The value read so far, unless it no longer fits.
    let mut value: u64 = 0;
    let mut over = false;
    let mut i: usize = start;
    while i < n
        invariant
            n == chars@.len(),
            chars@ == s@,
            start <= i <= n,
            start <= 1,
            digits == chars@.skip(start as int),
            start == 1 ==> digits == s@.drop_first(),
            start == 0 ==> digits == s@,
            start == 1 <==> (n > 0 && (s@[0] == '-' || s@[0] == '+')),
            negative == (n > 0 && s@[0] == '-'),
            forall|j: int| start <= j < i ==> is_digit(#[trigger] chars@[j]),
            !over ==> value == digits_value(chars@.subrange(start as int, i as int)),
            over ==> digits_value(chars@.subrange(start as int, i as int)) > u64::MAX,
        decreases n - i,
    {
        let d = chars[i];
        if !(d >= '0' && d <= '9') {
            assert(!is_digit(digits[i - start]));
            assert(!all_digits(digits));
            assert(signed_value(s@) is None);
            return None;
        }
        let ghost prev = chars@.subrange(start as int, i as int);
        assert(chars@.subrange(start as int, i + 1) == prev.push(d));
        assert(digits_value(prev.push(d)) == digits_value(prev) * 10 + digit_value(d)) by {
            assert(prev.push(d).drop_last() == prev);
        }
        let dv = (d as u32 - '0' as u32) as u64;
        if !over {
            match value.checked_mul(10) {
                Some(m) => match m.checked_add(dv) {
                    Some(v2) => {
                        value = v2;
                    },
                    None => {
                        over = true;
                    },
                },
                None => {
                    over = true;
                },
            }
        } else {
            assert(digits_value(prev) * 10 + digit_value(d) > u64::MAX) by (nonlinear_arith)
                requires
                    digits_value(prev) > u64::MAX,
            ;
        }
        i = i + 1;
    }
    assert(chars@.subrange(start as int, n as int) == digits);
    assert(all_digits(digits)) by {
        assert forall|j: int| 0 <= j < digits.len() implies is_digit(#[trigger] digits[j]) by {
            assert(digits[j] == chars@[j + start]);
        }
    }
    if over {
        return None;
    }
    if negative {
        if value <= 9_223_372_036_854_775_808 {
            if value == 9_223_372_036_854_775_808 {
                Some(i64::MIN)
            } else {
                Some(-(value as i64))
            }
        } else {
            None
        }
    } else if value <= 9_223_372_036_854_775_807 {
        Some(value as i64)
    } else {
        None
    }
}

/// Words joined by single spaces.
pub open spec fn join_words(ws: Seq<Seq<char>>) -> Seq<char>
    decreases ws.len(),
{
    if ws.len() == 0 {
        seq![]
    } else if ws.len() == 1 {
        ws[0]
    } else {
        join_words(ws.drop_last()) + seq![' '] + ws.last()
    }
}

} // verus!
