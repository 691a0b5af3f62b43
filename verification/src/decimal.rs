//! Integers written in decimal, and decimal text read back as integers.

use vstd::prelude::*;
use vstd::string::*;
use vstd::utf8::is_ascii_chars;

verus! {

/// The character that writes the digit `d`.
pub open spec fn digit_char(d: int) -> char
    recommends
        0 <= d < 10,
{
    seq!['0', '1', '2', '3', '4', '5', '6', '7', '8', '9'][d]
}

/// Whether `c` is one of the ten decimal digits.
pub open spec fn is_digit(c: char) -> bool {
    '0' <= c <= '9'
}

/// The number that the digit `c` stands for.
pub open spec fn digit_value(c: char) -> int
    recommends
        is_digit(c),
{
    c as int - '0' as int
}

/// A natural number written in decimal, most significant digit first, without
/// leading zeros.
pub open spec fn natural_text(n: nat) -> Seq<char>
    decreases n,
{
    if n < 10 {
        seq![digit_char(n as int)]
    } else {
        natural_text(n / 10).push(digit_char((n % 10) as int))
    }
}

/// An integer written in decimal: a minus sign for negative numbers, then the
/// magnitude.
pub open spec fn decimal_text(v: int) -> Seq<char> {
    if v < 0 {
        seq!['-'] + natural_text((-v) as nat)
    } else {
        natural_text(v as nat)
    }
}

/// The number that a run of digits denotes; leading zeros are allowed.
pub open spec fn digits_value(s: Seq<char>) -> nat
    decreases s.len(),
{
    if s.len() == 0 {
        0
    } else {
        (digits_value(s.drop_last()) * 10 + digit_value(s.last())) as nat
    }
}

/// Whether every character of `s` is a decimal digit.
pub open spec fn all_digits(s: Seq<char>) -> bool {
    forall|i: int| 0 <= i < s.len() ==> is_digit(#[trigger] s[i])
}

/// Whether `s` starts with a sign character.
pub open spec fn has_sign(s: Seq<char>) -> bool {
    s.len() > 0 && (s[0] == '-' || s[0] == '+')
}

/// The digits of `s`, that is `s` without its sign if it has one.
pub open spec fn unsigned_part(s: Seq<char>) -> Seq<char> {
    if has_sign(s) {
        s.skip(1)
    } else {
        s
    }
}

/// The integer that `s` denotes: an optional `+` or `-`, then at least one
/// digit and nothing else. Any other text denotes nothing.
pub open spec fn decimal_value(s: Seq<char>) -> Option<int> {
    let body = unsigned_part(s);
    if body.len() == 0 || !all_digits(body) {
        None
    } else if s[0] == '-' {
        Some(-(digits_value(body) as int))
    } else {
        Some(digits_value(body) as int)
    }
}

/// The integer that `s` denotes, provided it lies between `low` and `high`.
pub open spec fn decimal_value_within(s: Seq<char>, low: int, high: int) -> Option<int> {
    match decimal_value(s) {
        Some(v) => if low <= v <= high {
            Some(v)
        } else {
            None
        },
        None => None,
    }
}

/// The most significant digits first: `s` read from its end.
pub open spec fn backwards(s: Seq<char>) -> Seq<char> {
    Seq::new(s.len(), |i: int| s[s.len() - 1 - i])
}

/// The character for one digit.
pub fn digit(d: u8) -> (c: char)
    requires
        d < 10,
    ensures
        c == digit_char(d as int),
{
    if d == 0 {
        '0'
    } else if d == 1 {
        '1'
    } else if d == 2 {
        '2'
    } else if d == 3 {
        '3'
    } else if d == 4 {
        '4'
    } else if d == 5 {
        '5'
    } else if d == 6 {
        '6'
    } else if d == 7 {
        '7'
    } else if d == 8 {
        '8'
    } else {
        '9'
    }
}

/// Appends `n` in decimal to `out`.
pub fn append_natural(out: &mut String, n: u128)
    ensures
        final(out)@ == old(out)@ + natural_text(n as nat),
{
    let ghost start = out@;
    let mut low_first: Vec<char> = Vec::new();
    let mut rest: u128 = n;
    while rest >= 10
        invariant
            natural_text(n as nat) =~= natural_text(rest as nat) + backwards(low_first@),
        decreases rest,
    {
        let ghost before = low_first@;
        let d = digit((rest % 10) as u8);
        low_first.push(d);
        assert(backwards(low_first@) =~= seq![d] + backwards(before));
        rest = rest / 10;
    }
    out.push(digit(rest as u8));
    let mut i: usize = low_first.len();
    while i > 0
        invariant
            i <= low_first.len(),
            out@ =~= start + natural_text(rest as nat) + backwards(low_first@).take(
                low_first.len() - i,
            ),
            rest < 10,
        decreases i,
    {
        i = i - 1;
        out.push(low_first[i]);
    }
    assert(backwards(low_first@).take(low_first.len() as int) =~= backwards(low_first@));
}

/// Appends `v` in decimal to `out`.
pub fn append_decimal(out: &mut String, v: i128)
    ensures
        final(out)@ == old(out)@ + decimal_text(v as int),
{
    if v < 0 {
        let ghost start = out@;
        out.push('-');
        let magnitude: u128 = ((-(v + 1)) as u128) + 1;
        append_natural(out, magnitude);
        assert(out@ =~= start + (seq!['-'] + natural_text((-v) as nat)));
    } else {
        append_natural(out, v as u128);
    }
}

/// `v` in decimal.
pub fn decimal_string(v: i128) -> (s: String)
    ensures
        s@ == decimal_text(v as int),
{
    let mut s = String::new();
    append_decimal(&mut s, v);
    assert(s@ =~= decimal_text(v as int));
    s
}

/// Reads a decimal integer between `low` and `high`.
///
/// The text is an optional sign followed by digits only; surrounding blanks,
/// separators and an empty digit run are refused, and so is a number outside
/// the bounds.
pub fn parse_decimal(s: &str, low: i64, high: i64) -> (parsed: Option<i64>)
    ensures
        parsed == match decimal_value_within(s@, low as int, high as int) {
            Some(v) => Some(v as i64),
            None => None::<i64>,
        },
{
    if !s.is_ascii() {
        proof {
            lemma_not_ascii_denotes_nothing(s@);
        }
        return None;
    }
    broadcast use vstd::string::is_ascii_spec_bytes;

    let bytes = s.as_bytes();
    let n = bytes.len();
    if n == 0 {
        return None;
    }
    let first = bytes[0];
    let negative = first == 45;
    let signed = first == 45 || first == 43;
    assert(has_sign(s@) == signed);
    let from: usize = if signed {
        1
    } else {
        0
    };
    if from == n {
        return None;
    }
    let ghost body = unsigned_part(s@);
    let mut magnitude: u128 = 0;
    let mut too_large = false;
    let mut i: usize = from;
    while i < n
        invariant
            from <= i <= n,
            n == s@.len(),
            bytes@.len() == n,
            forall|k: int| 0 <= k < n ==> bytes@[k] == s@[k] as u8,
            is_ascii_chars(s@),
            body == unsigned_part(s@),
            body.len() == n - from,
            from == (if has_sign(s@) { 1int } else { 0int }),
            all_digits(body.take(i - from)),
            !too_large ==> magnitude == digits_value(body.take(i - from)),
            !too_large ==> magnitude <= 0x8000_0000_0000_0000,
            too_large ==> digits_value(body.take(i - from)) > 0x8000_0000_0000_0000,
        decreases n - i,
    {
        let b = bytes[i];
        let ghost prefix = body.take(i - from);
        let ghost longer = body.take(i - from + 1);
        assert(longer.drop_last() =~= prefix);
        assert(longer.last() == s@[i as int]);
        assert('\0' <= s@[i as int] <= '\u{7f}');
        if b < 48 || b > 57 {
            assert(!is_digit(body[i - from]));
            return None;
        }
        assert(is_digit(s@[i as int]));
        assert(digit_value(s@[i as int]) == b - 48);
        if !too_large {
            let next: u128 = magnitude * 10 + (b - 48) as u128;
            if next > 0x8000_0000_0000_0000 {
                too_large = true;
            } else {
                magnitude = next;
            }
        }
        i = i + 1;
    }
    assert(body.take(n - from) =~= body);
    if too_large {
        return None;
    }
    if negative {
        let v: i128 = -(magnitude as i128);
        if v < low as i128 || v > high as i128 {
            None
        } else {
            Some(v as i64)
        }
    } else {
        let v: i128 = magnitude as i128;
        if v < low as i128 || v > high as i128 {
            None
        } else {
            Some(v as i64)
        }
    }
}

/// Reads a decimal integer that fits in 64 bits.
pub fn parse_i64(s: &str) -> (parsed: Option<i64>)
    ensures
        parsed == match decimal_value_within(s@, i64::MIN as int, i64::MAX as int) {
            Some(v) => Some(v as i64),
            None => None::<i64>,
        },
{
    parse_decimal(s, i64::MIN, i64::MAX)
}

/// Reads a decimal integer that fits in 32 bits.
pub fn parse_i32(s: &str) -> (parsed: Option<i32>)
    ensures
        parsed == match decimal_value_within(s@, i32::MIN as int, i32::MAX as int) {
            Some(v) => Some(v as i32),
            None => None::<i32>,
        },
{
    match parse_decimal(s, -0x8000_0000, 0x7fff_ffff) {
        Some(v) => Some(v as i32),
        None => None,
    }
}

/// Text with a character outside ASCII denotes no integer.
proof fn lemma_not_ascii_denotes_nothing(s: Seq<char>)
    requires
        !is_ascii_chars(s),
    ensures
        decimal_value(s) is None,
{
    let i = choose|i: int| 0 <= i < s.len() && !('\0' <= #[trigger] s[i] <= '\u{7f}');
    let body = unsigned_part(s);
    if has_sign(s) {
        assert(i > 0);
        assert(body[i - 1] == s[i]);
        assert(!is_digit(body[i - 1]));
    } else {
        assert(!is_digit(body[i]));
    }
}

/// Every character of a written natural number is a digit, and the digits
/// denote the number.
pub proof fn lemma_natural_text_reads_back(n: nat)
    ensures
        natural_text(n).len() > 0,
        all_digits(natural_text(n)),
        digits_value(natural_text(n)) == n,
    decreases n,
{
    if n < 10 {
        let t = natural_text(n);
        assert(t.drop_last() =~= Seq::<char>::empty());
        assert(digits_value(t.drop_last()) == 0);
    } else {
        lemma_natural_text_reads_back(n / 10);
        let t = natural_text(n);
        assert(t.drop_last() =~= natural_text(n / 10));
    }
}

/// Reading what was written gives the number back: for every integer `v`,
/// the text `decimal_text(v)` denotes `v`.
pub proof fn lemma_decimal_round_trip(v: int)
    ensures
        decimal_value(decimal_text(v)) == Some(v),
{
    if v < 0 {
        let m = (-v) as nat;
        lemma_natural_text_reads_back(m);
        let t = decimal_text(v);
        assert(t.skip(1) =~= natural_text(m));
    } else {
        lemma_natural_text_reads_back(v as nat);
        let t = natural_text(v as nat);
        assert(is_digit(t[0]));
    }
}

} // verus!
