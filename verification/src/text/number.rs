//! Decimal numbers.
use crate::text::class::{digit, is_digit};
use crate::text::make::{cat2, from_chars, to_chars};
use vstd::prelude::*;

verus! {

/// The ASCII digit of `n`.
pub open spec fn digit_of(n: nat) -> char {
    ('0' as u8 + n % 10) as char
}

/// `n` in decimal.
pub open spec fn decimal(n: nat) -> Seq<char>
    decreases n,
{
    if n < 10 {
        seq![digit_of(n)]
    } else {
        decimal(n / 10).push(digit_of(n))
    }
}

fn digit_char(n: u64) -> (r: char)
    requires
        n < 10,
    ensures
        r == digit_of(n as nat),
{
    (48u8 + n as u8) as char
}

fn decimal_chars(n: u64) -> (r: Vec<char>)
    ensures
        r@ == decimal(n as nat),
    decreases n,
{
    if n < 10 {
        let mut out: Vec<char> = Vec::new();
        out.push(digit_char(n));
        assert(out@ =~= decimal(n as nat));
        out
    } else {
        let mut out = decimal_chars(n / 10);
        out.push(digit_char(n % 10));
        assert(digit_of(n as nat) == digit_of((n % 10) as nat));
        out
    }
}

/// Writes `n` in decimal.
pub fn show(n: u64) -> (r: String)
    ensures
        r@ == decimal(n as nat),
{
    from_chars(&decimal_chars(n))
}

/// Writes `n` in decimal.
pub fn show_size(n: usize) -> (r: String)
    ensures
        r@ == decimal(n as nat),
{
    show(n as u64)
}

/// `n` in decimal, with a minus sign before a negative number.
pub open spec fn signed_decimal(n: int) -> Seq<char> {
    if n < 0 {
        "-"@ + decimal((-n) as nat)
    } else {
        decimal(n as nat)
    }
}

/// Writes `n` in decimal.
pub fn show_signed(n: i64) -> (r: String)
    ensures
        r@ == signed_decimal(n as int),
{
    if n < 0 {
        let magnitude: u64 = (-(n as i128)) as u64;
        cat2("-", show(magnitude).as_str())
    } else {
        show(n as u64)
    }
}

/// `count` spaces.
pub open spec fn spaces(count: nat) -> Seq<char> {
    Seq::new(count, |i: int| ' ')
}

/// `text` with spaces before it up to `width` characters.
pub open spec fn right_aligned(text: Seq<char>, width: nat) -> Seq<char> {
    if text.len() >= width {
        text
    } else {
        spaces((width - text.len()) as nat) + text
    }
}

/// Computes [`right_aligned`].
pub fn align_right(text: &str, width: usize) -> (r: String)
    ensures
        r@ == right_aligned(text@, width as nat),
{
    let n = text.unicode_len();
    if n >= width {
        return text.to_owned();
    }
    let mut pad = String::new();
    let mut i: usize = 0;
    while i < width - n
        invariant
            n < width,
            i <= width - n,
            pad@ == spaces(i as nat),
        decreases width - n - i,
    {
        pad.push(' ');
        i += 1;
        assert(pad@ =~= spaces(i as nat));
    }
    cat2(pad.as_str(), text)
}

/// `n` in decimal, with spaces before it up to `width` characters.
pub open spec fn padded(n: nat, width: nat) -> Seq<char> {
    right_aligned(decimal(n), width)
}

/// Computes [`padded`].
pub fn pad(n: u64, width: usize) -> (r: String)
    ensures
        r@ == padded(n as nat, width as nat),
{
    align_right(show(n).as_str(), width)
}

/// The value of a run of ASCII digits.
pub open spec fn digits_value(text: Seq<char>) -> nat
    decreases text.len(),
{
    if text.len() == 0 {
        0
    } else {
        digits_value(text.drop_last()) * 10 + (text.last() as nat - '0' as nat) as nat
    }
}

/// The digits of a number without its optional plus sign.
pub open spec fn unsigned_part(text: Seq<char>) -> Seq<char> {
    if text.len() > 0 && text[0] == '+' {
        text.skip(1)
    } else {
        text
    }
}

/// The number that `text` writes: ASCII digits, at least one, after an optional plus
/// sign, with a value of at most `limit`.
pub open spec fn number(text: Seq<char>, limit: nat) -> Option<nat> {
    let digits = unsigned_part(text);
    if digits.len() > 0 && (forall|i: int| 0 <= i < digits.len() ==> digit(#[trigger] digits[i]))
        && digits_value(digits) <= limit {
        Some(digits_value(digits))
    } else {
        None
    }
}

proof fn digits_value_grows(text: Seq<char>, i: int)
    requires
        0 <= i <= text.len(),
        forall|j: int| 0 <= j < text.len() ==> digit(#[trigger] text[j]),
    ensures
        digits_value(text.take(i)) <= digits_value(text),
    decreases text.len(),
{
    if i == text.len() {
        assert(text.take(i) =~= text);
    } else {
        assert(text.drop_last().take(i) =~= text.take(i));
        digits_value_grows(text.drop_last(), i);
    }
}

/// Reads a number of 64 bits, as `str::parse` does.
pub fn parse_u64(text: &str) -> (r: Option<u64>)
    ensures
        match r {
            Some(n) => number(text@, u64::MAX as nat) == Some(n as nat),
            None => number(text@, u64::MAX as nat) is None,
        },
{
    let t = to_chars(text);
    let start: usize = if t.len() > 0 && t[0] == '+' { 1 } else { 0 };
    let ghost digits = unsigned_part(text@);
    assert(digits =~= text@.skip(start as int));
    if start == t.len() {
        return None;
    }
    let mut value: u64 = 0;
    let mut i: usize = start;
    assert(digits.take(0) =~= Seq::<char>::empty());
    while i < t.len()
        invariant
            t@ == text@,
            start <= i <= t.len(),
            digits == unsigned_part(text@),
            digits == text@.skip(start as int),
            start < t.len(),
            forall|j: int| 0 <= j < i - start ==> digit(#[trigger] digits[j]),
            value == digits_value(digits.take(i - start)),
        decreases t.len() - i,
    {
        let c = t[i];
        assert(c == digits[i - start]);
        if !is_digit(c) {
            return None;
        }
        let d: u64 = c as u64 - '0' as u64;
        proof {
            assert(digits.take(i - start + 1).drop_last() =~= digits.take(i - start));
        }
        match value.checked_mul(10) {
            Some(scaled) => match scaled.checked_add(d) {
                Some(next) => {
                    value = next;
                },
                None => {
                    proof {
                        if forall|j: int| 0 <= j < digits.len() ==> digit(#[trigger] digits[j]) {
                            digits_value_grows(digits, i - start + 1);
                        }
                    }
                    return None;
                },
            },
            None => {
                proof {
                    if forall|j: int| 0 <= j < digits.len() ==> digit(#[trigger] digits[j]) {
                        digits_value_grows(digits, i - start + 1);
                    }
                }
                return None;
            },
        }
        i += 1;
    }
    assert(digits.take(digits.len() as int) =~= digits);
    Some(value)
}

/// Reads a number of a machine word.
pub fn parse_usize(text: &str) -> (r: Option<usize>)
    ensures
        match r {
            Some(n) => number(text@, usize::MAX as nat) == Some(n as nat),
            None => number(text@, usize::MAX as nat) is None,
        },
{
    match parse_u64(text) {
        Some(n) => if n <= usize::MAX as u64 {
            Some(n as usize)
        } else {
            None
        },
        None => None,
    }
}

/// Every number reads back as it was written.
pub proof fn decimal_reads_back(n: nat, limit: nat)
    requires
        n <= limit,
    ensures
        number(decimal(n), limit) == Some(n),
{
    decimal_digits(n);
    assert(unsigned_part(decimal(n)) == decimal(n));
}

/// A number is written in digits, at least one, and reads as itself.
pub proof fn decimal_digits(n: nat)
    ensures
        decimal(n).len() > 0,
        digits_value(decimal(n)) == n,
        forall|i: int| 0 <= i < decimal(n).len() ==> digit(#[trigger] decimal(n)[i]),
        decimal(n)[0] != '+',
    decreases n,
{
    assert(0 <= n % 10 < 10);
    if n < 10 {
        assert(decimal(n).drop_last() =~= Seq::<char>::empty());
        assert(digits_value(Seq::<char>::empty()) == 0);
    } else {
        decimal_digits(n / 10);
        assert(decimal(n).drop_last() =~= decimal(n / 10));
    }
}

/// `text` with spaces behind it up to `width` characters.
pub open spec fn left_aligned(text: Seq<char>, width: nat) -> Seq<char> {
    if text.len() >= width {
        text
    } else {
        text + spaces((width - text.len()) as nat)
    }
}

/// Computes [`left_aligned`].
pub fn align_left(text: &str, width: usize) -> (r: String)
    ensures
        r@ == left_aligned(text@, width as nat),
{
    let n = text.unicode_len();
    let mut out = text.to_owned();
    let mut i: usize = 0;
    assert(text@ + spaces(0) =~= text@);
    if n >= width {
        return out;
    }
    while i < width - n
        invariant
            n < width,
            n == text@.len(),
            i <= width - n,
            out@ == text@ + spaces(i as nat),
        decreases width - n - i,
    {
        out.push(' ');
        i += 1;
        assert(out@ =~= text@ + spaces(i as nat));
    }
    out
}

/// A number with its sign, plus or minus.
pub open spec fn with_sign(n: int) -> Seq<char> {
    if n >= 0 {
        "+"@ + decimal(n as nat)
    } else {
        signed_decimal(n)
    }
}

/// Computes [`with_sign`].
pub fn show_with_sign(n: i64) -> (r: String)
    ensures
        r@ == with_sign(n as int),
{
    if n >= 0 {
        cat2("+", show(n as u64).as_str())
    } else {
        show_signed(n)
    }
}

/// The signed number that `text` writes: ASCII digits, at least one, after an optional
/// sign, within 64 bits.
pub open spec fn signed_number(text: Seq<char>) -> Option<int> {
    if text.len() > 0 && text[0] == '-' {
        let digits = text.skip(1);
        if digits.len() > 0 && digits[0] != '+' && number(digits, (-(i64::MIN as int)) as nat)
            is Some {
            Some(-(number(digits, (-(i64::MIN as int)) as nat)->0 as int))
        } else {
            None
        }
    } else {
        match number(text, i64::MAX as nat) {
            Some(n) => Some(n as int),
            None => None,
        }
    }
}

/// Reads a signed number of 64 bits, as `str::parse` does.
pub fn parse_i64(text: &str) -> (r: Option<i64>)
    ensures
        match r {
            Some(n) => signed_number(text@) == Some(n as int),
            None => signed_number(text@) is None,
        },
{
    let length = text.unicode_len();
    if length > 0 && text.get_char(0) == '-' {
        let digits = text.substring_char(1, length);
        assert(digits@ =~= text@.skip(1));
        if digits.unicode_len() == 0 || digits.get_char(0) == '+' {
            return None;
        }
        match parse_u64(digits) {
            Some(n) => if n <= 0x8000_0000_0000_0000 {
                Some((-(n as i128)) as i64)
            } else {
                None
            },
            None => None,
        }
    } else {
        match parse_u64(text) {
            Some(n) => if n <= i64::MAX as u64 {
                Some(n as i64)
            } else {
                None
            },
            None => None,
        }
    }
}

} // verus!
