//! Numbers as text: decimal output, and decimal or hexadecimal input.

use vstd::prelude::*;

use crate::text::join2;

verus! {

/// The decimal digit that stands for `d`.
pub open spec fn decimal_digit(d: nat) -> char {
    (48 + d) as char
}

/// `n` in decimal notation, without leading zeros.
pub open spec fn decimal(n: nat) -> Seq<char>
    decreases n,
{
    if n < 10 {
        seq![decimal_digit(n)]
    } else {
        decimal(n / 10).push(decimal_digit(n % 10))
    }
}

/// `n` in decimal notation, with a minus sign where it is negative.
pub open spec fn signed_decimal(n: int) -> Seq<char> {
    if n < 0 {
        "-"@ + decimal((-n) as nat)
    } else {
        decimal(n as nat)
    }
}

/// What the character `c` counts as a digit: `0` to `9`, then letters of either case.
pub open spec fn digit_value(c: char) -> nat {
    if '0' <= c <= '9' {
        (c as u32 - '0' as u32) as nat
    } else if 'a' <= c <= 'z' {
        (c as u32 - 'a' as u32 + 10) as nat
    } else if 'A' <= c <= 'Z' {
        (c as u32 - 'A' as u32 + 10) as nat
    } else {
        36
    }
}

/// The number that the digits `s` write in base `radix`.
pub open spec fn digits_value(s: Seq<char>, radix: nat) -> nat
    decreases s.len(),
{
    if s.len() == 0 {
        0
    } else {
        digits_value(s.drop_last(), radix) * radix + digit_value(s.last())
    }
}

/// `s` without a leading plus sign.
pub open spec fn without_plus(s: Seq<char>) -> Seq<char> {
    if s.len() > 0 && s[0] == '+' {
        s.skip(1)
    } else {
        s
    }
}

/// The number no greater than `max` that `s` writes in base `radix`: an optional plus sign and one
/// or more digits, nothing else.
pub open spec fn unsigned_value(s: Seq<char>, radix: nat, max: nat) -> Option<nat> {
    let digits = without_plus(s);
    if digits.len() > 0 && (forall|i: int|
        0 <= i < digits.len() ==> digit_value(#[trigger] digits[i]) < radix) && digits_value(
        digits,
        radix,
    ) <= max {
        Some(digits_value(digits, radix))
    } else {
        None
    }
}

/// The text of the error with which `str::parse::<u16>` refuses `s`.
pub uninterp spec fn u16_error_text(s: Seq<char>) -> Seq<char>;

/// The text of the error with which `usize::from_str_radix`, in base 16, refuses `s`. Where `s` has
/// both too many digits and a character that is none, the width of `usize` decides which is named.
pub uninterp spec fn hex_error_text(s: Seq<char>) -> Seq<char>;

/// `str::parse::<u16>` of the standard library, with the error as its text. An optional plus sign
/// and decimal digits that write at most `u16::MAX` are accepted, for the number they write. All
/// else is refused, in words that depend on `s` alone and are not spelled out here.
#[verifier::external_body]
pub(crate) fn parse_u16(s: &str) -> (r: Result<u16, String>)
    ensures
        match r {
            Ok(v) => unsigned_value(s@, 10, u16::MAX as nat) == Some(v as nat),
            Err(e) => unsigned_value(s@, 10, u16::MAX as nat) is None && e@ == u16_error_text(s@),
        },
{
    match s.parse::<u16>() {
        Ok(v) => Ok(v),
        Err(e) => Err(e.to_string()),
    }
}

/// `str::parse::<usize>` of the standard library, without its error. An optional plus sign and
/// decimal digits that write at most `usize::MAX` are accepted, for the number they write.
#[verifier::external_body]
pub(crate) fn parse_usize(s: &str) -> (r: Option<usize>)
    ensures
        match r {
            Some(v) => unsigned_value(s@, 10, usize::MAX as nat) == Some(v as nat),
            None => unsigned_value(s@, 10, usize::MAX as nat) is None,
        },
{
    s.parse::<usize>().ok()
}

/// `usize::from_str_radix` of the standard library in base 16, with the error as its text. An
/// optional plus sign and hexadecimal digits of either case that write at most `usize::MAX` are
/// accepted, for the number they write. All else is refused, in words that depend on `s` alone and
/// are not spelled out here.
#[verifier::external_body]
pub(crate) fn parse_hex(s: &str) -> (r: Result<usize, String>)
    ensures
        match r {
            Ok(v) => unsigned_value(s@, 16, usize::MAX as nat) == Some(v as nat),
            Err(e) => unsigned_value(s@, 16, usize::MAX as nat) is None && e@ == hex_error_text(s@),
        },
{
    match usize::from_str_radix(s, 16) {
        Ok(v) => Ok(v),
        Err(e) => Err(e.to_string()),
    }
}

/// `n` in decimal notation.
pub fn decimal_text(n: u64) -> (r: String)
    ensures
        r@ == decimal(n as nat),
    decreases n,
{
    let digit: char = (48u8 + (n % 10) as u8) as char;
    if n < 10 {
        let mut r = String::new();
        r.push(digit);
        assert(r@ =~= decimal(n as nat));
        r
    } else {
        let mut r = decimal_text(n / 10);
        r.push(digit);
        r
    }
}

/// `n` in decimal notation, with a minus sign where it is negative.
pub fn signed_decimal_text(n: i32) -> (r: String)
    ensures
        r@ == signed_decimal(n as int),
{
    if n < 0 {
        join2("-", decimal_text((-(n as i64)) as u64).as_str())
    } else {
        decimal_text(n as u64)
    }
}

/// Whether the character `c` writes the digit `d`: by its code point, one of `0` to `9`, or one of `a`
/// to `f` in either case.
pub open spec fn writes_digit(c: char, d: nat) -> bool {
    ||| d < 10 && c as int == 48 + d
    ||| 10 <= d < 16 && c as int == 87 + d
    ||| 10 <= d < 16 && c as int == 55 + d
}

/// A single digit is read as its number, where that is not too large.
pub proof fn law_digit_is_read(c: char, d: nat, radix: nat, max: nat)
    requires
        writes_digit(c, d),
        d < radix <= 16,
    ensures
        unsigned_value(seq![c], radix, max) == (if d <= max {
            Some(d)
        } else {
            None
        }),
{
    let s = seq![c];
    assert(digit_value(c) == d);
    assert(s.drop_last() =~= seq![]);
    assert(digits_value(s.drop_last(), radix) == 0);
    assert(digits_value(s, radix) == 0 * radix + d);
    assert(0 * radix == 0) by (nonlinear_arith);
    assert(s[0] == c);
}

/// A digit after a text that is read as `v` is read as `v` times the base and that digit, where that is
/// not too large.
pub proof fn law_next_digit_is_read(s: Seq<char>, v: nat, c: char, d: nat, radix: nat, max: nat)
    requires
        unsigned_value(s, radix, v) == Some(v),
        writes_digit(c, d),
        d < radix <= 16,
    ensures
        unsigned_value(s.push(c), radix, max) == (if v * radix + d <= max {
            Some(v * radix + d)
        } else {
            None
        }),
{
    let digits = without_plus(s);
    let more = without_plus(s.push(c));
    assert(digit_value(c) == d);
    assert(more =~= digits.push(c));
    assert(more.drop_last() =~= digits);
    assert(digits_value(more, radix) == v * radix + d);
    assert forall|i: int| 0 <= i < more.len() implies digit_value(#[trigger] more[i]) < radix by {
        if i < digits.len() {
            assert(more[i] == digits[i]);
        }
    }
}

/// A plus sign before a text makes no difference, where the text has none of its own.
pub proof fn law_plus_is_skipped(s: Seq<char>, radix: nat, max: nat)
    requires
        s.len() > 0 ==> s[0] != '+',
    ensures
        unsigned_value(seq!['+'] + s, radix, max) == unsigned_value(s, radix, max),
{
    assert((seq!['+'] + s).skip(1) =~= s);
}

/// A text without digits is no number, nor is one with a character, other than a plus sign at its
/// start, that writes no digit of the base.
pub proof fn law_no_number(s: Seq<char>, i: int, radix: nat, max: nat)
    requires
        radix <= 16,
        0 <= i < s.len() ==> (i > 0 || s[i] != '+') && forall|d: nat|
            d < radix ==> !#[trigger] writes_digit(s[i], d),
    ensures
        s.len() == 0 ==> unsigned_value(s, radix, max) is None,
        s == seq!['+'] ==> unsigned_value(s, radix, max) is None,
        0 <= i < s.len() ==> unsigned_value(s, radix, max) is None,
{
    let digits = without_plus(s);
    if 0 <= i < s.len() {
        let k = if s.len() > 0 && s[0] == '+' {
            i - 1
        } else {
            i
        };
        assert(digits[k] == s[i]);
        let d = digit_value(s[i]);
        if d < radix {
            assert(writes_digit(s[i], d));
        }
        assert(digit_value(digits[k]) >= radix);
    }
    if s == seq!['+'] {
        assert(s[0] == '+');
        assert(digits.len() == 0);
    }
}

/// The decimal notation of a number below ten is its digit, and that of a greater number is that of its
/// tens with the digit of its units after it.
pub proof fn law_decimal(tens: nat, units: nat)
    requires
        units < 10,
    ensures
        decimal(units) == seq![(48 + units) as char],
        tens > 0 ==> decimal(10 * tens + units) == decimal(tens).push((48 + units) as char),
{
    if tens > 0 {
        assert((10 * tens + units) / 10 == tens);
        assert((10 * tens + units) % 10 == units);
    }
}

/// The decimal notation of a number has digits only, by their code points.
pub proof fn lemma_decimal_digits(n: nat)
    ensures
        decimal(n).len() > 0,
        forall|i: int| 0 <= i < decimal(n).len() ==> 48 <= #[trigger] decimal(n)[i] as int <= 57,
    decreases n,
{
    if n >= 10 {
        lemma_decimal_digits(n / 10);
    }
}

/// The decimal notation of a number is read as that number, where it is not too large.
pub proof fn law_decimal_reads_back(n: nat, max: nat)
    ensures
        unsigned_value(decimal(n), 10, max) == (if n <= max {
            Some(n)
        } else {
            None
        }),
    decreases n,
{
    if n < 10 {
        law_digit_is_read(decimal_digit(n), n, 10, max);
    } else {
        law_decimal_reads_back(n / 10, n / 10);
        law_next_digit_is_read(
            decimal(n / 10),
            n / 10,
            decimal_digit(n % 10),
            n % 10,
            10,
            max,
        );
    }
}

/// A negative number is a minus sign and the number without it; any other number has no sign.
pub proof fn law_signed_decimal(n: nat)
    ensures
        signed_decimal(n as int) == decimal(n),
        n > 0 ==> signed_decimal(-(n as int)) == seq!['-'] + decimal(n),
{
    reveal_strlit("-");
    assert("-"@ =~= seq!['-']);
}

} // verus!
