//! Decoding of raw parameter text into typed values, with fallback to a
//! default, and the text form of the values.
//!
//! Decoding never fails: an absent or malformed raw value yields the default.
//! No range is enforced: zero and negative numbers are decoded like any
//! other number.

use vstd::prelude::*;
use crate::decimal::{bounded_decimal_of_text, parse_decimal, Decimal, DecimalValue};
use crate::digits::{
    chars_of, decimal_text, integer_of_text, is_digit, lemma_decimal_text,
    lemma_decimal_text_injective, lemma_digits_prefix_unique, parse_digits, push_decimal,
    unsigned_part,
};

verus! {

/// The text inside an optional string slice.
pub open spec fn optional_str_text(raw: Option<&str>) -> Option<Seq<char>> {
    match raw {
        Some(s) => Some(s@),
        None => None,
    }
}

/// The text inside an optional string.
pub open spec fn optional_text(raw: Option<String>) -> Option<Seq<char>> {
    match raw {
        Some(s) => Some(s@),
        None => None,
    }
}

/// The machine integer that a text denotes: `None` when the text is
/// malformed or the number does not fit.
pub open spec fn bounded_integer_of_text(s: Seq<char>) -> Option<isize> {
    match integer_of_text(s) {
        Some(n) => if isize::MIN <= n <= isize::MAX {
            Some(n as isize)
        } else {
            None
        },
        None => None,
    }
}

/// What decoding yields: the parsed number where the raw text is present and
/// well formed, the default otherwise. Zero and negative numbers are numbers
/// like any other.
pub open spec fn decoded_integer(raw: Option<Seq<char>>, default: int) -> int {
    match raw {
        Some(s) => match bounded_integer_of_text(s) {
            Some(n) => n as int,
            None => default,
        },
        None => default,
    }
}

/// The text of an integer: a `-` for a negative one, then the shortest
/// digits of its magnitude.
pub open spec fn integer_text(n: int) -> Seq<char> {
    if n < 0 {
        seq!['-'] + decimal_text((-n) as nat)
    } else {
        decimal_text(n as nat)
    }
}

/// What decoding yields: the parsed decimal where the raw text is present
/// and well formed, the default otherwise.
pub open spec fn decoded_decimal(raw: Option<Seq<char>>, default: DecimalValue) -> DecimalValue {
    match raw {
        Some(s) => match bounded_decimal_of_text(s) {
            Some(v) => v,
            None => default,
        },
        None => default,
    }
}

/// The text of any integer is a well-formed integer text that denotes the
/// integer.
pub proof fn lemma_integer_text_round_trip(n: int)
    ensures
        integer_of_text(integer_text(n)) == Some(n),
{
    if n < 0 {
        lemma_decimal_text((-n) as nat);
        assert(unsigned_part(integer_text(n)) =~= decimal_text((-n) as nat));
    } else {
        lemma_decimal_text(n as nat);
    }
}

/// The text of an integer that is followed by something else can be read off
/// in one way only: where two such texts are equal, so are the integers and
/// so is what follows them.
pub proof fn lemma_integer_text_prefix_unique(
    a: int,
    after_a: Seq<char>,
    b: int,
    after_b: Seq<char>,
)
    requires
        after_a.len() > 0 && !is_digit(after_a[0]),
        after_b.len() > 0 && !is_digit(after_b[0]),
        integer_text(a) + after_a == integer_text(b) + after_b,
    ensures
        a == b,
        after_a == after_b,
{
    let whole_a = integer_text(a) + after_a;
    let whole_b = integer_text(b) + after_b;
    let digits_a = decimal_text((if a < 0 { -a } else { a }) as nat);
    let digits_b = decimal_text((if b < 0 { -b } else { b }) as nat);
    lemma_decimal_text((if a < 0 { -a } else { a }) as nat);
    lemma_decimal_text((if b < 0 { -b } else { b }) as nat);
    assert(whole_a[0] == integer_text(a)[0]);
    assert(whole_b[0] == integer_text(b)[0]);
    assert(is_digit(digits_a[0]) && is_digit(digits_b[0]));
    if a < 0 {
        assert(whole_a[0] == '-');
        assert(b < 0);
        assert(whole_a.skip(1) =~= digits_a + after_a);
        assert(whole_b.skip(1) =~= digits_b + after_b);
    } else {
        assert(is_digit(whole_a[0]));
        assert(b >= 0);
    }
    lemma_digits_prefix_unique(digits_a, after_a, digits_b, after_b);
    lemma_decimal_text_injective(
        (if a < 0 { -a } else { a }) as nat,
        (if b < 0 { -b } else { b }) as nat,
    );
}

/// Parses an integer.
pub fn parse_integer(text: &str) -> (parsed: Option<isize>)
    ensures
        parsed == bounded_integer_of_text(text@),
{
    let chars = chars_of(text);
    let n = chars.len();
    let minus = n > 0 && chars[0] == '-';
    let start: usize = if n > 0 && (chars[0] == '-' || chars[0] == '+') {
        1
    } else {
        0
    };
    proof {
        assert(chars@.subrange(start as int, n as int) =~= unsigned_part(text@));
    }
    if start == n {
        return None;
    }
    match parse_digits(&chars, start, n) {
        Some(v) => {
            let most: u64 = isize::MAX as u64;
            if v <= most {
                if minus {
                    Some(-(v as isize))
                } else {
                    Some(v as isize)
                }
            } else if minus && v - 1 == most {
                Some(isize::MIN)
            } else {
                None
            }
        },
        None => None,
    }
}

/// Decodes an integer parameter: the parsed value of `raw` where it is
/// present and well formed, `default` in every other case.
pub fn decode_integer(raw: Option<&str>, default: isize) -> (value: isize)
    ensures
        value == decoded_integer(optional_str_text(raw), default as int),
{
    match raw {
        Some(s) => match parse_integer(s) {
            Some(n) => n,
            None => default,
        },
        None => default,
    }
}

/// Appends the text of `n` to `out`.
pub fn push_integer(out: &mut String, n: isize)
    ensures
        final(out)@ == old(out)@ + integer_text(n as int),
{
    if n < 0 {
        out.push('-');
        let magnitude: u64 = (-(n + 1)) as u64 + 1;
        push_decimal(out, magnitude);
        proof {
            let digits = decimal_text((-n) as nat);
            assert(old(out)@.push('-') + digits =~= old(out)@ + (seq!['-'] + digits));
        }
    } else {
        push_decimal(out, n as u64);
    }
}

/// The text of `n`.
pub fn format_integer(n: isize) -> (text: String)
    ensures
        text@ == integer_text(n as int),
{
    let mut text = String::new();
    push_integer(&mut text, n);
    text
}

/// Decodes a decimal parameter: the parsed value of `raw` where it is
/// present and well formed, `default` in every other case.
pub fn decode_decimal(raw: Option<&str>, default: Decimal) -> (value: Decimal)
    ensures
        value@ == decoded_decimal(optional_str_text(raw), default@),
{
    match raw {
        Some(s) => match parse_decimal(s) {
            Some(v) => v,
            None => default,
        },
        None => default,
    }
}

} // verus!
