//! Exact decimal numbers and their text form.
//!
//! A decimal is a sign, a mantissa and a scale: it stands for
//! `mantissa / 10^scale`, negated where the sign says so. Every value is kept
//! in its shortest form, so that equal numbers are equal values and print the
//! same text: the fraction carries no trailing zero and zero has no sign.
//!
//! A decimal is read from plain or exponent notation (`2.5`, `.5`, `1e3`,
//! `25E-1`) and written in plain notation. Every decimal is a finite number:
//! the words `inf`, `infinity` and `nan` are not decimal texts.

use vstd::prelude::*;
use crate::digits::{
    all_digits, char_is_digit, chars_of, decimal_digits, decimal_text, digit_char, digits_value,
    integer_of_text, is_digit, lemma_decimal_text, lemma_digits_value_leading_zeros,
    lemma_digits_value_push, parse_digits, push_chars, unsigned_part,
};

verus! {

/// The mathematical content of a decimal: it stands for
/// `mantissa / 10^scale`, negated when `negative` holds.
pub struct DecimalValue {
    pub negative: bool,
    pub mantissa: nat,
    pub scale: nat,
}

/// The shortest form: no trailing zero in the fraction and no negative zero.
pub open spec fn canonical(v: DecimalValue) -> bool {
    &&& v.scale == 0 || v.mantissa % 10 != 0
    &&& v.mantissa == 0 ==> !v.negative
}

/// The mantissa fits in 64 bits and the scale in a machine word.
pub open spec fn representable(v: DecimalValue) -> bool {
    v.mantissa <= u64::MAX && v.scale <= usize::MAX
}

/// The shortest form of the number that the three parts stand for.
pub open spec fn normalized(negative: bool, mantissa: nat, scale: nat) -> DecimalValue
    decreases scale,
{
    if scale > 0 && mantissa % 10 == 0 {
        normalized(negative, mantissa / 10, (scale - 1) as nat)
    } else {
        DecimalValue { negative: negative && mantissa != 0, mantissa, scale }
    }
}

/// `n` zero digits.
pub open spec fn zeros(n: nat) -> Seq<char> {
    Seq::new(n, |i: int| '0')
}

/// The digits of the mantissa, with zeros in front until one digit stands
/// before the decimal point.
pub open spec fn padded_digits(mantissa: nat, scale: nat) -> Seq<char> {
    let digits = decimal_text(mantissa);
    if digits.len() > scale {
        digits
    } else {
        zeros((scale + 1 - digits.len()) as nat) + digits
    }
}

/// The text of an unsigned decimal: the integer digits, and for a positive
/// scale a point and exactly `scale` fraction digits.
pub open spec fn magnitude_text(mantissa: nat, scale: nat) -> Seq<char> {
    let padded = padded_digits(mantissa, scale);
    let point = padded.len() - scale;
    if scale == 0 {
        padded
    } else {
        padded.take(point) + seq!['.'] + padded.skip(point)
    }
}

/// The text of a decimal: `-` for a negative one, then its magnitude.
pub open spec fn decimal_value_text(v: DecimalValue) -> Seq<char> {
    if v.negative {
        seq!['-'] + magnitude_text(v.mantissa, v.scale)
    } else {
        magnitude_text(v.mantissa, v.scale)
    }
}

/// How many decimal digits the text starts with.
pub open spec fn leading_digits(s: Seq<char>) -> nat
    decreases s.len(),
{
    if s.len() > 0 && is_digit(s[0]) {
        1 + leading_digits(s.drop_first())
    } else {
        0
    }
}

/// Ten to the power `n`.
pub open spec fn pow10(n: nat) -> nat
    decreases n,
{
    if n == 0 {
        1
    } else {
        10 * pow10((n - 1) as nat)
    }
}

/// `c` introduces the exponent of a decimal text.
pub open spec fn is_exponent_mark(c: char) -> bool {
    c == 'e' || c == 'E'
}

/// An unsigned decimal text, taken apart: the digits before the point, the
/// digits after it, and what follows the number.
pub struct DecimalLayout {
    pub whole: Seq<char>,
    pub fraction: Seq<char>,
    pub tail: Seq<char>,
}

/// Takes an unsigned text apart: as many digits as there are, then, where a
/// point follows, the point and as many digits as there are after it.
pub open spec fn layout_of(body: Seq<char>) -> DecimalLayout {
    let k = leading_digits(body) as int;
    let after = body.skip(k);
    if after.len() > 0 && after[0] == '.' {
        let region = after.drop_first();
        let j = leading_digits(region) as int;
        DecimalLayout { whole: body.take(k), fraction: region.take(j), tail: region.skip(j) }
    } else {
        DecimalLayout { whole: body.take(k), fraction: Seq::<char>::empty(), tail: after }
    }
}

/// The exponent that follows a number: none written is zero; otherwise an
/// `e` or `E` and an integer text. `None` where something else follows.
pub open spec fn exponent_of(tail: Seq<char>) -> Option<int> {
    if tail.len() == 0 {
        Some(0)
    } else if is_exponent_mark(tail[0]) {
        integer_of_text(tail.drop_first())
    } else {
        None
    }
}

/// The exponent where it is well formed and fits in 64 bits.
pub open spec fn bounded_exponent(tail: Seq<char>) -> Option<int> {
    match exponent_of(tail) {
        Some(exponent) => if -(u64::MAX as int) <= exponent <= u64::MAX as int {
            Some(exponent)
        } else {
            None
        },
        None => None,
    }
}

/// The decimal `digits * 10^shift` in shortest form, negated where
/// `negative` holds.
pub open spec fn scaled(negative: bool, digits: nat, shift: int) -> DecimalValue {
    if shift >= 0 {
        normalized(negative, digits * pow10(shift as nat), 0)
    } else {
        normalized(negative, digits, (-shift) as nat)
    }
}

/// The decimal that a text denotes, in shortest form. A well-formed decimal
/// text is an optional sign, digits, optionally a point and more digits, with
/// at least one digit in all, and optionally an exponent: `e` or `E` and an
/// integer. The words for infinity and for what is not a number are no
/// decimal texts.
#[verifier::opaque]
pub open spec fn decimal_of_text(s: Seq<char>) -> Option<DecimalValue> {
    let layout = layout_of(unsigned_part(s));
    match exponent_of(layout.tail) {
        Some(exponent) => if layout.whole.len() + layout.fraction.len() > 0 {
            Some(
                scaled(
                    s[0] == '-',
                    digits_value(layout.whole + layout.fraction),
                    exponent - layout.fraction.len(),
                ),
            )
        } else {
            None
        },
        None => None,
    }
}

/// A decimal where it can be held, `None` where it cannot.
pub open spec fn held(v: DecimalValue) -> Option<DecimalValue> {
    if representable(v) {
        Some(v)
    } else {
        None
    }
}

/// The decimal that a text denotes, where it can be held: `None` when the
/// text is malformed, when the mantissa or the scale of the shortest form
/// does not fit, or when the exponent of a number other than zero does not
/// fit in 64 bits.
pub open spec fn bounded_decimal_of_text(s: Seq<char>) -> Option<DecimalValue> {
    match decimal_of_text(s) {
        Some(v) => if v.mantissa == 0 || bounded_exponent(layout_of(unsigned_part(s)).tail)
            is Some {
            held(v)
        } else {
            None
        },
        None => None,
    }
}

/// A text that starts with `k` digits and then ends or goes on with another
/// character has exactly `k` leading digits.
pub proof fn lemma_leading_digits(s: Seq<char>, k: int)
    requires
        0 <= k <= s.len(),
        all_digits(s.take(k)),
        k == s.len() || !is_digit(s[k]),
    ensures
        leading_digits(s) == k,
    decreases k,
{
    if k > 0 {
        assert(s.take(k)[0] == s[0]);
        assert forall|i: int| 0 <= i < k - 1 implies is_digit(
            #[trigger] s.drop_first().take(k - 1)[i],
        ) by {
            assert(s.drop_first().take(k - 1)[i] == s.take(k)[i + 1]);
        }
        lemma_leading_digits(s.drop_first(), k - 1);
    }
}

/// The shortest form of any three parts is canonical.
pub proof fn lemma_normalized_canonical(negative: bool, mantissa: nat, scale: nat)
    ensures
        canonical(normalized(negative, mantissa, scale)),
        normalized(negative, mantissa, scale).mantissa <= mantissa,
        normalized(negative, mantissa, scale).scale <= scale,
        canonical(DecimalValue { negative, mantissa, scale }) ==> normalized(
            negative,
            mantissa,
            scale,
        ) == (DecimalValue { negative, mantissa, scale }),
    decreases scale,
{
    if scale > 0 && mantissa % 10 == 0 {
        lemma_normalized_canonical(negative, mantissa / 10, (scale - 1) as nat);
    }
}

/// An exact decimal number in shortest form.
#[derive(Clone, Copy, Debug, PartialEq, Eq)]
pub struct Decimal {
    negative: bool,
    mantissa: u64,
    scale: usize,
}

impl View for Decimal {
    type V = DecimalValue;

    closed spec fn view(&self) -> DecimalValue {
        DecimalValue {
            negative: self.negative,
            mantissa: self.mantissa as nat,
            scale: self.scale as nat,
        }
    }
}

/// The value inside an optional decimal.
pub open spec fn optional_value(d: Option<Decimal>) -> Option<DecimalValue> {
    match d {
        Some(d) => Some(d@),
        None => None,
    }
}

impl Decimal {
    /// Every decimal is held in shortest form.
    #[verifier::type_invariant]
    pub open spec fn well_formed(self) -> bool {
        canonical(self@) && representable(self@)
    }

    /// The decimal `mantissa / 10^scale`, negated where `negative` holds,
    /// brought to shortest form.
    pub fn from_parts(negative: bool, mantissa: u64, scale: usize) -> (d: Decimal)
        ensures
            d@ == normalized(negative, mantissa as nat, scale as nat),
    {
        let mut digits: u64 = mantissa;
        let mut places: usize = scale;
        while places > 0 && digits % 10 == 0
            invariant
                normalized(negative, digits as nat, places as nat) == normalized(
                    negative,
                    mantissa as nat,
                    scale as nat,
                ),
            decreases places,
        {
            digits = digits / 10;
            places = places - 1;
        }
        proof {
            lemma_normalized_canonical(negative, digits as nat, places as nat);
        }
        Decimal { negative: negative && digits != 0, mantissa: digits, scale: places }
    }

    /// The whole number `n`.
    pub fn from_integer(n: u64) -> (d: Decimal)
        ensures
            d@ == (DecimalValue { negative: false, mantissa: n as nat, scale: 0 }),
    {
        Decimal { negative: false, mantissa: n, scale: 0 }
    }

    /// Whether the number is below zero.
    pub fn is_negative(&self) -> (negative: bool)
        ensures
            negative == self@.negative,
    {
        self.negative
    }

    /// The digits of the number, read as one whole number.
    pub fn mantissa(&self) -> (mantissa: u64)
        ensures
            mantissa == self@.mantissa,
    {
        self.mantissa
    }

    /// How many of the digits stand after the decimal point.
    pub fn scale(&self) -> (scale: usize)
        ensures
            scale == self@.scale,
    {
        self.scale
    }

    /// The text of the number: a `-` where it is negative, the integer
    /// digits, and for a fraction a point and the fraction digits.
    pub fn to_text(&self) -> (text: String)
        ensures
            text@ == decimal_value_text(self@),
    {
        let mut text = String::new();
        if self.negative {
            text.push('-');
        }
        let ghost sign = text@;
        let digits = decimal_digits(self.mantissa);
        let len = digits.len();
        let ghost padded = padded_digits(self.mantissa as nat, self.scale as nat);
        proof {
            lemma_decimal_text(self.mantissa as nat);
        }
        if self.scale == 0 {
            push_chars(&mut text, &digits, 0, len);
            proof {
                assert(digits@.subrange(0, len as int) =~= digits@);
            }
        } else if len > self.scale {
            let point = len - self.scale;
            push_chars(&mut text, &digits, 0, point);
            text.push('.');
            push_chars(&mut text, &digits, point, len);
            proof {
                assert(digits@.subrange(0, point as int) =~= padded.take(point as int));
                assert(digits@.subrange(point as int, len as int) =~= padded.skip(point as int));
                assert(text@ =~= sign + (padded.take(point as int) + seq!['.'] + padded.skip(
                    point as int,
                )));
            }
        } else {
            text.push('0');
            text.push('.');
            let fill = self.scale - len;
            let mut k: usize = 0;
            while k < fill
                invariant
                    k <= fill,
                    text@ == sign + seq!['0', '.'] + zeros(k as nat),
                decreases fill - k,
            {
                text.push('0');
                proof {
                    assert(zeros((k + 1) as nat) =~= zeros(k as nat).push('0'));
                }
                k += 1;
            }
            push_chars(&mut text, &digits, 0, len);
            proof {
                assert(digits@.subrange(0, len as int) =~= digits@);
                assert(padded =~= zeros((fill + 1) as nat) + digits@);
                assert(padded.take(1) =~= seq!['0']);
                assert(padded.skip(1) =~= zeros(fill as nat) + digits@);
                assert(text@ =~= sign + (padded.take(1) + seq!['.'] + padded.skip(1)));
            }
        }
        proof {
            if self.negative {
                assert(sign =~= seq!['-']);
            } else {
                assert(sign =~= Seq::<char>::empty());
                assert(sign + magnitude_text(self.mantissa as nat, self.scale as nat)
                    =~= magnitude_text(self.mantissa as nat, self.scale as nat));
            }
        }
        text
    }
}

/// Zero in any writing is zero.
pub proof fn lemma_normalized_zero(negative: bool, scale: nat)
    ensures
        normalized(negative, 0, scale) == (DecimalValue { negative: false, mantissa: 0, scale: 0 }),
    decreases scale,
{
    if scale > 0 {
        lemma_normalized_zero(negative, (scale - 1) as nat);
    }
}

/// A number other than zero has a mantissa other than zero.
pub proof fn lemma_normalized_nonzero(negative: bool, mantissa: nat, scale: nat)
    requires
        mantissa != 0,
    ensures
        normalized(negative, mantissa, scale).mantissa != 0,
    decreases scale,
{
    if scale > 0 && mantissa % 10 == 0 {
        lemma_normalized_nonzero(negative, mantissa / 10, (scale - 1) as nat);
    }
}

/// Whatever the power of ten, zero stays zero and nothing else becomes zero.
pub proof fn lemma_scaled_zero(negative: bool, digits: nat, shift: int)
    ensures
        scaled(negative, digits, shift).mantissa == 0 <==> digits == 0,
        digits == 0 ==> scaled(negative, digits, shift) == (DecimalValue {
            negative: false,
            mantissa: 0,
            scale: 0,
        }),
{
    if shift >= 0 {
        lemma_pow10_grows(0, shift as nat);
        let power = pow10(shift as nat);
        assert(digits * power == 0 <==> digits == 0) by (nonlinear_arith)
            requires
                power >= 1,
        ;
    } else if digits == 0 {
        lemma_normalized_zero(negative, (-shift) as nat);
    } else {
        lemma_normalized_nonzero(negative, digits, (-shift) as nat);
    }
}

/// Zeros at the end of the digits go with as many places of the scale.
pub proof fn lemma_normalized_strip(negative: bool, kept: Seq<char>, strip: nat, scale: nat)
    requires
        strip <= scale,
    ensures
        normalized(negative, digits_value(kept + zeros(strip)), scale) == normalized(
            negative,
            digits_value(kept),
            (scale - strip) as nat,
        ),
    decreases strip,
{
    if strip == 0 {
        assert(kept + zeros(0) =~= kept);
    } else {
        let shorter = kept + zeros((strip - 1) as nat);
        assert(kept + zeros(strip) =~= shorter.push('0'));
        lemma_digits_value_push(shorter, '0');
        lemma_normalized_strip(negative, kept, (strip - 1) as nat, (scale - 1) as nat);
    }
}

/// Powers of ten are positive and grow with the exponent.
pub proof fn lemma_pow10_grows(a: nat, b: nat)
    requires
        a <= b,
    ensures
        1 <= pow10(a) <= pow10(b),
    decreases b,
{
    if b > a {
        lemma_pow10_grows(a, (b - 1) as nat);
    } else if a > 0 {
        lemma_pow10_grows((a - 1) as nat, (a - 1) as nat);
    }
}

/// What scanning finds is the layout of the text: `k` digits, then, where a
/// point follows, the digits in `from..to` after it.
proof fn lemma_layout(body: Seq<char>, k: int, from: int, to: int)
    requires
        0 <= k <= body.len(),
        all_digits(body.take(k)),
        k == body.len() || !is_digit(body[k]),
        from == (if k < body.len() && body[k] == '.' {
            k + 1
        } else {
            k
        }),
        from <= to <= body.len(),
        all_digits(body.subrange(from, to)),
        to == body.len() || !is_digit(body[to]),
        from == k ==> to == k,
    ensures
        layout_of(body) == (DecimalLayout {
            whole: body.take(k),
            fraction: body.subrange(from, to),
            tail: body.skip(to),
        }),
{
    lemma_leading_digits(body, k);
    let after = body.skip(k);
    if k < body.len() && body[k] == '.' {
        let region = after.drop_first();
        assert(region =~= body.skip(k + 1));
        assert(region.take(to - from) =~= body.subrange(from, to));
        lemma_leading_digits(region, to - from);
        assert(region.skip(to - from) =~= body.skip(to));
    } else {
        assert(body.subrange(from, to) =~= Seq::<char>::empty());
    }
}


/// Where the digits that start at `from` end.
fn scan_digits(chars: &Vec<char>, from: usize) -> (end: usize)
    requires
        from <= chars.len(),
    ensures
        from <= end <= chars.len(),
        all_digits(chars@.subrange(from as int, end as int)),
        end == chars.len() || !is_digit(chars@[end as int]),
{
    let mut i: usize = from;
    while i < chars.len() && char_is_digit(chars[i])
        invariant
            from <= i <= chars.len(),
            all_digits(chars@.subrange(from as int, i as int)),
        decreases chars.len() - i,
    {
        assert(all_digits(chars@.subrange(from as int, i + 1))) by {
            let seen = chars@.subrange(from as int, i as int);
            let next = chars@.subrange(from as int, i + 1);
            assert forall|j: int| 0 <= j < next.len() implies is_digit(#[trigger] next[j]) by {
                if j < seen.len() {
                    assert(next[j] == seen[j]);
                }
            }
        }
        i += 1;
    }
    i
}

/// Where the zeros at the end of `chars` begin.
fn scan_trailing_zeros(chars: &Vec<char>) -> (end: usize)
    ensures
        end <= chars.len(),
        forall|t: int| end <= t < chars.len() ==> chars@[t] == '0',
        end == 0 || chars@[end - 1] != '0',
{
    let mut j: usize = chars.len();
    while j > 0 && chars[j - 1] == '0'
        invariant
            j <= chars.len(),
            forall|t: int| j <= t < chars.len() ==> chars@[t] == '0',
        decreases j,
    {
        j -= 1;
    }
    j
}

/// Appends `chars[from..to]` to `out`.
fn copy_chars(out: &mut Vec<char>, chars: &Vec<char>, from: usize, to: usize)
    requires
        from <= to <= chars.len(),
    ensures
        final(out)@ == old(out)@ + chars@.subrange(from as int, to as int),
{
    let mut i: usize = from;
    while i < to
        invariant
            from <= i <= to <= chars.len(),
            out@ == old(out)@ + chars@.subrange(from as int, i as int),
        decreases to - i,
    {
        out.push(chars[i]);
        proof {
            assert(chars@.subrange(from as int, i + 1) =~= chars@.subrange(
                from as int,
                i as int,
            ).push(chars@[i as int]));
        }
        i += 1;
    }
}

/// The decimal `digits * 10^up`, where it can be held.
fn shifted_up(minus: bool, digits: &Vec<char>, up: u64) -> (shifted: Option<Decimal>)
    requires
        all_digits(digits@),
    ensures
        optional_value(shifted) == held(
            normalized(minus, digits_value(digits@) * pow10(up as nat), 0),
        ),
{
    let ghost value = digits_value(digits@);
    proof {
        assert(digits@.subrange(0, digits@.len() as int) =~= digits@);
        lemma_pow10_grows(0, up as nat);
    }
    let first = match parse_digits(digits, 0, digits.len()) {
        Some(m) => m,
        None => {
            assert(value * pow10(up as nat) >= value) by (nonlinear_arith)
                requires
                    pow10(up as nat) >= 1,
                    value >= 0,
            ;
            return None;
        },
    };
    if first == 0 {
        assert(value * pow10(up as nat) == 0) by (nonlinear_arith)
            requires
                value == 0,
        ;
        return Some(Decimal { negative: false, mantissa: 0, scale: 0 });
    }
    let mut mantissa: u64 = first;
    let mut i: u64 = 0;
    while i < up
        invariant
            i <= up,
            first >= 1,
            value == first,
            value == digits_value(digits@),
            mantissa == value * pow10(i as nat),
        decreases up - i,
    {
        proof {
            lemma_pow10_grows((i + 1) as nat, up as nat);
            assert(value * pow10((i + 1) as nat) == 10 * (value * pow10(i as nat)))
                by (nonlinear_arith)
                requires
                    pow10((i + 1) as nat) == 10 * pow10(i as nat),
            ;
            assert(value * pow10((i + 1) as nat) <= value * pow10(up as nat)) by (nonlinear_arith)
                requires
                    pow10((i + 1) as nat) <= pow10(up as nat),
                    value >= 0,
            ;
        }
        if mantissa > u64::MAX / 10 {
            return None;
        }
        mantissa = mantissa * 10;
        i += 1;
    }
    proof {
        lemma_pow10_grows(0, up as nat);
        assert(mantissa >= 1) by (nonlinear_arith)
            requires
                mantissa == value * pow10(up as nat),
                value >= 1,
                pow10(up as nat) >= 1,
        ;
    }
    Some(Decimal { negative: minus, mantissa, scale: 0 })
}

/// The decimal `digits / 10^down`, where it can be held.
fn shifted_down(minus: bool, digits: &Vec<char>, down: u128) -> (shifted: Option<Decimal>)
    requires
        all_digits(digits@),
        down > 0,
    ensures
        optional_value(shifted) == held(normalized(minus, digits_value(digits@), down as nat)),
{
    let len = digits.len();
    let zeros_from = scan_trailing_zeros(digits);
    let zero_count = len - zeros_from;
    let strip: usize = if zero_count as u128 <= down {
        zero_count
    } else {
        down as usize
    };
    let kept = len - strip;
    let rest: u128 = down - strip as u128;
    let ghost front = digits@.take(kept as int);
    proof {
        assert(digits@ =~= front + zeros(strip as nat));
        lemma_normalized_strip(minus, front, strip as nat, down as nat);
        assert(digits@.subrange(0, kept as int) =~= front);
        assert forall|t: int| 0 <= t < front.len() implies is_digit(#[trigger] front[t]) by {
            assert(front[t] == digits@[t]);
        }
        if kept == 0 {
            assert(front =~= Seq::<char>::empty());
            lemma_normalized_zero(minus, rest as nat);
        } else if rest > 0 {
            assert(front.last() == digits@[zeros_from - 1]);
            assert(is_digit(front.last()));
        }
    }
    if kept == 0 {
        return Some(Decimal { negative: false, mantissa: 0, scale: 0 });
    }
    if rest > usize::MAX as u128 {
        return None;
    }
    match parse_digits(digits, 0, kept) {
        Some(m) => Some(Decimal { negative: minus && m != 0, mantissa: m, scale: rest as usize }),
        None => None,
    }
}

/// The exponent that a sign and a magnitude stand for.
spec fn signed(minus: bool, magnitude: u64) -> int {
    if minus {
        -(magnitude as int)
    } else {
        magnitude as int
    }
}

/// Where the number at the start of `body` ends: the end of its integer
/// digits, and the start and the end of its fraction digits.
fn scan_number(body: &Vec<char>) -> (found: (usize, usize, usize))
    ensures
        found.0 <= found.1 <= found.2 <= body.len(),
        all_digits(body@.take(found.0 as int)),
        all_digits(body@.subrange(found.1 as int, found.2 as int)),
        layout_of(body@) == (DecimalLayout {
            whole: body@.take(found.0 as int),
            fraction: body@.subrange(found.1 as int, found.2 as int),
            tail: body@.skip(found.2 as int),
        }),
{
    let n = body.len();
    let whole_end = scan_digits(body, 0);
    let point = whole_end < n && body[whole_end] == '.';
    let frac_start: usize = if point {
        whole_end + 1
    } else {
        whole_end
    };
    let frac_end: usize = if point {
        scan_digits(body, frac_start)
    } else {
        frac_start
    };
    proof {
        assert(body@.take(whole_end as int) =~= body@.subrange(0, whole_end as int));
        lemma_layout(body@, whole_end as int, frac_start as int, frac_end as int);
    }
    (whole_end, frac_start, frac_end)
}

/// What reading an exponent found.
enum ReadExponent {
    /// What follows the number is no exponent.
    Malformed,
    /// The exponent is well formed and does not fit in 64 bits.
    TooLarge,
    /// The exponent, as a sign and a magnitude.
    Fits(bool, u64),
}

/// Reads the exponent that follows a number, from `at` to the end of `body`.
fn read_exponent(body: &Vec<char>, at: usize) -> (found: ReadExponent)
    requires
        at <= body.len(),
    ensures
        match found {
            ReadExponent::Malformed => exponent_of(body@.skip(at as int)) is None,
            ReadExponent::TooLarge => exponent_of(body@.skip(at as int)) is Some
                && bounded_exponent(body@.skip(at as int)) is None,
            ReadExponent::Fits(minus, magnitude) => bounded_exponent(body@.skip(at as int))
                == Some(signed(minus, magnitude)),
        },
{
    let n = body.len();
    let ghost tail = body@.skip(at as int);
    if at == n {
        return ReadExponent::Fits(false, 0);
    }
    let mark = body[at];
    assert(tail[0] == mark);
    if !(mark == 'e' || mark == 'E') {
        return ReadExponent::Malformed;
    }
    let sign_at = at + 1;
    let minus = sign_at < n && body[sign_at] == '-';
    let digits_at: usize = if sign_at < n && (body[sign_at] == '-' || body[sign_at] == '+') {
        sign_at + 1
    } else {
        sign_at
    };
    let ghost written_digits = body@.subrange(digits_at as int, n as int);
    proof {
        let written = tail.drop_first();
        assert(written =~= body@.skip(sign_at as int));
        if sign_at < n {
            assert(written[0] == body@[sign_at as int]);
        }
        assert(unsigned_part(written) =~= written_digits);
    }
    if digits_at == n {
        return ReadExponent::Malformed;
    }
    match parse_digits(body, digits_at, n) {
        Some(magnitude) => ReadExponent::Fits(minus, magnitude),
        None => {
            let digits_end = scan_digits(body, digits_at);
            if digits_end == n {
                ReadExponent::TooLarge
            } else {
                assert(written_digits[digits_end - digits_at] == body@[digits_end as int]);
                ReadExponent::Malformed
            }
        },
    }
}

/// The digits of a number, in one piece.
fn number_digits(body: &Vec<char>, whole_end: usize, frac_start: usize, frac_end: usize) -> (digits:
    Vec<char>)
    requires
        whole_end <= frac_start <= frac_end <= body.len(),
        all_digits(body@.take(whole_end as int)),
        all_digits(body@.subrange(frac_start as int, frac_end as int)),
    ensures
        digits@ == body@.take(whole_end as int) + body@.subrange(
            frac_start as int,
            frac_end as int,
        ),
        all_digits(digits@),
{
    let mut digits: Vec<char> = Vec::new();
    copy_chars(&mut digits, body, 0, whole_end);
    copy_chars(&mut digits, body, frac_start, frac_end);
    proof {
        let whole = body@.take(whole_end as int);
        let fraction = body@.subrange(frac_start as int, frac_end as int);
        assert(body@.subrange(0, whole_end as int) =~= whole);
        assert(digits@ =~= whole + fraction);
        assert forall|t: int| 0 <= t < digits@.len() implies is_digit(#[trigger] digits@[t]) by {
            if t < whole_end {
                assert(digits@[t] == whole[t]);
            } else {
                assert(digits@[t] == fraction[t - whole_end]);
            }
        }
    }
    digits
}

/// The decimal `digits * 10^(exponent - places)`, where it can be held.
fn shifted(minus: bool, digits: &Vec<char>, exponent_minus: bool, exponent: u64, places: usize) -> (
    shifted: Option<Decimal>)
    requires
        all_digits(digits@),
    ensures
        optional_value(shifted) == held(
            scaled(minus, digits_value(digits@), signed(exponent_minus, exponent) - places),
        ),
{
    let places: u64 = places as u64;
    if (!exponent_minus || exponent == 0) && exponent >= places {
        shifted_up(minus, digits, exponent - places)
    } else {
        let down: u128 = if exponent_minus {
            places as u128 + exponent as u128
        } else {
            places as u128 - exponent as u128
        };
        shifted_down(minus, digits, down)
    }
}

/// Parses a decimal number: an optional sign, digits, optionally a point and
/// more digits, with at least one digit in all, and optionally an exponent.
pub fn parse_decimal(text: &str) -> (parsed: Option<Decimal>)
    ensures
        optional_value(parsed) == bounded_decimal_of_text(text@),
{
    let mut body = chars_of(text);
    let minus = body.len() > 0 && body[0] == '-';
    if body.len() > 0 && (body[0] == '-' || body[0] == '+') {
        body.remove(0);
    }
    assert(body@ =~= unsigned_part(text@));
    let (whole_end, frac_start, frac_end) = scan_number(&body);
    proof {
        reveal(decimal_of_text);
    }
    if whole_end + (frac_end - frac_start) == 0 {
        return None;
    }
    let digits = number_digits(&body, whole_end, frac_start, frac_end);
    match read_exponent(&body, frac_end) {
        ReadExponent::Fits(exponent_minus, exponent) => shifted(
            minus,
            &digits,
            exponent_minus,
            exponent,
            frac_end - frac_start,
        ),
        ReadExponent::TooLarge => {
            proof {
                let exponent = exponent_of(body@.skip(frac_end as int))->0;
                lemma_scaled_zero(
                    text@[0] == '-',
                    digits_value(digits@),
                    exponent - (frac_end - frac_start),
                );
                assert(digits@.subrange(0, digits@.len() as int) =~= digits@);
            }
            match parse_digits(&digits, 0, digits.len()) {
                Some(0) => Some(Decimal { negative: false, mantissa: 0, scale: 0 }),
                _ => None,
            }
        },
        ReadExponent::Malformed => None,
    }
}

/// The padded digits of a decimal are digits, more of them than the scale,
/// they denote the mantissa, and they end as the mantissa does.
proof fn lemma_padded_digits(mantissa: nat, scale: nat)
    ensures
        padded_digits(mantissa, scale).len() > scale,
        all_digits(padded_digits(mantissa, scale)),
        digits_value(padded_digits(mantissa, scale)) == mantissa,
        padded_digits(mantissa, scale).last() == digit_char(mantissa % 10),
{
    let digits = decimal_text(mantissa);
    lemma_decimal_text(mantissa);
    if digits.len() <= scale {
        let fill = zeros((scale + 1 - digits.len()) as nat);
        lemma_digits_value_leading_zeros(fill, digits);
        assert forall|i: int| 0 <= i < (fill + digits).len() implies is_digit(
            #[trigger] (fill + digits)[i],
        ) by {
            if i >= fill.len() {
                assert((fill + digits)[i] == digits[i - fill.len()]);
            }
        }
    }
}

/// Reading the text of a decimal in shortest form gives back that decimal.
/// The text carries no exponent.
pub proof fn lemma_decimal_text_round_trip(v: DecimalValue)
    requires
        canonical(v),
    ensures
        decimal_of_text(decimal_value_text(v)) == Some(v),
        representable(v) ==> bounded_decimal_of_text(decimal_value_text(v)) == Some(v),
{
    reveal(decimal_of_text);
    let padded = padded_digits(v.mantissa, v.scale);
    let magnitude = magnitude_text(v.mantissa, v.scale);
    let s = decimal_value_text(v);
    let point = padded.len() - v.scale;
    lemma_padded_digits(v.mantissa, v.scale);
    assert(is_digit(padded[0]));
    assert(magnitude[0] == padded[0]);
    let body = unsigned_part(s);
    assert(body =~= magnitude);
    assert forall|t: int| 0 <= t < point implies is_digit(#[trigger] body.take(point)[t]) by {
        assert(body.take(point)[t] == padded[t]);
    }
    if v.scale == 0 {
        assert(body.take(point) =~= padded);
        assert(body.subrange(point, point) =~= Seq::<char>::empty());
        lemma_layout(body, point, point, point);
        assert(body.skip(point) =~= Seq::<char>::empty());
        assert(padded + Seq::<char>::empty() =~= padded);
        assert(pow10(0) == 1);
        assert(v.mantissa * pow10(0) == v.mantissa);
    } else {
        assert(body[point] == '.');
        assert(body.subrange(point + 1, body.len() as int) =~= padded.skip(point));
        assert forall|t: int| 0 <= t < v.scale implies is_digit(
            #[trigger] body.subrange(point + 1, body.len() as int)[t],
        ) by {
            assert(body.subrange(point + 1, body.len() as int)[t] == padded[point + t]);
        }
        lemma_layout(body, point, point + 1, body.len() as int);
        assert(body.skip(body.len() as int) =~= Seq::<char>::empty());
        assert(body.take(point) + padded.skip(point) =~= padded);
        lemma_normalized_canonical(v.negative, v.mantissa, v.scale);
    }
}


/// Two decimals in shortest form with the same text are the same decimal.
pub proof fn lemma_decimal_value_text_injective(a: DecimalValue, b: DecimalValue)
    requires
        canonical(a),
        canonical(b),
        decimal_value_text(a) == decimal_value_text(b),
    ensures
        a == b,
{
    lemma_decimal_text_round_trip(a);
    lemma_decimal_text_round_trip(b);
}

} // verus!
