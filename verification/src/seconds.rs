//! Seconds written as a decimal number, read as milliseconds.

use vstd::prelude::*;

use crate::decimal::{
    all_digits, chars_of, digit_run, digit_value, digits_value, is_digit, lemma_digit_run,
};

verus! {

/// Ten to the power of `k`.
pub open spec fn pow10(k: nat) -> nat
    decreases k,
{
    if k == 0 {
        1
    } else {
        10 * pow10((k - 1) as nat)
    }
}

/// The least whole number that is no less than `mantissa` times ten to the
/// power of `shift`.
pub open spec fn scaled_ceil(mantissa: nat, shift: int) -> nat {
    if shift >= 0 {
        mantissa * pow10(shift as nat)
    } else {
        let scale = pow10((-shift) as nat) as int;
        ((mantissa + scale - 1) / scale) as nat
    }
}

/// A text without the sign that may stand in front of it.
pub open spec fn unsigned_part(s: Seq<char>) -> Seq<char> {
    if s.len() > 0 && (s[0] == '+' || s[0] == '-') {
        s.skip(1)
    } else {
        s
    }
}

/// Whether `c` is the letter that is written `lower` or `upper`.
pub open spec fn is_letter(c: char, lower: char, upper: char) -> bool {
    c == lower || c == upper
}

/// Whether a text is the word `inf`, in any letter case.
pub open spec fn is_inf(body: Seq<char>) -> bool {
    &&& body.len() == 3
    &&& is_letter(body[0], 'i', 'I')
    &&& is_letter(body[1], 'n', 'N')
    &&& is_letter(body[2], 'f', 'F')
}

/// Whether a text is the word `infinity`, in any letter case.
pub open spec fn is_infinity(body: Seq<char>) -> bool {
    &&& body.len() == 8
    &&& is_letter(body[0], 'i', 'I')
    &&& is_letter(body[1], 'n', 'N')
    &&& is_letter(body[2], 'f', 'F')
    &&& is_letter(body[3], 'i', 'I')
    &&& is_letter(body[4], 'n', 'N')
    &&& is_letter(body[5], 'i', 'I')
    &&& is_letter(body[6], 't', 'T')
    &&& is_letter(body[7], 'y', 'Y')
}

/// Whether a text is the word `nan`, in any letter case.
pub open spec fn is_nan(body: Seq<char>) -> bool {
    &&& body.len() == 3
    &&& is_letter(body[0], 'n', 'N')
    &&& is_letter(body[1], 'a', 'A')
    &&& is_letter(body[2], 'n', 'N')
}

/// A decimal number as it is written: the digits of its mantissa without
/// the point, how many of them stand after the point, and the exponent of
/// ten.
pub struct Decimal {
    pub digits: Seq<char>,
    pub frac_len: nat,
    pub exponent: int,
}

/// The exponent that the end of a number writes: none is 0; otherwise an
/// `e` or `E`, an optional sign, and one or more digits.
pub open spec fn exponent_value(tail: Seq<char>) -> Option<int> {
    if tail.len() == 0 {
        Some(0int)
    } else if tail[0] == 'e' || tail[0] == 'E' {
        let signed = tail.skip(1);
        let digits = unsigned_part(signed);
        if digits.len() > 0 && all_digits(digits) {
            if signed[0] == '-' {
                Some(-(digits_value(digits) as int))
            } else {
                Some(digits_value(digits) as int)
            }
        } else {
            None
        }
    } else {
        None
    }
}

/// What follows the digits in front of a text.
pub open spec fn after_digits(text: Seq<char>) -> Seq<char> {
    text.skip(digit_run(text) as int)
}

/// Whether a point stands in front of a text.
pub open spec fn has_point(text: Seq<char>) -> bool {
    text.len() > 0 && text[0] == '.'
}

/// The digits that follow the point of a number, where `text` is what
/// follows the digits before the point.
pub open spec fn fraction_of(text: Seq<char>) -> Seq<char> {
    if has_point(text) {
        text.skip(1).take(digit_run(text.skip(1)) as int)
    } else {
        Seq::empty()
    }
}

/// What follows the mantissa of a number, where `text` is what follows the
/// digits before the point.
pub open spec fn after_fraction(text: Seq<char>) -> Seq<char> {
    if has_point(text) {
        after_digits(text.skip(1))
    } else {
        text
    }
}

/// The number that an unsigned text writes: digits with at most one point
/// among them and at least one digit in all, and then optionally an
/// exponent. `None` for any other text.
pub open spec fn decimal_parts(body: Seq<char>) -> Option<Decimal> {
    let whole = body.take(digit_run(body) as int);
    let frac = fraction_of(after_digits(body));
    let tail = after_fraction(after_digits(body));
    if whole.len() + frac.len() > 0 {
        match exponent_value(tail) {
            Some(exponent) => Some(Decimal { digits: whole + frac, frac_len: frac.len(), exponent }),
            None => None,
        }
    } else {
        None
    }
}

/// The thousandths of a decimal number, rounded up.
pub open spec fn decimal_millis(number: Decimal) -> nat {
    scaled_ceil(digits_value(number.digits), number.exponent + 3 - number.frac_len)
}

/// A number of milliseconds, held at 65535 where it is more.
pub open spec fn saturated(millis: nat) -> u16 {
    if millis > 65535 {
        65535u16
    } else {
        millis as u16
    }
}

/// What a text means as a number of seconds, in milliseconds rounded up.
///
/// The text is an optional sign, and then either a decimal number (digits
/// with at most one point and at least one digit, and optionally `e` or
/// `E`, an optional sign and digits) or one of the words `inf`, `infinity`
/// and `nan` in any letter case. The number is taken exactly, times a
/// thousand, rounded up. A negative number counts as 0, a number of more
/// than 65535 milliseconds as 65535, infinity as 65535 and `nan` as 0. Any
/// other text means nothing.
pub open spec fn seconds_as_millis(s: Seq<char>) -> Option<u16> {
    let negative = s.len() > 0 && s[0] == '-';
    let body = unsigned_part(s);
    if is_inf(body) || is_infinity(body) {
        Some(if negative {
            0u16
        } else {
            65535u16
        })
    } else if is_nan(body) {
        Some(0u16)
    } else {
        match decimal_parts(body) {
            Some(number) => Some(
                if negative {
                    0u16
                } else {
                    saturated(decimal_millis(number))
                },
            ),
            None => None,
        }
    }
}

/// `q` is `n` divided by `d` and rounded up where `q * d` is the least
/// multiple of `d` that reaches `n`.
proof fn lemma_ceil_div(n: int, d: int, q: int)
    requires
        d > 0,
        (q - 1) * d < n <= q * d,
    ensures
        (n + d - 1) / d == q,
{
    let r = n + d - 1 - q * d;
    assert((q - 1) * d == q * d - d) by (nonlinear_arith);
    vstd::arithmetic::div_mod::lemma_fundamental_div_mod_converse(n + d - 1, d, q, r);
}

/// The first powers of ten.
pub proof fn lemma_pow10_small()
    ensures
        pow10(0) == 1,
        pow10(1) == 10,
        pow10(2) == 100,
        pow10(3) == 1000,
        pow10(4) == 10000,
        pow10(5) == 100000,
{
    reveal_with_fuel(pow10, 6);
}

/// A greater exponent gives no smaller power of ten, and none is zero.
pub proof fn lemma_pow10_grows(a: nat, b: nat)
    requires
        a <= b,
    ensures
        1 <= pow10(a) <= pow10(b),
    decreases b,
{
    if b == 0 {
    } else if a == b {
        lemma_pow10_grows(0, (b - 1) as nat);
    } else {
        lemma_pow10_grows(a, (b - 1) as nat);
    }
}

/// The number that digits write is what the first `p` of them write,
/// times the power of ten of the count of the others, and what the others
/// write.
pub proof fn lemma_digits_split(s: Seq<char>, p: int)
    requires
        all_digits(s),
        0 <= p <= s.len(),
    ensures
        digits_value(s) == digits_value(s.take(p)) * pow10((s.len() - p) as nat) + digits_value(
            s.skip(p),
        ),
        digits_value(s.skip(p)) < pow10((s.len() - p) as nat),
    decreases s.len(),
{
    if p == s.len() {
        assert(s.take(p) =~= s);
        assert(s.skip(p) =~= Seq::<char>::empty());
        assert(digits_value(s) * 1 == digits_value(s)) by (nonlinear_arith);
    } else {
        let front = s.drop_last();
        assert forall|i: int| 0 <= i < front.len() implies is_digit(#[trigger] front[i]) by {
            assert(front[i] == s[i]);
        }
        lemma_digits_split(front, p);
        assert(front.take(p) =~= s.take(p));
        assert(s.skip(p).drop_last() =~= front.skip(p));
        assert(s.skip(p).last() == s.last());
        assert(is_digit(s[s.len() - 1]));
        let a = digits_value(s.take(p)) as int;
        let b = digits_value(front.skip(p)) as int;
        let d = digit_value(s.last()) as int;
        let scale = pow10((front.len() - p) as nat) as int;
        assert(pow10((s.len() - p) as nat) == 10 * scale);
        assert((a * scale + b) * 10 + d == a * (10 * scale) + (b * 10 + d))
            by (nonlinear_arith);
    }
}

/// A number with `y` digits after the point is rounded up to its whole
/// part, and one more where anything but zeros stands after the point.
pub proof fn lemma_scaled_down(whole: nat, rest: nat, y: nat)
    requires
        y >= 1,
        rest < pow10(y),
    ensures
        scaled_ceil(whole * pow10(y) + rest, -(y as int)) == whole + (if rest > 0 {
            1nat
        } else {
            0nat
        }),
{
    let scale = pow10(y) as int;
    let n = (whole * scale + rest) as int;
    let e: int = if rest > 0 {
        1
    } else {
        0
    };
    let q = whole + e;
    assert(q * scale == whole * scale + e * scale) by (nonlinear_arith)
        requires
            q == whole + e,
    ;
    assert((q - 1) * scale == q * scale - scale) by (nonlinear_arith);
    assert(e * scale >= rest && e * scale - scale < rest) by (nonlinear_arith)
        requires
            0 <= rest < scale,
            e == (if rest > 0 {
                1int
            } else {
                0int
            }),
    ;
    lemma_ceil_div(n, scale, q);
}

/// A number that is not zero, with five zeros or more put after it, is
/// above every number of milliseconds that is kept.
pub proof fn lemma_scaled_up_is_large(mantissa: nat, shift: nat)
    requires
        mantissa >= 1,
        shift >= 5,
    ensures
        mantissa * pow10(shift) >= 100000,
{
    lemma_pow10_small();
    lemma_pow10_grows(5, shift);
    assert(mantissa * pow10(shift) >= 1 * pow10(shift)) by (nonlinear_arith)
        requires
            mantissa >= 1,
    ;
}

/// The bound from which a shift counts as beyond every length of a text.
const SHIFT_LIMIT: i128 = 1180591620717411303424;

/// The bound at which an exponent is held while it is read.
const EXPONENT_CAP: i128 = 1208925819614629174706176;

/// A number, held at 65536 where it is more.
spec fn capped(value: nat) -> u64 {
    if value >= 65536 {
        65536u64
    } else {
        value as u64
    }
}

/// An exponent, held at the cap on either side.
spec fn clamped(exponent: int) -> i128 {
    if exponent > EXPONENT_CAP {
        EXPONENT_CAP
    } else if exponent < -EXPONENT_CAP {
        (-EXPONENT_CAP) as i128
    } else {
        exponent as i128
    }
}

/// The exponent that the digits `digits` write after a sign; `None` where
/// they are no digits.
spec fn signed_value(digits: Seq<char>, negative: bool) -> Option<int> {
    if digits.len() > 0 && all_digits(digits) {
        if negative {
            Some(-(digits_value(digits) as int))
        } else {
            Some(digits_value(digits) as int)
        }
    } else {
        None
    }
}

/// Whether `shift` stands for `true_shift`: it is that shift, or both lie
/// beyond the limit on one side.
spec fn stands_for(shift: i128, true_shift: int) -> bool {
    ||| true_shift == shift
    ||| (shift >= SHIFT_LIMIT && true_shift >= shift)
    ||| (shift <= -SHIFT_LIMIT && true_shift <= shift)
}

/// The number of a digit.
fn digit_of(c: char) -> (r: u64)
    requires
        is_digit(c),
    ensures
        r == digit_value(c),
        r <= 9,
{
    (c as u32 - '0' as u32) as u64
}

/// What the first `count` of `digits` write, held at 65536.
fn capped_value(digits: &Vec<char>, count: usize) -> (r: u64)
    requires
        all_digits(digits@),
        count <= digits.len(),
    ensures
        r == capped(digits_value(digits@.take(count as int))),
{
    let mut acc: u64 = 0;
    let mut t: usize = 0;
    while t < count
        invariant
            t <= count <= digits.len(),
            all_digits(digits@),
            acc == capped(digits_value(digits@.take(t as int))),
        decreases count - t,
    {
        proof {
            assert(digits@.take(t + 1).drop_last() =~= digits@.take(t as int));
            assert(digits@.take(t + 1).last() == digits@[t as int]);
        }
        acc = acc * 10 + digit_of(digits[t]);
        if acc > 65536 {
            acc = 65536;
        }
        t = t + 1;
    }
    acc
}

/// Whether anything but zeros stands among `digits` from `from` on.
fn any_nonzero(digits: &Vec<char>, from: usize) -> (r: bool)
    requires
        all_digits(digits@),
        from <= digits.len(),
    ensures
        r == (digits_value(digits@.skip(from as int)) > 0),
{
    let mut found = false;
    let mut t: usize = from;
    while t < digits.len()
        invariant
            from <= t <= digits.len(),
            all_digits(digits@),
            found == (digits_value(digits@.subrange(from as int, t as int)) > 0),
        decreases digits.len() - t,
    {
        proof {
            assert(digits@.subrange(from as int, t + 1).drop_last() =~= digits@.subrange(
                from as int,
                t as int,
            ));
            assert(digits@.subrange(from as int, t + 1).last() == digits@[t as int]);
        }
        if digit_of(digits[t]) != 0 {
            found = true;
        }
        t = t + 1;
    }
    proof {
        assert(digits@.subrange(from as int, digits.len() as int) =~= digits@.skip(from as int));
    }
    found
}

/// The number that `digits` write, times ten to the power of the shift
/// that `shift` stands for, rounded up and held at 65535.
fn saturated_millis(digits: &Vec<char>, shift: i128, Ghost(true_shift): Ghost<int>) -> (r: u16)
    requires
        all_digits(digits@),
        stands_for(shift, true_shift),
    ensures
        r == saturated(scaled_ceil(digits_value(digits@), true_shift)),
{
    let n = digits.len();
    let ghost value = digits_value(digits@);
    assert(n <= 0xffff_ffff_ffff_ffff);
    if shift >= 0 {
        let mut acc = capped_value(digits, n);
        assert(digits@.take(n as int) =~= digits@);
        let times: u8 = if shift >= 5 {
            5
        } else {
            shift as u8
        };
        let mut k: u8 = 0;
        proof {
            lemma_pow10_small();
            assert(value * pow10(0) == value) by (nonlinear_arith)
                requires
                    pow10(0) == 1,
            ;
        }
        while k < times
            invariant
                k <= times <= 5,
                acc == capped(value * pow10(k as nat)),
            decreases times - k,
        {
            proof {
                assert(value * pow10((k + 1) as nat) == (value * pow10(k as nat)) * 10)
                    by (nonlinear_arith)
                    requires
                        pow10((k + 1) as nat) == 10 * pow10(k as nat),
                ;
            }
            acc = acc * 10;
            if acc > 65536 {
                acc = 65536;
            }
            k = k + 1;
        }
        proof {
            if true_shift > 5 {
                if value >= 1 {
                    lemma_scaled_up_is_large(value, 5);
                    lemma_scaled_up_is_large(value, true_shift as nat);
                } else {
                    assert(value * pow10(true_shift as nat) == 0) by (nonlinear_arith)
                        requires
                            value == 0,
                    ;
                    assert(value * pow10(5) == 0) by (nonlinear_arith)
                        requires
                            value == 0,
                    ;
                }
            }
        }
        if acc > 65535 {
            65535
        } else {
            acc as u16
        }
    } else {
        let kept: usize = if n as i128 + shift > 0 {
            (n as i128 + shift) as usize
        } else {
            0
        };
        let whole = capped_value(digits, kept);
        let more = any_nonzero(digits, kept);
        proof {
            let y = (-true_shift) as nat;
            let a = digits_value(digits@.take(kept as int));
            let b = digits_value(digits@.skip(kept as int));
            lemma_digits_split(digits@, kept as int);
            if n + true_shift >= 0 {
                assert(n - kept == y);
                lemma_scaled_down(a, b, y);
            } else {
                assert(kept == 0);
                assert(digits@.take(0) =~= Seq::<char>::empty());
                assert(a == 0);
                assert(a * pow10(n as nat) == 0) by (nonlinear_arith)
                    requires
                        a == 0,
                ;
                lemma_pow10_grows(n as nat, y);
                lemma_scaled_down(0, value, y);
                assert(0 * pow10(y) + value == value) by (nonlinear_arith);
            }
        }
        let total: u64 = whole + if more {
            1
        } else {
            0
        };
        if total > 65535 {
            65535
        } else {
            total as u16
        }
    }
}

/// Whether `c` is the letter that is written `lower` or `upper`.
fn letter(c: char, lower: char, upper: char) -> (r: bool)
    ensures
        r == is_letter(c, lower, upper),
{
    c == lower || c == upper
}

/// Whether the word `inf` stands from `start` to the end.
fn reads_inf(chars: &Vec<char>, start: usize) -> (r: bool)
    requires
        start <= chars.len(),
    ensures
        r == is_inf(chars@.skip(start as int)),
{
    let ghost body = chars@.skip(start as int);
    if chars.len() - start != 3 {
        return false;
    }
    assert(body[0] == chars@[start + 0] && body[1] == chars@[start + 1] && body[2] == chars@[start
        + 2]);
    letter(chars[start], 'i', 'I') && letter(chars[start + 1], 'n', 'N') && letter(
        chars[start + 2],
        'f',
        'F',
    )
}

/// Whether the word `infinity` stands from `start` to the end.
fn reads_infinity(chars: &Vec<char>, start: usize) -> (r: bool)
    requires
        start <= chars.len(),
    ensures
        r == is_infinity(chars@.skip(start as int)),
{
    let ghost body = chars@.skip(start as int);
    if chars.len() - start != 8 {
        return false;
    }
    assert(forall|j: int| 0 <= j < 8 ==> body[j] == chars@[start + j]);
    letter(chars[start], 'i', 'I') && letter(chars[start + 1], 'n', 'N') && letter(
        chars[start + 2],
        'f',
        'F',
    ) && letter(chars[start + 3], 'i', 'I') && letter(chars[start + 4], 'n', 'N') && letter(
        chars[start + 5],
        'i',
        'I',
    ) && letter(chars[start + 6], 't', 'T') && letter(chars[start + 7], 'y', 'Y')
}

/// Whether the word `nan` stands from `start` to the end.
fn reads_nan(chars: &Vec<char>, start: usize) -> (r: bool)
    requires
        start <= chars.len(),
    ensures
        r == is_nan(chars@.skip(start as int)),
{
    let ghost body = chars@.skip(start as int);
    if chars.len() - start != 3 {
        return false;
    }
    assert(body[0] == chars@[start + 0] && body[1] == chars@[start + 1] && body[2] == chars@[start
        + 2]);
    letter(chars[start], 'n', 'N') && letter(chars[start + 1], 'a', 'A') && letter(
        chars[start + 2],
        'n',
        'N',
    )
}

/// Adds the digits that stand at `pos` to `digits`, and gives the position
/// after them.
fn push_digits(chars: &Vec<char>, pos: usize, digits: &mut Vec<char>) -> (next: usize)
    requires
        pos <= chars.len(),
        all_digits(old(digits)@),
    ensures
        pos <= next <= chars.len(),
        next - pos == digit_run(chars@.skip(pos as int)),
        final(digits)@ == old(digits)@ + chars@.skip(pos as int).take(next - pos),
        all_digits(final(digits)@),
{
    let ghost input = chars@.skip(pos as int);
    let ghost before = digits@;
    let mut i: usize = pos;
    loop
        invariant
            pos <= i <= chars.len(),
            input == chars@.skip(pos as int),
            all_digits(input.take(i - pos)),
            all_digits(digits@),
            digits@ == before + input.take(i - pos),
        ensures
            pos <= i <= chars.len(),
            all_digits(input.take(i - pos)),
            all_digits(digits@),
            digits@ == before + input.take(i - pos),
            i == chars.len() || !is_digit(chars@[i as int]),
        decreases chars.len() - i,
    {
        if i >= chars.len() {
            break;
        }
        let c = chars[i];
        if c < '0' || c > '9' {
            break;
        }
        digits.push(c);
        proof {
            let k = i - pos;
            assert(input.take(k + 1) =~= input.take(k).push(c));
            assert(digits@ =~= before + input.take(k + 1));
            assert forall|j: int| 0 <= j < k + 1 implies is_digit(#[trigger] input.take(k + 1)[j]) by {
                if j < k {
                    assert(input.take(k)[j] == input[j]);
                }
            }
            assert forall|j: int| 0 <= j < digits@.len() implies is_digit(#[trigger] digits@[j]) by {
                if j < before.len() {
                    assert(digits@[j] == before[j]);
                } else {
                    assert(digits@[j] == input.take(k + 1)[j - before.len()]);
                }
            }
        }
        i = i + 1;
    }
    proof {
        let k = i - pos;
        assert(input.take(k) + input.skip(k) =~= input);
        if input.skip(k).len() > 0 {
            assert(input.skip(k)[0] == chars@[i as int]);
        }
        lemma_digit_run(input.take(k), input.skip(k));
    }
    i
}

/// Reads the exponent that stands from `pos` to the end, held at the cap.
fn take_exponent(chars: &Vec<char>, pos: usize) -> (r: Option<i128>)
    requires
        pos <= chars.len(),
    ensures
        match exponent_value(chars@.skip(pos as int)) {
            Some(exponent) => r == Some(clamped(exponent)),
            None => r is None,
        },
{
    let ghost tail = chars@.skip(pos as int);
    if pos >= chars.len() {
        return Some(0);
    }
    assert(tail[0] == chars@[pos as int]);
    if chars[pos] != 'e' && chars[pos] != 'E' {
        return None;
    }
    let ghost signed = tail.skip(1);
    assert(signed =~= chars@.skip(pos + 1));
    let mut i: usize = pos + 1;
    let mut negative = false;
    if i < chars.len() && (chars[i] == '+' || chars[i] == '-') {
        assert(signed[0] == chars@[i as int]);
        negative = chars[i] == '-';
        i = i + 1;
    }
    let ghost digits = unsigned_part(signed);
    let first = i;
    proof {
        if signed.len() > 0 {
            assert(signed[0] == chars@[pos + 1]);
        }
        assert(digits =~= chars@.skip(first as int));
        assert(exponent_value(tail) == signed_value(digits, negative));
    }
    let mut magnitude: i128 = 0;
    while i < chars.len()
        invariant
            first <= i <= chars.len(),
            digits == chars@.skip(first as int),
            exponent_value(chars@.skip(pos as int)) == signed_value(digits, negative),
            all_digits(digits.take(i - first)),
            0 <= magnitude <= EXPONENT_CAP,
            magnitude == (if digits_value(digits.take(i - first)) >= EXPONENT_CAP {
                EXPONENT_CAP
            } else {
                digits_value(digits.take(i - first)) as i128
            }),
        decreases chars.len() - i,
    {
        let c = chars[i];
        let ghost k = i - first;
        assert(digits[k] == c);
        if c < '0' || c > '9' {
            assert(!is_digit(digits[k]));
            return None;
        }
        proof {
            assert(digits.take(k + 1).drop_last() =~= digits.take(k));
            assert(digits.take(k + 1).last() == c);
            assert forall|j: int| 0 <= j < k + 1 implies is_digit(#[trigger] digits.take(k + 1)[j]) by {
                if j < k {
                    assert(digits.take(k)[j] == digits[j]);
                }
            }
        }
        magnitude = magnitude * 10 + digit_of(c) as i128;
        if magnitude > EXPONENT_CAP {
            magnitude = EXPONENT_CAP;
        }
        i = i + 1;
    }
    proof {
        assert(digits.take(digits.len() as int) =~= digits);
    }
    if first >= chars.len() {
        return None;
    }
    if negative {
        Some(-magnitude)
    } else {
        Some(magnitude)
    }
}

/// Reads the decimal number that stands from `start` to the end: the
/// digits of its mantissa, how many of them stand after the point, and its
/// exponent, held at the cap.
fn read_decimal(chars: &Vec<char>, start: usize) -> (r: Option<(Vec<char>, usize, i128)>)
    requires
        start <= chars.len(),
    ensures
        match decimal_parts(chars@.skip(start as int)) {
            Some(number) => r matches Some((digits, frac_len, exponent)) && digits@
                == number.digits && all_digits(digits@) && frac_len == number.frac_len
                && exponent == clamped(number.exponent),
            None => r is None,
        },
{
    let ghost body = chars@.skip(start as int);
    let mut digits: Vec<char> = Vec::new();
    let point = push_digits(chars, start, &mut digits);
    let ghost whole = digits@;
    let ghost rest = chars@.skip(point as int);
    proof {
        assert(whole =~= body.take(digit_run(body) as int));
        assert(rest =~= after_digits(body));
    }
    let mut frac_len: usize = 0;
    let mut end: usize = point;
    if point < chars.len() && chars[point] == '.' {
        assert(rest[0] == chars@[point as int]);
        assert(rest.skip(1) =~= chars@.skip(point + 1));
        end = push_digits(chars, point + 1, &mut digits);
        frac_len = end - (point + 1);
        proof {
            assert(after_digits(rest.skip(1)) =~= chars@.skip(end as int));
        }
    } else {
        proof {
            if rest.len() > 0 {
                assert(rest[0] == chars@[point as int]);
            }
            assert(digits@ =~= whole + Seq::<char>::empty());
        }
    }
    proof {
        assert(digits@ == whole + fraction_of(rest));
        assert(frac_len == fraction_of(rest).len());
        assert(after_fraction(rest) == chars@.skip(end as int));
    }
    if digits.len() == 0 {
        return None;
    }
    match take_exponent(chars, end) {
        Some(exponent) => Some((digits, frac_len, exponent)),
        None => None,
    }
}

/// An exponent that is held at the cap gives a shift that stands for the
/// true one.
proof fn lemma_shift_stands_for(exponent: int, frac_len: nat)
    requires
        frac_len <= 0xffff_ffff_ffff_ffff,
    ensures
        -EXPONENT_CAP - 0xffff_ffff_ffff_ffff <= clamped(exponent) + 3 - frac_len <= EXPONENT_CAP
            + 3,
        stands_for((clamped(exponent) + 3 - frac_len) as i128, exponent + 3 - frac_len),
{
}

/// Reads `text` as a number of seconds, and gives it in milliseconds,
/// rounded up.
pub fn parse_seconds_as_millis(text: &str) -> (r: Option<u16>)
    ensures
        r == seconds_as_millis(text@),
{
    let chars = chars_of(text);
    let mut start: usize = 0;
    let mut negative = false;
    if chars.len() > 0 && (chars[0] == '+' || chars[0] == '-') {
        negative = chars[0] == '-';
        start = 1;
    }
    proof {
        assert(chars@.skip(0) =~= chars@);
        assert(chars@.skip(start as int) =~= unsigned_part(text@));
    }
    if reads_inf(&chars, start) || reads_infinity(&chars, start) {
        return Some(if negative {
            0
        } else {
            65535
        });
    }
    if reads_nan(&chars, start) {
        return Some(0);
    }
    match read_decimal(&chars, start) {
        Some((digits, frac_len, exponent)) => {
            if negative {
                return Some(0);
            }
            let ghost number = decimal_parts(unsigned_part(text@))->0;
            proof {
                lemma_shift_stands_for(number.exponent, number.frac_len);
            }
            let shift: i128 = exponent + 3 - frac_len as i128;
            Some(saturated_millis(&digits, shift, Ghost(number.exponent + 3 - number.frac_len)))
        },
        None => None,
    }
}

} // verus!
