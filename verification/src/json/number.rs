use vstd::prelude::*;
use super::error::ErrorCode;
use super::read::{Fail, fail_at};

verus! {

/// A number that is not an integer in range: its sign, the decimal
/// significand and exponent that the reader gathered (the value is
/// `significand * 10^exponent`, up to the digits dropped once the
/// significand is full), and the span `start..end` of its text.
#[derive(Clone, Copy, Debug, PartialEq, Eq, Structural)]
pub struct FloatParts {
    pub positive: bool,
    pub significand: u64,
    pub exponent: i32,
    pub start: usize,
    pub end: usize,
}

/// A number read from JSON text.
#[derive(Clone, Copy, Debug, PartialEq, Eq, Structural)]
pub enum ParserNumber {
    F64(FloatParts),
    U64(u64),
    I64(i64),
}

pub open spec fn is_digit(b: u8) -> bool {
    48 <= b <= 57
}

/// The index of the byte that `peek` shows after the reader stopped at
/// `i`: errors found by peeking point there.
pub open spec fn peek_pos(s: Seq<u8>, i: int) -> int {
    if i + 1 <= s.len() { i + 1 } else { s.len() as int }
}

pub open spec fn peek_fail(s: Seq<u8>, code: ErrorCode, i: int) -> Fail {
    fail_at(s, code, peek_pos(s, i), i)
}

/// The first index at or after `i` that is not a digit.
pub open spec fn digits_end(s: Seq<u8>, i: int) -> int
    decreases s.len() - i,
{
    if 0 <= i < s.len() && is_digit(s[i]) {
        digits_end(s, i + 1)
    } else {
        i
    }
}

pub open spec fn wrap_inc(e: int) -> int {
    if e >= i32::MAX { i32::MIN as int } else { e + 1 }
}

pub open spec fn wrap_dec(e: int) -> int {
    if e <= i32::MIN { i32::MAX as int } else { e - 1 }
}

pub open spec fn sat_i32(v: int) -> int {
    if v > i32::MAX { i32::MAX as int } else if v < i32::MIN { i32::MIN as int } else { v }
}

pub open spec fn float_at(positive: bool, significand: int, exponent: int, start: int, end: int) -> ParserNumber {
    ParserNumber::F64(FloatParts {
        positive,
        significand: significand as u64,
        exponent: exponent as i32,
        start: start as usize,
        end: end as usize,
    })
}

/// The exponent digits from index `q` on, `exp` holding those read so far.
pub open spec fn spec_exp_digits(
    s: Seq<u8>,
    positive: bool,
    sig: int,
    starting_exp: int,
    positive_exp: bool,
    exp: int,
    q: int,
    start: int,
) -> Result<(ParserNumber, int), Fail>
    decreases s.len() - q,
{
    if 0 <= q < s.len() && is_digit(s[q]) {
        let d = s[q] - 48;
        if exp * 10 + d > i32::MAX {
            if sig != 0 && positive_exp {
                Err(fail_at(s, ErrorCode::NumberOutOfRange, q + 1, q + 1))
            } else {
                let e = digits_end(s, q + 1);
                Ok((float_at(positive, 0, 0, start, e), e))
            }
        } else {
            spec_exp_digits(s, positive, sig, starting_exp, positive_exp, exp * 10 + d, q + 1, start)
        }
    } else {
        let final_exp = if positive_exp { sat_i32(starting_exp + exp) } else { sat_i32(starting_exp - exp) };
        Ok((float_at(positive, sig, final_exp, start, q), q))
    }
}

/// The exponent part, whose `e` or `E` is at index `k`.
pub open spec fn spec_exponent(
    s: Seq<u8>,
    positive: bool,
    sig: int,
    starting_exp: int,
    k: int,
    start: int,
) -> Result<(ParserNumber, int), Fail> {
    let m = k + 1;
    let signed = m < s.len() && (s[m] == 43 || s[m] == 45);
    let positive_exp = !(m < s.len() && s[m] == 45);
    let m2 = if signed { m + 1 } else { m };
    if m2 >= s.len() {
        Err(fail_at(s, ErrorCode::EofWhileParsingValue, m2, m2))
    } else if !is_digit(s[m2]) {
        Err(fail_at(s, ErrorCode::InvalidNumber, m2 + 1, m2 + 1))
    } else {
        spec_exp_digits(s, positive, sig, starting_exp, positive_exp, s[m2] - 48, m2 + 1, start)
    }
}

/// After the digits of a number: an exponent may follow.
pub open spec fn spec_after_fraction(
    s: Seq<u8>,
    positive: bool,
    sig: int,
    exp: int,
    k: int,
    start: int,
) -> Result<(ParserNumber, int), Fail> {
    if 0 <= k < s.len() && (s[k] == 101 || s[k] == 69) {
        spec_exponent(s, positive, sig, exp, k, start)
    } else {
        Ok((float_at(positive, sig, exp, start, k), k))
    }
}

/// The fraction digits from index `k` on; `any` tells whether one was read.
pub open spec fn spec_fraction_digits(
    s: Seq<u8>,
    positive: bool,
    sig: int,
    exp: int,
    k: int,
    any: bool,
    start: int,
) -> Result<(ParserNumber, int), Fail>
    decreases s.len() - k,
{
    if 0 <= k < s.len() && is_digit(s[k]) {
        let d = s[k] - 48;
        if sig * 10 + d > u64::MAX {
            spec_after_fraction(s, positive, sig, exp, digits_end(s, k + 1), start)
        } else {
            spec_fraction_digits(s, positive, sig * 10 + d, wrap_dec(exp), k + 1, true, start)
        }
    } else if !any {
        if k < s.len() {
            Err(peek_fail(s, ErrorCode::InvalidNumber, k))
        } else {
            Err(peek_fail(s, ErrorCode::EofWhileParsingValue, k))
        }
    } else {
        spec_after_fraction(s, positive, sig, exp, k, start)
    }
}

/// The fraction part, whose `.` is at index `j`.
pub open spec fn spec_fraction(
    s: Seq<u8>,
    positive: bool,
    sig: int,
    exp: int,
    j: int,
    start: int,
) -> Result<(ParserNumber, int), Fail> {
    spec_fraction_digits(s, positive, sig, exp, j + 1, false, start)
}

/// What follows the integer digits, ending at index `j`, of a number whose
/// integer part `sig` fits in 64 bits.
pub open spec fn spec_number_tail(s: Seq<u8>, positive: bool, sig: int, j: int, start: int) -> Result<
    (ParserNumber, int),
    Fail,
> {
    if 0 <= j < s.len() && s[j] == 46 {
        spec_fraction(s, positive, sig, 0, j, start)
    } else if 0 <= j < s.len() && (s[j] == 101 || s[j] == 69) {
        spec_exponent(s, positive, sig, 0, j, start)
    } else if positive {
        Ok((ParserNumber::U64(sig as u64), j))
    } else if sig <= 0x8000_0000_0000_0000 {
        Ok((ParserNumber::I64((-sig) as i64), j))
    } else {
        Ok((float_at(false, sig, 0, start, j), j))
    }
}

/// The rest of an integer too long for 64 bits: each further digit raises
/// the exponent.
pub open spec fn spec_long_integer(
    s: Seq<u8>,
    positive: bool,
    sig: int,
    exp: int,
    j: int,
    start: int,
) -> Result<(ParserNumber, int), Fail>
    decreases s.len() - j,
{
    if 0 <= j < s.len() && is_digit(s[j]) {
        spec_long_integer(s, positive, sig, wrap_inc(exp), j + 1, start)
    } else if 0 <= j < s.len() && s[j] == 46 {
        spec_fraction(s, positive, sig, exp, j, start)
    } else if 0 <= j < s.len() && (s[j] == 101 || s[j] == 69) {
        spec_exponent(s, positive, sig, exp, j, start)
    } else {
        Ok((float_at(positive, sig, exp, start, j), j))
    }
}

/// The integer digits from index `j` on, `res` holding the value so far.
pub open spec fn spec_int_digits(s: Seq<u8>, positive: bool, res: int, j: int, start: int) -> Result<
    (ParserNumber, int),
    Fail,
>
    decreases s.len() - j,
{
    if 0 <= j < s.len() && is_digit(s[j]) {
        let d = s[j] - 48;
        if res * 10 + d > u64::MAX {
            spec_long_integer(s, positive, res, 1, j + 1, start)
        } else {
            spec_int_digits(s, positive, res * 10 + d, j + 1, start)
        }
    } else {
        spec_number_tail(s, positive, res, j, start)
    }
}

/// Reading a number whose first digit is at index `i` (its sign, if any,
/// just before): the number, and the index after it.
pub open spec fn spec_parse_integer(s: Seq<u8>, positive: bool, i: int) -> Result<(ParserNumber, int), Fail> {
    let start = if positive { i } else { i - 1 };
    if i >= s.len() {
        Err(fail_at(s, ErrorCode::EofWhileParsingValue, i, i))
    } else if s[i] == 48 {
        if i + 1 < s.len() && is_digit(s[i + 1]) {
            Err(peek_fail(s, ErrorCode::InvalidNumber, i + 1))
        } else {
            spec_number_tail(s, positive, 0, i + 1, start)
        }
    } else if is_digit(s[i]) {
        spec_int_digits(s, positive, s[i] - 48, i + 1, start)
    } else {
        Err(fail_at(s, ErrorCode::InvalidNumber, i + 1, i + 1))
    }
}

// Laws of exponents.

/// The exponent digits read from index `q` on, when all of them (up to
/// `e`) make a value that fits: the number they end keeps the significand,
/// and its exponent is the starting one plus (or minus) that value.
proof fn lemma_exp_digits_value(
    s: Seq<u8>,
    positive: bool,
    sig: int,
    starting_exp: int,
    positive_exp: bool,
    a: int,
    q: int,
    start: int,
)
    requires
        0 <= a < q <= digits_end(s, a) <= s.len(),
        forall|k: int| a <= k < digits_end(s, a) ==> is_digit(#[trigger] s[k]),
        digits_end(s, a) < s.len() ==> !is_digit(s[digits_end(s, a)]),
        digits_value(s, a, digits_end(s, a)) <= i32::MAX,
    ensures
        spec_exp_digits(s, positive, sig, starting_exp, positive_exp, digits_value(s, a, q), q, start) == Ok::<
            (ParserNumber, int),
            Fail,
        >(
            (
                float_at(
                    positive,
                    sig,
                    if positive_exp {
                        sat_i32(starting_exp + digits_value(s, a, digits_end(s, a)))
                    } else {
                        sat_i32(starting_exp - digits_value(s, a, digits_end(s, a)))
                    },
                    start,
                    digits_end(s, a),
                ),
                digits_end(s, a),
            ),
        ),
    decreases s.len() - q,
{
    let e = digits_end(s, a);
    if q < e {
        assert(is_digit(s[q]));
        assert(digits_value(s, a, q + 1) == digits_value(s, a, q) * 10 + (s[q] - 48));
        lemma_digits_value_mono(s, a, q + 1, e);
        lemma_exp_digits_value(s, positive, sig, starting_exp, positive_exp, a, q + 1, start);
    }
}

/// An exponent part `e` or `E`, an optional sign, then digits worth `x`
/// (that fits in 32 bits) scales the number by ten to the power `x`: the
/// number's exponent is the exponent it had so far plus `x`, or minus `x`
/// after a `-` (saturating at the bounds of 32 bits), its significand is
/// kept, and the number ends after the last digit.
pub proof fn lemma_exponent_scales(s: Seq<u8>, positive: bool, sig: int, starting_exp: int, k: int, start: int)
    requires
        0 <= k,
        k + 2 <= s.len(),
        s[k] == 101 || s[k] == 69,
        ({
            let a = if s[k + 1] == 43 || s[k + 1] == 45 { k + 2 } else { k + 1 };
            a < s.len() && is_digit(s[a]) && digits_value(s, a, digits_end(s, a)) <= i32::MAX
        }),
    ensures
        ({
            let negative = s[k + 1] == 45;
            let a = if s[k + 1] == 43 || negative { k + 2 } else { k + 1 };
            let x = digits_value(s, a, digits_end(s, a));
            spec_exponent(s, positive, sig, starting_exp, k, start) == Ok::<(ParserNumber, int), Fail>(
                (
                    float_at(
                        positive,
                        sig,
                        if negative { sat_i32(starting_exp - x) } else { sat_i32(starting_exp + x) },
                        start,
                        digits_end(s, a),
                    ),
                    digits_end(s, a),
                ),
            )
        }),
{
    let a = if s[k + 1] == 43 || s[k + 1] == 45 { k + 2 } else { k + 1 };
    lemma_digits_end(s, a);
    assert(digits_end(s, a) == digits_end(s, a + 1));
    assert(digits_value(s, a, a) == 0);
    assert(digits_value(s, a, a + 1) == s[a] - 48);
    lemma_exp_digits_value(s, positive, sig, starting_exp, !(s[k + 1] == 45), a, a + 1, start);
}

proof fn lemma_digits_end_same(s: Seq<u8>, a: int, q: int)
    requires
        0 <= a <= q <= digits_end(s, a),
    ensures
        digits_end(s, q) == digits_end(s, a),
    decreases q - a,
{
    if a < q {
        lemma_digits_end_same(s, a + 1, q);
    }
}

proof fn lemma_exp_digits_overflow(
    s: Seq<u8>,
    positive: bool,
    sig: int,
    starting_exp: int,
    positive_exp: bool,
    a: int,
    q: int,
    start: int,
)
    requires
        0 <= a < q <= digits_end(s, a) <= s.len(),
        forall|k: int| a <= k < digits_end(s, a) ==> is_digit(#[trigger] s[k]),
        digits_value(s, a, q) <= i32::MAX,
        digits_value(s, a, digits_end(s, a)) > i32::MAX,
    ensures
        sig != 0 && positive_exp ==> (spec_exp_digits(s, positive, sig, starting_exp, positive_exp, digits_value(s, a, q), q, start) matches Err((e, _))
            && e.code == ErrorCode::NumberOutOfRange),
        !(sig != 0 && positive_exp) ==> spec_exp_digits(s, positive, sig, starting_exp, positive_exp, digits_value(s, a, q), q, start)
            == Ok::<(ParserNumber, int), Fail>((float_at(positive, 0, 0, start, digits_end(s, a)), digits_end(s, a))),
    decreases s.len() - q,
{
    let e = digits_end(s, a);
    if q == e {
        assert(false);
    } else {
        assert(is_digit(s[q]));
        assert(digits_value(s, a, q + 1) == digits_value(s, a, q) * 10 + (s[q] - 48));
        if digits_value(s, a, q + 1) > i32::MAX {
            lemma_digits_end_same(s, a, q + 1);
            reveal(fail_at);
        } else {
            lemma_exp_digits_overflow(s, positive, sig, starting_exp, positive_exp, a, q + 1, start);
        }
    }
}

/// An exponent whose digits are worth more than fits in 32 bits: a nonzero
/// number with a positive exponent is out of range, and any other number is
/// zero, read to the end of the exponent's digits.
pub proof fn lemma_exponent_overflow(s: Seq<u8>, positive: bool, sig: int, starting_exp: int, k: int, start: int)
    requires
        0 <= k,
        k + 2 <= s.len(),
        s[k] == 101 || s[k] == 69,
        ({
            let a = if s[k + 1] == 43 || s[k + 1] == 45 { k + 2 } else { k + 1 };
            a < s.len() && is_digit(s[a]) && digits_value(s, a, digits_end(s, a)) > i32::MAX
        }),
    ensures
        ({
            let negative = s[k + 1] == 45;
            let a = if s[k + 1] == 43 || negative { k + 2 } else { k + 1 };
            &&& sig != 0 && !negative ==> (spec_exponent(s, positive, sig, starting_exp, k, start) matches Err((e, _))
                && e.code == ErrorCode::NumberOutOfRange)
            &&& !(sig != 0 && !negative) ==> spec_exponent(s, positive, sig, starting_exp, k, start) == Ok::<
                (ParserNumber, int),
                Fail,
            >((float_at(positive, 0, 0, start, digits_end(s, a)), digits_end(s, a)))
        }),
{
    let a = if s[k + 1] == 43 || s[k + 1] == 45 { k + 2 } else { k + 1 };
    lemma_digits_end(s, a);
    assert(digits_end(s, a) == digits_end(s, a + 1));
    assert(digits_value(s, a, a) == 0);
    assert(digits_value(s, a, a + 1) == s[a] - 48);
    lemma_exp_digits_overflow(s, positive, sig, starting_exp, !(s[k + 1] == 45), a, a + 1, start);
}

// Laws of fractions.

/// Ten to the power `k`.
pub open spec fn ten_pow(k: nat) -> nat
    decreases k,
{
    if k == 0 { 1 } else { 10 * ten_pow((k - 1) as nat) }
}

/// The significand gathered from an integer part worth `sig` and the
/// fraction digits `s[j+1..q]`: the digits read as one decimal number.
pub open spec fn fraction_significand(s: Seq<u8>, sig: int, j: int, q: int) -> int {
    sig * ten_pow((q - j - 1) as nat) + digits_value(s, j + 1, q)
}

proof fn lemma_fraction_significand_step(s: Seq<u8>, sig: int, j: int, q: int)
    requires
        j + 1 <= q < s.len(),
        is_digit(s[q]),
    ensures
        fraction_significand(s, sig, j, q + 1) == fraction_significand(s, sig, j, q) * 10 + (s[q] - 48),
{
    let n = (q - j - 1) as nat;
    assert(ten_pow(n + 1) == 10 * ten_pow(n));
    assert(digits_value(s, j + 1, q + 1) == digits_value(s, j + 1, q) * 10 + (s[q] - 48));
    assert(sig * (10 * ten_pow(n)) == (sig * ten_pow(n)) * 10) by (nonlinear_arith);
}

proof fn lemma_fraction_significand_mono(s: Seq<u8>, sig: int, j: int, q: int, r: int)
    requires
        0 <= sig,
        0 <= j,
        j + 1 <= q <= r <= s.len(),
        forall|k: int| j + 1 <= k < r ==> is_digit(#[trigger] s[k]),
    ensures
        0 <= fraction_significand(s, sig, j, q) <= fraction_significand(s, sig, j, r),
    decreases r - q,
{
    if q < r {
        lemma_fraction_significand_mono(s, sig, j, q, r - 1);
        assert(is_digit(s[r - 1]));
        lemma_fraction_significand_step(s, sig, j, r - 1);
    } else {
        lemma_digits_value_nonneg(s, j + 1, q);
        lemma_ten_pow_pos((q - j - 1) as nat);
        assert(sig * ten_pow((q - j - 1) as nat) >= 0) by (nonlinear_arith)
            requires
                sig >= 0,
                ten_pow((q - j - 1) as nat) >= 1,
        ;
    }
}

proof fn lemma_ten_pow_pos(k: nat)
    ensures
        ten_pow(k) >= 1,
    decreases k,
{
    if k > 0 {
        lemma_ten_pow_pos((k - 1) as nat);
    }
}

proof fn lemma_fraction_digits_value(
    s: Seq<u8>,
    positive: bool,
    sig: int,
    exp: int,
    j: int,
    q: int,
    start: int,
)
    requires
        0 <= sig,
        0 <= j,
        j + 1 < digits_end(s, j + 1) <= s.len(),
        j + 1 <= q <= digits_end(s, j + 1),
        forall|k: int| j + 1 <= k < digits_end(s, j + 1) ==> is_digit(#[trigger] s[k]),
        digits_end(s, j + 1) < s.len() ==> !is_digit(s[digits_end(s, j + 1)]) && s[digits_end(s, j + 1)] != 101
            && s[digits_end(s, j + 1)] != 69,
        fraction_significand(s, sig, j, digits_end(s, j + 1)) <= u64::MAX,
        exp - (digits_end(s, j + 1) - j - 1) >= i32::MIN,
    ensures
        spec_fraction_digits(
            s,
            positive,
            fraction_significand(s, sig, j, q),
            exp - (q - j - 1),
            q,
            q > j + 1,
            start,
        ) == Ok::<(ParserNumber, int), Fail>(
            (
                float_at(
                    positive,
                    fraction_significand(s, sig, j, digits_end(s, j + 1)),
                    exp - (digits_end(s, j + 1) - j - 1),
                    start,
                    digits_end(s, j + 1),
                ),
                digits_end(s, j + 1),
            ),
        ),
    decreases s.len() - q,
{
    let e = digits_end(s, j + 1);
    if q < e {
        assert(is_digit(s[q]));
        lemma_fraction_significand_step(s, sig, j, q);
        lemma_fraction_significand_mono(s, sig, j, q + 1, e);
        assert(wrap_dec(exp - (q - j - 1)) == exp - (q + 1 - j - 1));
        lemma_fraction_digits_value(s, positive, sig, exp, j, q + 1, start);
    }
}

/// A fraction `.` then digits, with no exponent after it, makes its digits
/// and those of the integer part one decimal significand (when it fits in
/// 64 bits), and lowers the exponent by one for each fraction digit: the
/// significand times ten to the exponent is the decimal value of the text.
pub proof fn lemma_fraction_scales(s: Seq<u8>, positive: bool, sig: int, exp: int, j: int, start: int)
    requires
        0 <= sig,
        0 <= j < s.len(),
        s[j] == 46,
        j + 1 < s.len() && is_digit(s[j + 1]),
        digits_end(s, j + 1) < s.len() ==> s[digits_end(s, j + 1)] != 101 && s[digits_end(s, j + 1)] != 69,
        fraction_significand(s, sig, j, digits_end(s, j + 1)) <= u64::MAX,
        exp - (digits_end(s, j + 1) - j - 1) >= i32::MIN,
    ensures
        spec_fraction(s, positive, sig, exp, j, start) == Ok::<(ParserNumber, int), Fail>(
            (
                float_at(
                    positive,
                    fraction_significand(s, sig, j, digits_end(s, j + 1)),
                    exp - (digits_end(s, j + 1) - j - 1),
                    start,
                    digits_end(s, j + 1),
                ),
                digits_end(s, j + 1),
            ),
        ),
{
    lemma_digits_end(s, j + 1);
    assert(digits_end(s, j + 1) == digits_end(s, j + 2));
    lemma_digits_end(s, j + 2);
    assert(digits_value(s, j + 1, j + 1) == 0);
    assert(ten_pow(0) == 1);
    assert(((j + 1) - j - 1) as nat == 0);
    assert(sig * ten_pow(0) == sig);
    assert(fraction_significand(s, sig, j, j + 1) == sig);
    lemma_fraction_digits_value(s, positive, sig, exp, j, j + 1, start);
}

// Integer text, and reading it back.

/// The value of the decimal digits `s[a..b]`.
pub open spec fn digits_value(s: Seq<u8>, a: int, b: int) -> int
    decreases b - a,
{
    if b <= a {
        0
    } else {
        digits_value(s, a, b - 1) * 10 + (s[b - 1] - 48)
    }
}

/// Whether `t` is the decimal text of an integer: an optional `-`, then
/// one or more digits, the first of them not `0` unless it is the only one.
pub open spec fn integer_text(t: Seq<u8>) -> bool {
    let a = if t.len() > 0 && t[0] == 45 { 1int } else { 0int };
    &&& a < t.len()
    &&& forall|k: int| a <= k < t.len() ==> is_digit(#[trigger] t[k])
    &&& t[a] == 48 ==> t.len() == a + 1
}

/// The integer that an integer text writes.
pub open spec fn integer_text_value(t: Seq<u8>) -> int {
    if t.len() > 0 && t[0] == 45 {
        -digits_value(t, 1, t.len() as int)
    } else {
        digits_value(t, 0, t.len() as int)
    }
}

pub proof fn lemma_digits_value_mono(s: Seq<u8>, a: int, b: int, c: int)
    requires
        0 <= a <= b <= c <= s.len(),
        forall|k: int| a <= k < c ==> is_digit(#[trigger] s[k]),
    ensures
        0 <= digits_value(s, a, b) <= digits_value(s, a, c),
    decreases c - b,
{
    if b < c {
        lemma_digits_value_mono(s, a, b, c - 1);
        assert(digits_value(s, a, c) == digits_value(s, a, c - 1) * 10 + (s[c - 1] - 48));
        assert(is_digit(s[c - 1]));
    } else {
        lemma_digits_value_nonneg(s, a, b);
    }
}

pub proof fn lemma_digits_value_nonneg(s: Seq<u8>, a: int, b: int)
    requires
        0 <= a <= b <= s.len(),
        forall|k: int| a <= k < b ==> is_digit(#[trigger] s[k]),
    ensures
        0 <= digits_value(s, a, b),
    decreases b - a,
{
    if a < b {
        lemma_digits_value_nonneg(s, a, b - 1);
        assert(is_digit(s[b - 1]));
    }
}

/// The rest of an integer too long for 64 bits, up to the end of the text,
/// is read as a number whose span is its whole text.
proof fn lemma_long_integer_to_end(s: Seq<u8>, positive: bool, sig: int, exp: int, j: int, start: int)
    requires
        0 <= start <= j <= s.len() <= usize::MAX,
        forall|k: int| j <= k < s.len() ==> is_digit(#[trigger] s[k]),
    ensures
        spec_long_integer(s, positive, sig, exp, j, start) matches Ok((ParserNumber::F64(p), k))
            && k == s.len() && p.start == start && p.end == s.len(),
    decreases s.len() - j,
{
    if j < s.len() {
        assert(is_digit(s[j]));
        lemma_long_integer_to_end(s, positive, sig, wrap_inc(exp), j + 1, start);
    }
}

/// The digits of an integer that reach the end of the text: read as that
/// integer when it fits in 64 bits, else as a number spanning the text.
proof fn lemma_int_digits_to_end(s: Seq<u8>, positive: bool, res: int, a: int, j: int, start: int)
    requires
        0 <= start <= a <= j <= s.len() <= usize::MAX,
        forall|k: int| a <= k < s.len() ==> is_digit(#[trigger] s[k]),
        res == digits_value(s, a, j),
        res <= u64::MAX,
    ensures
        digits_value(s, a, s.len() as int) <= u64::MAX ==> spec_int_digits(s, positive, res, j, start)
            == spec_number_tail(s, positive, digits_value(s, a, s.len() as int), s.len() as int, start),
        digits_value(s, a, s.len() as int) > u64::MAX ==> (spec_int_digits(s, positive, res, j, start) matches Ok(
            (ParserNumber::F64(p), k),
        ) && k == s.len() && p.start == start && p.end == s.len()),
    decreases s.len() - j,
{
    if j < s.len() {
        assert(is_digit(s[j]));
        let d = s[j] - 48;
        assert(digits_value(s, a, j + 1) == res * 10 + d);
        lemma_digits_value_mono(s, a, j + 1, s.len() as int);
        if res * 10 + d > u64::MAX {
            lemma_long_integer_to_end(s, positive, res, 1, j + 1, start);
        } else {
            lemma_int_digits_to_end(s, positive, res * 10 + d, a, j + 1, start);
        }
    }
}

/// Reading an integer text from its first digit (its `-`, if any, just
/// before): the integer itself when it fits in 64 bits (`u64` without a
/// sign, `i64` with one), else a number whose span is the whole text.
pub proof fn lemma_parse_integer_text(t: Seq<u8>)
    requires
        integer_text(t),
        t.len() <= usize::MAX,
    ensures
        ({
            let positive = t[0] != 45;
            let a = if positive { 0int } else { 1int };
            let v = digits_value(t, a, t.len() as int);
            match spec_parse_integer(t, positive, a) {
                Ok((n, k)) => k == t.len() && match n {
                    ParserNumber::U64(x) => positive && x == v,
                    ParserNumber::I64(x) => !positive && x == -v,
                    ParserNumber::F64(p) => p.start == 0 && p.end == t.len() && (v > u64::MAX || (!positive
                        && v > 0x8000_0000_0000_0000)),
                },
                Err(_) => false,
            }
        }),
{
    let positive = t[0] != 45;
    let a = if positive { 0int } else { 1int };
    let len = t.len() as int;
    assert(is_digit(t[a]));
    lemma_digits_value_nonneg(t, a, len);
    assert(digits_value(t, a, a) == 0);
    if t[a] == 48 {
        assert(digits_value(t, a, a + 1) == 0);
    } else {
        assert(digits_value(t, a, a + 1) == t[a] - 48);
        lemma_int_digits_to_end(t, positive, t[a] - 48, a, a + 1, 0);
    }
}

// Skipping numbers without reading their value.

/// The exponent part, whose `e` or `E` is at index `k`, skipped.
pub open spec fn spec_ignore_exponent(s: Seq<u8>, k: int) -> Result<int, Fail> {
    let m = k + 1;
    let m2 = if m < s.len() && (s[m] == 43 || s[m] == 45) { m + 1 } else { m };
    if m2 >= s.len() {
        Err(fail_at(s, ErrorCode::InvalidNumber, m2, m2))
    } else if !is_digit(s[m2]) {
        Err(fail_at(s, ErrorCode::InvalidNumber, m2 + 1, m2 + 1))
    } else {
        Ok(digits_end(s, m2 + 1))
    }
}

/// The fraction part, whose `.` is at index `k`, skipped.
pub open spec fn spec_ignore_decimal(s: Seq<u8>, k: int) -> Result<int, Fail> {
    let e = digits_end(s, k + 1);
    if e == k + 1 {
        Err(peek_fail(s, ErrorCode::InvalidNumber, k + 1))
    } else if e < s.len() && (s[e] == 101 || s[e] == 69) {
        spec_ignore_exponent(s, e)
    } else {
        Ok(e)
    }
}

/// A number whose first digit is at index `i`, skipped.
pub open spec fn spec_ignore_integer(s: Seq<u8>, i: int) -> Result<int, Fail> {
    if i >= s.len() {
        Err(fail_at(s, ErrorCode::InvalidNumber, i, i))
    } else if !is_digit(s[i]) {
        Err(fail_at(s, ErrorCode::InvalidNumber, i + 1, i + 1))
    } else if s[i] == 48 && i + 1 < s.len() && is_digit(s[i + 1]) {
        Err(peek_fail(s, ErrorCode::InvalidNumber, i + 1))
    } else {
        let e = if s[i] == 48 { i + 1 } else { digits_end(s, i + 1) };
        if e < s.len() && s[e] == 46 {
            spec_ignore_decimal(s, e)
        } else if e < s.len() && (s[e] == 101 || s[e] == 69) {
            spec_ignore_exponent(s, e)
        } else {
            Ok(e)
        }
    }
}

// Scanning numbers into text, for callers that keep numbers exact.

/// What scanning a number that starts at `i` writes for the byte at `k`:
/// an exponent marker `E` after a digit becomes `e`, a `+` right after the
/// marker is dropped, and every other byte is written as it is.
pub open spec fn scan_piece(s: Seq<u8>, i: int, k: int) -> Seq<char> {
    let b = s[k];
    if k > i && b == 43 && (s[k - 1] == 101 || s[k - 1] == 69) {
        Seq::empty()
    } else if k > i && b == 69 && is_digit(s[k - 1]) {
        seq!['e']
    } else {
        seq![b as char]
    }
}

/// The text that scanning writes for the bytes `a..b` of a number that
/// starts at `i`.
pub open spec fn scan_text(s: Seq<u8>, i: int, a: int, b: int) -> Seq<char>
    decreases b - a,
{
    if b <= a {
        Seq::empty()
    } else {
        scan_text(s, i, a, b - 1) + scan_piece(s, i, b - 1)
    }
}

pub proof fn lemma_scan_text_concat(s: Seq<u8>, i: int, a: int, b: int, c: int)
    requires
        a <= b <= c,
    ensures
        scan_text(s, i, a, b) + scan_text(s, i, b, c) == scan_text(s, i, a, c),
    decreases c - b,
{
    if b < c {
        lemma_scan_text_concat(s, i, a, b, c - 1);
        assert(scan_text(s, i, a, b) + scan_text(s, i, b, c) =~= scan_text(s, i, a, c - 1) + scan_piece(s, i, c - 1));
    } else {
        assert(scan_text(s, i, a, b) + scan_text(s, i, b, c) =~= scan_text(s, i, a, c));
    }
}

/// The exponent part, whose `e` or `E` is at index `k`, scanned.
pub open spec fn spec_scan_exponent(s: Seq<u8>, k: int) -> Result<int, Fail> {
    let m = k + 1;
    let m2 = if m < s.len() && (s[m] == 43 || s[m] == 45) { m + 1 } else { m };
    if m2 >= s.len() {
        Err(fail_at(s, ErrorCode::EofWhileParsingValue, m2, m2))
    } else if !is_digit(s[m2]) {
        Err(fail_at(s, ErrorCode::InvalidNumber, m2 + 1, m2 + 1))
    } else {
        Ok(digits_end(s, m2 + 1))
    }
}

/// The fraction part, whose `.` is at index `k`, scanned.
pub open spec fn spec_scan_decimal(s: Seq<u8>, k: int) -> Result<int, Fail> {
    let e = digits_end(s, k + 1);
    if e == k + 1 {
        if k + 1 < s.len() {
            Err(peek_fail(s, ErrorCode::InvalidNumber, k + 1))
        } else {
            Err(peek_fail(s, ErrorCode::EofWhileParsingValue, k + 1))
        }
    } else if e < s.len() && (s[e] == 101 || s[e] == 69) {
        spec_scan_exponent(s, e)
    } else {
        Ok(e)
    }
}

/// What follows the integer digits, which end at `e`, scanned.
pub open spec fn spec_scan_number(s: Seq<u8>, e: int) -> Result<int, Fail> {
    if e < s.len() && s[e] == 46 {
        spec_scan_decimal(s, e)
    } else if e < s.len() && (s[e] == 101 || s[e] == 69) {
        spec_scan_exponent(s, e)
    } else {
        Ok(e)
    }
}

/// A number whose first digit is at index `i`, scanned.
pub open spec fn spec_scan_integer(s: Seq<u8>, i: int) -> Result<int, Fail> {
    if i >= s.len() {
        Err(fail_at(s, ErrorCode::EofWhileParsingValue, i, i))
    } else if !is_digit(s[i]) {
        Err(fail_at(s, ErrorCode::InvalidNumber, i + 1, i + 1))
    } else if s[i] == 48 && i + 1 < s.len() && is_digit(s[i + 1]) {
        Err(peek_fail(s, ErrorCode::InvalidNumber, i + 1))
    } else {
        spec_scan_number(s, if s[i] == 48 { i + 1 } else { digits_end(s, i + 1) })
    }
}

pub proof fn lemma_digits_end(s: Seq<u8>, i: int)
    requires
        0 <= i <= s.len(),
    ensures
        i <= digits_end(s, i) <= s.len(),
        forall|k: int| i <= k < digits_end(s, i) ==> is_digit(#[trigger] s[k]),
        digits_end(s, i) < s.len() ==> !is_digit(s[digits_end(s, i)]),
    decreases s.len() - i,
{
    if i < s.len() && is_digit(s[i]) {
        lemma_digits_end(s, i + 1);
    }
}

/// The full product of two 64-bit numbers, as its low and high halves.
pub fn multiply_as_u128(a: u64, b: u64) -> (r: (u64, u64))
    ensures
        r.0 + r.1 * 0x1_0000_0000_0000_0000 == a * b,
{
    assert(a * b <= u128::MAX) by (nonlinear_arith)
        requires
            a <= u64::MAX,
            b <= u64::MAX,
    ;
    let res: u128 = a as u128 * b as u128;
    let lo = res as u64;
    let hi = (res >> 64u128) as u64;
    assert(res as u64 + ((res >> 64u128) as u64) * 0x1_0000_0000_0000_0000u128 == res) by (bit_vector);
    (lo, hi)
}

} // verus!
