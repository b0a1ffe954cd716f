use vstd::prelude::*;
use super::read::{
    Fail, spec_ignore_str, spec_ignore_escape, spec_parse_escape, spec_decode_hex, spec_str_bytes, spec_parse_str,
};
use super::de::{ws_end, lemma_ws_end, is_ws};
use super::value::{
    spec_value, spec_array, spec_object, spec_elements, spec_element, spec_members, spec_member, spec_scalar,
    lemma_value_unfold, lemma_array_unfold, lemma_object_unfold, lemma_elements_unfold, lemma_element_unfold,
    lemma_members_unfold, lemma_member_unfold,
};
use super::skip::{
    skip_value, skip_array, skip_object, skip_items, skip_after_item, skip_members, skip_after_member,
    lemma_skip_value_unfold, lemma_skip_open_unfold, lemma_skip_after_unfold, lemma_skip_members_unfold,
    lemma_skip_value_bounds, lemma_ignore_str_bounds,
};
use super::number::{
    is_digit, digits_end, lemma_digits_end, spec_exp_digits, spec_exponent, spec_after_fraction,
    spec_fraction_digits, spec_fraction, spec_number_tail, spec_long_integer, spec_int_digits, spec_parse_integer,
    spec_ignore_exponent, spec_ignore_decimal, spec_ignore_integer, spec_scan_integer, spec_scan_number,
    spec_scan_decimal, spec_scan_exponent,
};

verus! {

// Skipping a value and reading it agree: where reading succeeds, skipping
// succeeds too and stops at the same byte.

/// The character after a backslash, decoded: the escape skipped from the
/// same place ends where decoding ends, or, for a surrogate pair, just
/// before the second escape, from which skipping the rest of the string
/// ends as from the end of the pair.
proof fn lemma_escape_agrees(s: Seq<u8>, e: int)
    requires
        0 <= e,
        spec_parse_escape(s, e) is Ok,
    ensures
        ({
            let j = spec_parse_escape(s, e)->Ok_0.1;
            spec_ignore_escape(s, e) matches Ok(j1) && e < j1 <= j && (j1 < j ==> spec_ignore_str(s, j1)
                == spec_ignore_str(s, j))
        }),
{
    let ch = s[e];
    if ch == 117 {
        let (n, j) = spec_decode_hex(s, e + 1)->Ok_0;
        if !(0xDC00 <= n <= 0xDFFF) && !(n < 0xD800 || n > 0xDBFF) {
            let (n2, j2) = spec_decode_hex(s, j + 2)->Ok_0;
            assert(spec_ignore_escape(s, j + 1) == Ok::<int, Fail>(j2));
            assert(spec_ignore_str(s, j) == spec_ignore_str(s, j2));
        }
    }
}

/// Decoding the rest of a string succeeds only where skipping it
/// succeeds, and both stop after the same closing quote.
pub proof fn lemma_str_agrees(s: Seq<u8>, i: int, acc: Seq<u8>)
    requires
        0 <= i,
        spec_str_bytes(s, i, acc) is Ok,
    ensures
        spec_ignore_str(s, i) == Ok::<int, Fail>(spec_str_bytes(s, i, acc)->Ok_0.1),
    decreases s.len() - i,
{
    if s[i] == 92 {
        let (bytes, j) = spec_parse_escape(s, i + 1)->Ok_0;
        lemma_escape_agrees(s, i + 1);
        lemma_str_agrees(s, j, acc + bytes);
    } else if s[i] != 34 {
        lemma_str_agrees(s, i + 1, acc.push(s[i]));
    }
}

/// Reading a string succeeds only where skipping it succeeds, at the same
/// end.
pub proof fn lemma_parse_str_agrees(s: Seq<u8>, i: int)
    requires
        0 <= i,
        spec_parse_str(s, i) is Ok,
    ensures
        spec_ignore_str(s, i) == Ok::<int, Fail>(spec_parse_str(s, i)->Ok_0.1),
{
    lemma_str_agrees(s, i, seq![]);
}

/// Skipping what follows the integer digits of a number, which end at `e`.
pub open spec fn skip_after_int(s: Seq<u8>, e: int) -> Result<int, Fail> {
    if e < s.len() && s[e] == 46 {
        spec_ignore_decimal(s, e)
    } else if e < s.len() && (s[e] == 101 || s[e] == 69) {
        spec_ignore_exponent(s, e)
    } else {
        Ok(e)
    }
}

/// Skipping what follows the fraction digits of a number, which end at `k`.
pub open spec fn skip_after_fraction(s: Seq<u8>, k: int) -> Result<int, Fail> {
    if 0 <= k < s.len() && (s[k] == 101 || s[k] == 69) {
        spec_ignore_exponent(s, k)
    } else {
        Ok(k)
    }
}

proof fn lemma_exp_digits_agree(
    s: Seq<u8>,
    positive: bool,
    sig: int,
    starting_exp: int,
    positive_exp: bool,
    exp: int,
    q: int,
    start: int,
)
    requires
        0 <= q,
        spec_exp_digits(s, positive, sig, starting_exp, positive_exp, exp, q, start) is Ok,
    ensures
        spec_exp_digits(s, positive, sig, starting_exp, positive_exp, exp, q, start)->Ok_0.1 == digits_end(s, q),
    decreases s.len() - q,
{
    if 0 <= q < s.len() && is_digit(s[q]) {
        let d = s[q] - 48;
        if exp * 10 + d <= i32::MAX {
            lemma_exp_digits_agree(s, positive, sig, starting_exp, positive_exp, exp * 10 + d, q + 1, start);
        }
    }
}

proof fn lemma_exponent_agrees(s: Seq<u8>, positive: bool, sig: int, starting_exp: int, k: int, start: int)
    requires
        0 <= k,
        spec_exponent(s, positive, sig, starting_exp, k, start) is Ok,
    ensures
        spec_ignore_exponent(s, k) == Ok::<int, Fail>(spec_exponent(s, positive, sig, starting_exp, k, start)->Ok_0.1),
{
    let m = k + 1;
    let signed = m < s.len() && (s[m] == 43 || s[m] == 45);
    let positive_exp = !(m < s.len() && s[m] == 45);
    let m2 = if signed { m + 1 } else { m };
    lemma_exp_digits_agree(s, positive, sig, starting_exp, positive_exp, s[m2] - 48, m2 + 1, start);
}

proof fn lemma_after_fraction_agrees(s: Seq<u8>, positive: bool, sig: int, exp: int, k: int, start: int)
    requires
        0 <= k,
        spec_after_fraction(s, positive, sig, exp, k, start) is Ok,
    ensures
        skip_after_fraction(s, k) == Ok::<int, Fail>(spec_after_fraction(s, positive, sig, exp, k, start)->Ok_0.1),
{
    if 0 <= k < s.len() && (s[k] == 101 || s[k] == 69) {
        lemma_exponent_agrees(s, positive, sig, exp, k, start);
    }
}

proof fn lemma_fraction_digits_agree(
    s: Seq<u8>,
    positive: bool,
    sig: int,
    exp: int,
    k: int,
    any: bool,
    start: int,
)
    requires
        0 <= k,
        spec_fraction_digits(s, positive, sig, exp, k, any, start) is Ok,
    ensures
        any || digits_end(s, k) > k,
        skip_after_fraction(s, digits_end(s, k)) == Ok::<int, Fail>(
            spec_fraction_digits(s, positive, sig, exp, k, any, start)->Ok_0.1,
        ),
    decreases s.len() - k,
{
    if 0 <= k < s.len() && is_digit(s[k]) {
        let d = s[k] - 48;
        lemma_digits_end(s, k + 1);
        if sig * 10 + d > u64::MAX {
            lemma_after_fraction_agrees(s, positive, sig, exp, digits_end(s, k + 1), start);
        } else {
            lemma_fraction_digits_agree(s, positive, sig * 10 + d, super::number::wrap_dec(exp), k + 1, true, start);
        }
    } else {
        lemma_after_fraction_agrees(s, positive, sig, exp, k, start);
    }
}

proof fn lemma_fraction_agrees(s: Seq<u8>, positive: bool, sig: int, exp: int, j: int, start: int)
    requires
        0 <= j < s.len(),
        s[j] == 46,
        spec_fraction(s, positive, sig, exp, j, start) is Ok,
    ensures
        spec_ignore_decimal(s, j) == Ok::<int, Fail>(spec_fraction(s, positive, sig, exp, j, start)->Ok_0.1),
{
    lemma_fraction_digits_agree(s, positive, sig, exp, j + 1, false, start);
    lemma_digits_end(s, j + 1);
}

proof fn lemma_number_tail_agrees(s: Seq<u8>, positive: bool, sig: int, j: int, start: int)
    requires
        0 <= j,
        spec_number_tail(s, positive, sig, j, start) is Ok,
    ensures
        skip_after_int(s, j) == Ok::<int, Fail>(spec_number_tail(s, positive, sig, j, start)->Ok_0.1),
{
    if 0 <= j < s.len() && s[j] == 46 {
        lemma_fraction_agrees(s, positive, sig, 0, j, start);
    } else if 0 <= j < s.len() && (s[j] == 101 || s[j] == 69) {
        lemma_exponent_agrees(s, positive, sig, 0, j, start);
    }
}

proof fn lemma_long_integer_agrees(s: Seq<u8>, positive: bool, sig: int, exp: int, j: int, start: int)
    requires
        0 <= j,
        spec_long_integer(s, positive, sig, exp, j, start) is Ok,
    ensures
        skip_after_int(s, digits_end(s, j)) == Ok::<int, Fail>(spec_long_integer(s, positive, sig, exp, j, start)->Ok_0.1),
    decreases s.len() - j,
{
    if 0 <= j < s.len() && is_digit(s[j]) {
        lemma_long_integer_agrees(s, positive, sig, super::number::wrap_inc(exp), j + 1, start);
    } else if 0 <= j < s.len() && s[j] == 46 {
        lemma_fraction_agrees(s, positive, sig, exp, j, start);
    } else if 0 <= j < s.len() && (s[j] == 101 || s[j] == 69) {
        lemma_exponent_agrees(s, positive, sig, exp, j, start);
    }
}

proof fn lemma_int_digits_agree(s: Seq<u8>, positive: bool, res: int, j: int, start: int)
    requires
        0 <= j,
        spec_int_digits(s, positive, res, j, start) is Ok,
    ensures
        skip_after_int(s, digits_end(s, j)) == Ok::<int, Fail>(spec_int_digits(s, positive, res, j, start)->Ok_0.1),
    decreases s.len() - j,
{
    if 0 <= j < s.len() && is_digit(s[j]) {
        let d = s[j] - 48;
        if res * 10 + d > u64::MAX {
            lemma_long_integer_agrees(s, positive, res, 1, j + 1, start);
        } else {
            lemma_int_digits_agree(s, positive, res * 10 + d, j + 1, start);
        }
    } else {
        lemma_number_tail_agrees(s, positive, res, j, start);
    }
}

/// Reading a number succeeds only where skipping it succeeds, at the same
/// end.
pub proof fn lemma_parse_integer_agrees(s: Seq<u8>, positive: bool, i: int)
    requires
        0 <= i,
        spec_parse_integer(s, positive, i) is Ok,
    ensures
        spec_ignore_integer(s, i) == Ok::<int, Fail>(spec_parse_integer(s, positive, i)->Ok_0.1),
{
    let start = if positive { i } else { i - 1 };
    if s[i] == 48 {
        lemma_number_tail_agrees(s, positive, 0, i + 1, start);
    } else {
        lemma_int_digits_agree(s, positive, s[i] - 48, i + 1, start);
    }
}

/// Scanning a number into its exact text and skipping it agree: one
/// succeeds exactly where the other does, and both stop at the same byte
/// (they differ only in the error given at the end of the input).
pub proof fn lemma_scan_skip_agree(s: Seq<u8>, i: int)
    requires
        0 <= i,
    ensures
        spec_scan_integer(s, i) is Ok <==> spec_ignore_integer(s, i) is Ok,
        spec_scan_integer(s, i) is Ok ==> spec_scan_integer(s, i) == spec_ignore_integer(s, i),
{
    if i < s.len() && is_digit(s[i]) {
        lemma_digits_end(s, i + 1);
        let e = if s[i] == 48 { i + 1 } else { digits_end(s, i + 1) };
        if e < s.len() && s[e] == 46 {
            lemma_digits_end(s, e + 1);
        }
    }
}

/// Skipping whitespace twice is skipping it once: the byte it stops at,
/// if any, is not whitespace, so a second skip (a second
/// `parse_whitespace`) stands still and shows the same byte.
pub proof fn lemma_ws_idempotent(s: Seq<u8>, p: int)
    requires
        0 <= p <= s.len(),
    ensures
        ws_end(s, ws_end(s, p)) == ws_end(s, p),
        ws_end(s, p) < s.len() ==> !is_ws(s[ws_end(s, p)]),
{
    lemma_ws_end(s, p);
}

proof fn lemma_skip_value_ws(s: Seq<u8>, p: int)
    requires
        0 <= p <= s.len(),
    ensures
        skip_value(s, p) == skip_value(s, ws_end(s, p)),
{
    lemma_ws_end(s, p);
    lemma_ws_idempotent(s, p);
    lemma_skip_value_unfold(s, p);
    lemma_skip_value_unfold(s, ws_end(s, p));
}

proof fn lemma_skip_items_ws(s: Seq<u8>, p: int)
    requires
        0 <= p <= s.len(),
    ensures
        skip_items(s, p) == skip_items(s, ws_end(s, p)),
{
    reveal(skip_items);
    lemma_ws_end(s, p);
    lemma_skip_value_ws(s, p);
    lemma_skip_value_bounds(s, ws_end(s, p));
}

proof fn lemma_skip_members_ws(s: Seq<u8>, p: int)
    requires
        0 <= p <= s.len(),
    ensures
        skip_members(s, p) == skip_members(s, ws_end(s, p)),
{
    lemma_ws_end(s, p);
    lemma_ws_idempotent(s, p);
    lemma_skip_members_unfold(s, p);
    lemma_skip_members_unfold(s, ws_end(s, p));
}

/// Reading a value and skipping it agree: wherever reading the value that
/// starts at `i` (after optional whitespace) succeeds, at any depth
/// allowed, skipping it succeeds too and stops at the same byte.
pub proof fn lemma_read_skip_agree(s: Seq<u8>, i: int, d: int, u: bool)
    requires
        0 <= i <= s.len(),
        spec_value(s, i, d, u, false) is Ok,
    ensures
        skip_value(s, i) == Ok::<int, Fail>(spec_value(s, i, d, u, false)->Ok_0.1),
    decreases s.len() - i, 1int,
{
    lemma_value_unfold(s, i, d, u, false);
    lemma_skip_value_unfold(s, i);
    lemma_ws_end(s, i);
    let j = ws_end(s, i);
    if s[j] == 91 {
        lemma_array_agrees(s, j, d, u);
    } else if s[j] == 123 {
        lemma_object_agrees(s, j, d, u);
    } else {
        reveal(spec_scalar);
        let c = s[j];
        if c == 45 || is_digit(c) {
            lemma_parse_integer_agrees(s, c != 45, if c == 45 { j + 1 } else { j });
        } else if c == 34 {
            lemma_parse_str_agrees(s, j + 1);
        }
    }
}

proof fn lemma_array_agrees(s: Seq<u8>, j: int, d: int, u: bool)
    requires
        0 <= j < s.len(),
        spec_array(s, j, d, u, false) is Ok,
    ensures
        skip_array(s, j + 1) == Ok::<int, Fail>(spec_array(s, j, d, u, false)->Ok_0.1),
    decreases s.len() - j, 0int,
{
    lemma_array_unfold(s, j, d, u, false);
    let d2 = if u { d } else { d - 1 };
    lemma_elements_agree(s, j + 1, true, d2, u);
}

proof fn lemma_object_agrees(s: Seq<u8>, j: int, d: int, u: bool)
    requires
        0 <= j < s.len(),
        spec_object(s, j, d, u, false) is Ok,
    ensures
        skip_object(s, j + 1) == Ok::<int, Fail>(spec_object(s, j, d, u, false)->Ok_0.1),
    decreases s.len() - j, 0int,
{
    lemma_object_unfold(s, j, d, u, false);
    let d2 = if u { d } else { d - 1 };
    lemma_members_agree(s, j + 1, true, d2, u);
}

proof fn lemma_elements_agree(s: Seq<u8>, i: int, first: bool, d: int, u: bool)
    requires
        0 <= i <= s.len(),
        spec_elements(s, i, first, d, u, false) is Ok,
    ensures
        ({
            let k = spec_elements(s, i, first, d, u, false)->Ok_0.1;
            &&& 0 <= k < s.len()
            &&& s[k] == 93
            &&& first ==> skip_array(s, i) == Ok::<int, Fail>(k + 1)
            &&& !first ==> skip_after_item(s, i) == Ok::<int, Fail>(k + 1)
        }),
    decreases s.len() - i, 3int,
{
    lemma_elements_unfold(s, i, first, d, u, false);
    lemma_skip_open_unfold(s, 91u8, i);
    lemma_skip_after_unfold(s, 91u8, i);
    lemma_ws_end(s, i);
    let j = ws_end(s, i);
    if s[j] == 93 {
    } else if s[j] == 44 && !first {
        lemma_ws_end(s, j + 1);
        let kk = ws_end(s, j + 1);
        lemma_element_agrees(s, kk, d, u);
        lemma_skip_items_ws(s, j + 1);
    } else if first {
        lemma_element_agrees(s, j, d, u);
    }
}

proof fn lemma_element_agrees(s: Seq<u8>, p: int, d: int, u: bool)
    requires
        0 <= p <= s.len(),
        spec_element(s, p, d, u, false) is Ok,
    ensures
        ({
            let k = spec_element(s, p, d, u, false)->Ok_0.1;
            &&& 0 <= k < s.len()
            &&& s[k] == 93
            &&& skip_items(s, p) == Ok::<int, Fail>(k + 1)
        }),
    decreases s.len() - p, 2int,
{
    lemma_element_unfold(s, p, d, u, false);
    lemma_read_skip_agree(s, p, d, u);
    lemma_skip_value_bounds(s, p);
    let q = spec_value(s, p, d, u, false)->Ok_0.1;
    lemma_elements_agree(s, q, false, d, u);
    reveal(skip_items);
}

proof fn lemma_members_agree(s: Seq<u8>, i: int, first: bool, d: int, u: bool)
    requires
        0 <= i <= s.len(),
        spec_members(s, i, first, d, u, false) is Ok,
    ensures
        ({
            let k = spec_members(s, i, first, d, u, false)->Ok_0.1;
            &&& 0 <= k < s.len()
            &&& s[k] == 125
            &&& first ==> skip_object(s, i) == Ok::<int, Fail>(k + 1)
            &&& !first ==> skip_after_member(s, i) == Ok::<int, Fail>(k + 1)
        }),
    decreases s.len() - i, 3int,
{
    lemma_members_unfold(s, i, first, d, u, false);
    lemma_skip_open_unfold(s, 123u8, i);
    lemma_skip_after_unfold(s, 123u8, i);
    lemma_ws_end(s, i);
    let j = ws_end(s, i);
    if s[j] == 125 {
    } else if s[j] == 44 && !first {
        lemma_ws_end(s, j + 1);
        let kk = ws_end(s, j + 1);
        lemma_member_agrees(s, kk, d, u);
        lemma_skip_members_ws(s, j + 1);
    } else if first {
        lemma_member_agrees(s, j, d, u);
    }
}

proof fn lemma_member_agrees(s: Seq<u8>, p: int, d: int, u: bool)
    requires
        0 <= p < s.len(),
        s[p] == 34,
        spec_member(s, p, d, u, false) is Ok,
    ensures
        ({
            let k = spec_member(s, p, d, u, false)->Ok_0.1;
            &&& 0 <= k < s.len()
            &&& s[k] == 125
            &&& skip_members(s, p) == Ok::<int, Fail>(k + 1)
        }),
    decreases s.len() - p, 2int,
{
    lemma_member_unfold(s, p, d, u, false);
    lemma_parse_str_agrees(s, p + 1);
    lemma_ignore_str_bounds(s, p + 1);
    let q1 = spec_parse_str(s, p + 1)->Ok_0.1;
    lemma_ws_end(s, q1);
    let c = ws_end(s, q1);
    let q2 = c + 1;
    lemma_read_skip_agree(s, q2, d, u);
    lemma_skip_value_bounds(s, q2);
    let q3 = spec_value(s, q2, d, u, false)->Ok_0.1;
    lemma_members_agree(s, q3, false, d, u);
    lemma_skip_members_unfold(s, p);
    assert(!is_ws(s[p]));
    assert(ws_end(s, p) == p);
}

} // verus!
