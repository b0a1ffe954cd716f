use vstd::prelude::*;
use super::error::ErrorCode;
use super::read::{Fail, spec_ignore_str};
use super::number::{is_digit, peek_fail, spec_ignore_integer, spec_ignore_decimal, spec_ignore_exponent, digits_end, lemma_digits_end};
use super::read::spec_ignore_escape;
use super::de::{ws_end, lemma_ws_end, spec_ident};

verus! {

// Skipping one JSON value, checking its syntax without keeping anything.
// This grammar differs from the one that reads values: numbers are only
// checked, nesting is unlimited, a comma before a closing bracket is no
// value, and a failure ends the read where it happens.

/// Skipping a literal, number or string whose first byte is at index `j`.
pub open spec fn skip_scalar(s: Seq<u8>, j: int) -> Result<int, Fail> {
    let c = s[j];
    if c == 110 {
        spec_ident(s, j + 1, seq![117u8, 108u8, 108u8])
    } else if c == 116 {
        spec_ident(s, j + 1, seq![114u8, 117u8, 101u8])
    } else if c == 102 {
        spec_ident(s, j + 1, seq![97u8, 108u8, 115u8, 101u8])
    } else if c == 45 {
        spec_ignore_integer(s, j + 1)
    } else if is_digit(c) {
        spec_ignore_integer(s, j)
    } else if c == 34 {
        spec_ignore_str(s, j + 1)
    } else {
        Err(peek_fail(s, ErrorCode::ExpectedSomeValue, j))
    }
}

/// Skipping the value whose text starts at index `i`, after optional
/// whitespace: the index after it.
#[verifier::opaque]
pub open spec fn skip_value(s: Seq<u8>, i: int) -> Result<int, Fail>
    decreases s.len() - i, 1int,
{
    if !(0 <= i <= s.len()) {
        Err(peek_fail(s, ErrorCode::EofWhileParsingValue, i))
    } else {
        let j = ws_end(s, i);
        proof {
            lemma_ws_end(s, i);
        }
        if j >= s.len() {
            Err(peek_fail(s, ErrorCode::EofWhileParsingValue, j))
        } else if s[j] == 91 {
            skip_array(s, j + 1)
        } else if s[j] == 123 {
            skip_object(s, j + 1)
        } else {
            skip_scalar(s, j)
        }
    }
}

/// Skipping the rest of an array whose `[` is just before index `k`.
#[verifier::opaque]
pub open spec fn skip_array(s: Seq<u8>, k: int) -> Result<int, Fail>
    decreases s.len() - k, 3int,
{
    if !(0 <= k <= s.len()) {
        Err(peek_fail(s, ErrorCode::EofWhileParsingList, k))
    } else {
        let m = ws_end(s, k);
        proof {
            lemma_ws_end(s, k);
        }
        if m >= s.len() {
            Err(peek_fail(s, ErrorCode::EofWhileParsingList, m))
        } else if s[m] == 93 {
            Ok(m + 1)
        } else {
            skip_items(s, m)
        }
    }
}

/// Skipping array elements, the first at index `p`, and the `]` after them.
#[verifier::opaque]
pub open spec fn skip_items(s: Seq<u8>, p: int) -> Result<int, Fail>
    decreases s.len() - p, 2int,
{
    match skip_value(s, p) {
        Ok(q) => if p < q <= s.len() { skip_after_item(s, q) } else { Ok(q) },
        Err(f) => Err(f),
    }
}

/// After an array element that ends at index `q`: a comma and more
/// elements, or the `]`.
#[verifier::opaque]
pub open spec fn skip_after_item(s: Seq<u8>, q: int) -> Result<int, Fail>
    decreases s.len() - q, 0int,
{
    if !(0 <= q <= s.len()) {
        Err(peek_fail(s, ErrorCode::EofWhileParsingList, q))
    } else {
        let m = ws_end(s, q);
        proof {
            lemma_ws_end(s, q);
        }
        if m >= s.len() {
            Err(peek_fail(s, ErrorCode::EofWhileParsingList, m))
        } else if s[m] == 44 {
            skip_items(s, m + 1)
        } else if s[m] == 93 {
            Ok(m + 1)
        } else {
            Err(peek_fail(s, ErrorCode::ExpectedListCommaOrEnd, m))
        }
    }
}

/// Skipping the rest of an object whose `{` is just before index `k`.
#[verifier::opaque]
pub open spec fn skip_object(s: Seq<u8>, k: int) -> Result<int, Fail>
    decreases s.len() - k, 3int,
{
    if !(0 <= k <= s.len()) {
        Err(peek_fail(s, ErrorCode::EofWhileParsingObject, k))
    } else {
        let m = ws_end(s, k);
        proof {
            lemma_ws_end(s, k);
        }
        if m >= s.len() {
            Err(peek_fail(s, ErrorCode::EofWhileParsingObject, m))
        } else if s[m] == 125 {
            Ok(m + 1)
        } else {
            skip_members(s, m)
        }
    }
}

/// Skipping object members, the first key (after optional whitespace) at
/// index `p`, and the `}` after them.
#[verifier::opaque]
pub open spec fn skip_members(s: Seq<u8>, p: int) -> Result<int, Fail>
    decreases s.len() - p, 2int,
{
    if !(0 <= p <= s.len()) {
        Err(peek_fail(s, ErrorCode::EofWhileParsingObject, p))
    } else {
        let j = ws_end(s, p);
        proof {
            lemma_ws_end(s, p);
        }
        if j >= s.len() {
            Err(peek_fail(s, ErrorCode::EofWhileParsingObject, j))
        } else if s[j] != 34 {
            Err(peek_fail(s, ErrorCode::KeyMustBeAString, j))
        } else {
            match spec_ignore_str(s, j + 1) {
                Err(f) => Err(f),
                Ok(q1) => {
                    let c = ws_end(s, q1);
                    if c >= s.len() {
                        Err(peek_fail(s, ErrorCode::EofWhileParsingObject, c))
                    } else if s[c] != 58 {
                        Err(peek_fail(s, ErrorCode::ExpectedColon, c))
                    } else if p <= c {
                        match skip_value(s, c + 1) {
                            Ok(q) => if p < q <= s.len() { skip_after_member(s, q) } else { Ok(q) },
                            Err(f) => Err(f),
                        }
                    } else {
                        Ok(c + 1)
                    }
                },
            }
        }
    }
}

/// After a member's value that ends at index `q`: a comma and more members,
/// or the `}`.
#[verifier::opaque]
pub open spec fn skip_after_member(s: Seq<u8>, q: int) -> Result<int, Fail>
    decreases s.len() - q, 0int,
{
    if !(0 <= q <= s.len()) {
        Err(peek_fail(s, ErrorCode::EofWhileParsingObject, q))
    } else {
        let m = ws_end(s, q);
        proof {
            lemma_ws_end(s, q);
        }
        if m >= s.len() {
            Err(peek_fail(s, ErrorCode::EofWhileParsingObject, m))
        } else if s[m] == 44 {
            skip_members(s, m + 1)
        } else if s[m] == 125 {
            Ok(m + 1)
        } else {
            Err(peek_fail(s, ErrorCode::ExpectedObjectCommaOrEnd, m))
        }
    }
}

/// Finishing the arrays and objects still open, innermost last in `stack`
/// (`[` or `{` each), after a value that ended at index `q`.
pub open spec fn skip_resume(s: Seq<u8>, q: int, stack: Seq<u8>) -> Result<int, Fail>
    decreases stack.len(),
{
    if stack.len() == 0 {
        Ok(q)
    } else {
        let r = if stack.last() == 91 { skip_after_item(s, q) } else { skip_after_member(s, q) };
        match r {
            Ok(q2) => skip_resume(s, q2, stack.drop_last()),
            Err(f) => Err(f),
        }
    }
}

/// A skip with result `r`, then finishing what `stack` holds open.
pub open spec fn skip_chain(s: Seq<u8>, r: Result<int, Fail>, stack: Seq<u8>) -> Result<int, Fail> {
    match r {
        Ok(q) => skip_resume(s, q, stack),
        Err(f) => Err(f),
    }
}

// Where each skip ends.

pub proof fn lemma_ident_bounds(s: Seq<u8>, i: int, ident: Seq<u8>)
    requires
        0 <= i <= s.len(),
    ensures
        spec_ident(s, i, ident) matches Ok(k) ==> k == i + ident.len() && k <= s.len(),
    decreases ident.len(),
{
    if ident.len() > 0 && i < s.len() && s[i] == ident[0] {
        lemma_ident_bounds(s, i + 1, ident.drop_first());
    }
}

pub proof fn lemma_ignore_str_bounds(s: Seq<u8>, i: int)
    requires
        0 <= i,
    ensures
        spec_ignore_str(s, i) matches Ok(j) ==> i < j <= s.len(),
    decreases s.len() - i,
{
    if 0 <= i < s.len() {
        if s[i] == 92 {
            if let Ok(j) = spec_ignore_escape(s, i + 1) {
                lemma_ignore_str_bounds(s, j);
            }
        } else if s[i] != 34 && s[i] >= 0x20 {
            lemma_ignore_str_bounds(s, i + 1);
        }
    }
}

pub proof fn lemma_ignore_exponent_bounds(s: Seq<u8>, k: int)
    requires
        0 <= k < s.len(),
    ensures
        spec_ignore_exponent(s, k) matches Ok(e) ==> k < e <= s.len(),
{
    let m = k + 1;
    let m2 = if m < s.len() && (s[m] == 43 || s[m] == 45) { m + 1 } else { m };
    if m2 < s.len() {
        lemma_digits_end(s, m2 + 1);
    }
}

pub proof fn lemma_ignore_decimal_bounds(s: Seq<u8>, k: int)
    requires
        0 <= k < s.len(),
    ensures
        spec_ignore_decimal(s, k) matches Ok(e) ==> k < e <= s.len(),
{
    lemma_digits_end(s, k + 1);
    let e = digits_end(s, k + 1);
    if e < s.len() {
        lemma_ignore_exponent_bounds(s, e);
    }
}

pub proof fn lemma_ignore_integer_bounds(s: Seq<u8>, i: int)
    requires
        0 <= i <= s.len(),
    ensures
        spec_ignore_integer(s, i) matches Ok(e) ==> i < e <= s.len(),
{
    if i < s.len() {
        lemma_digits_end(s, i + 1);
        let e = if s[i] == 48 { i + 1 } else { digits_end(s, i + 1) };
        if e < s.len() {
            lemma_ignore_decimal_bounds(s, e);
            lemma_ignore_exponent_bounds(s, e);
        }
    }
}

pub proof fn lemma_skip_scalar_bounds(s: Seq<u8>, j: int)
    requires
        0 <= j < s.len(),
    ensures
        skip_scalar(s, j) matches Ok(q) ==> j < q <= s.len(),
{
    lemma_ident_bounds(s, j + 1, seq![117u8, 108u8, 108u8]);
    lemma_ident_bounds(s, j + 1, seq![114u8, 117u8, 101u8]);
    lemma_ident_bounds(s, j + 1, seq![97u8, 108u8, 115u8, 101u8]);
    lemma_ignore_integer_bounds(s, j + 1);
    lemma_ignore_integer_bounds(s, j);
    lemma_ignore_str_bounds(s, j + 1);
}

pub proof fn lemma_skip_value_bounds(s: Seq<u8>, i: int)
    requires
        0 <= i <= s.len(),
    ensures
        skip_value(s, i) matches Ok(q) ==> i < q <= s.len(),
    decreases s.len() - i, 1int,
{
    reveal(skip_value);
    reveal(skip_array);
    reveal(skip_object);
    lemma_ws_end(s, i);
    let j = ws_end(s, i);
    if j < s.len() {
        if s[j] == 91 {
            lemma_skip_array_bounds(s, j + 1);
        } else if s[j] == 123 {
            lemma_skip_object_bounds(s, j + 1);
        } else {
            lemma_skip_scalar_bounds(s, j);
        }
    }
}

pub proof fn lemma_skip_array_bounds(s: Seq<u8>, k: int)
    requires
        0 <= k <= s.len(),
    ensures
        skip_array(s, k) matches Ok(q) ==> k < q <= s.len(),
    decreases s.len() - k, 3int,
{
    reveal(skip_array);
    reveal(skip_items);
    lemma_ws_end(s, k);
    let m = ws_end(s, k);
    if m < s.len() && s[m] != 93 {
        lemma_skip_items_bounds(s, m);
    }
}

pub proof fn lemma_skip_items_bounds(s: Seq<u8>, p: int)
    requires
        0 <= p <= s.len(),
    ensures
        skip_items(s, p) matches Ok(q) ==> p < q <= s.len(),
    decreases s.len() - p, 2int,
{
    reveal(skip_items);
    reveal(skip_value);
    reveal(skip_after_item);
    lemma_skip_value_bounds(s, p);
    if let Ok(q) = skip_value(s, p) {
        lemma_skip_after_item_bounds(s, q);
    }
}

pub proof fn lemma_skip_after_item_bounds(s: Seq<u8>, q: int)
    requires
        0 <= q <= s.len(),
    ensures
        skip_after_item(s, q) matches Ok(r) ==> q < r <= s.len(),
    decreases s.len() - q, 0int,
{
    reveal(skip_after_item);
    reveal(skip_items);
    lemma_ws_end(s, q);
    let m = ws_end(s, q);
    if m < s.len() && s[m] == 44 {
        lemma_skip_items_bounds(s, m + 1);
    }
}

pub proof fn lemma_skip_object_bounds(s: Seq<u8>, k: int)
    requires
        0 <= k <= s.len(),
    ensures
        skip_object(s, k) matches Ok(q) ==> k < q <= s.len(),
    decreases s.len() - k, 3int,
{
    reveal(skip_object);
    reveal(skip_members);
    lemma_ws_end(s, k);
    let m = ws_end(s, k);
    if m < s.len() && s[m] != 125 {
        lemma_skip_members_bounds(s, m);
    }
}

pub proof fn lemma_skip_members_bounds(s: Seq<u8>, p: int)
    requires
        0 <= p <= s.len(),
    ensures
        skip_members(s, p) matches Ok(q) ==> p < q <= s.len(),
    decreases s.len() - p, 2int,
{
    reveal(skip_members);
    reveal(skip_value);
    reveal(skip_after_member);
    lemma_ws_end(s, p);
    let j = ws_end(s, p);
    if j < s.len() && s[j] == 34 {
        lemma_ignore_str_bounds(s, j + 1);
        if let Ok(q1) = spec_ignore_str(s, j + 1) {
            lemma_ws_end(s, q1);
            let c = ws_end(s, q1);
            if c < s.len() && s[c] == 58 {
                lemma_skip_value_bounds(s, c + 1);
                if let Ok(q) = skip_value(s, c + 1) {
                    lemma_skip_after_member_bounds(s, q);
                }
            }
        }
    }
}

pub proof fn lemma_skip_after_member_bounds(s: Seq<u8>, q: int)
    requires
        0 <= q <= s.len(),
    ensures
        skip_after_member(s, q) matches Ok(r) ==> q < r <= s.len(),
    decreases s.len() - q, 0int,
{
    reveal(skip_after_member);
    reveal(skip_members);
    lemma_ws_end(s, q);
    let m = ws_end(s, q);
    if m < s.len() && s[m] == 44 {
        lemma_skip_members_bounds(s, m + 1);
    }
}

// The skipping functions, one step at a time.

/// The rest of an array or object whose opening byte `f` is just before `k`.
pub open spec fn skip_open(s: Seq<u8>, f: u8, k: int) -> Result<int, Fail> {
    if f == 91 { skip_array(s, k) } else { skip_object(s, k) }
}

/// After an element or member's value, in an array or object opened by `f`.
pub open spec fn skip_after(s: Seq<u8>, f: u8, q: int) -> Result<int, Fail> {
    if f == 91 { skip_after_item(s, q) } else { skip_after_member(s, q) }
}

/// Elements or members, in an array or object opened by `f`, from `p` on.
pub open spec fn skip_more(s: Seq<u8>, f: u8, p: int) -> Result<int, Fail> {
    if f == 91 { skip_items(s, p) } else { skip_members(s, p) }
}

/// The value of a member at index `v`, then what follows it.
pub open spec fn skip_member_value(s: Seq<u8>, v: int) -> Result<int, Fail> {
    match skip_value(s, v) {
        Ok(q) => skip_after_member(s, q),
        Err(f) => Err(f),
    }
}

pub proof fn lemma_skip_value_unfold(s: Seq<u8>, i: int)
    requires
        0 <= i <= s.len(),
    ensures
        skip_value(s, i) === ({
            let j = ws_end(s, i);
            if j >= s.len() {
                Err(peek_fail(s, ErrorCode::EofWhileParsingValue, j))
            } else if s[j] == 91 {
                skip_array(s, j + 1)
            } else if s[j] == 123 {
                skip_object(s, j + 1)
            } else {
                skip_scalar(s, j)
            }
        }),
{
    reveal(skip_value);
    reveal(skip_array);
    reveal(skip_object);
}

pub proof fn lemma_skip_open_unfold(s: Seq<u8>, f: u8, k: int)
    requires
        0 <= k <= s.len(),
    ensures
        skip_open(s, f, k) === ({
            let m = ws_end(s, k);
            if m >= s.len() {
                Err(peek_fail(s, if f == 91 { ErrorCode::EofWhileParsingList } else { ErrorCode::EofWhileParsingObject }, m))
            } else if (f == 91 && s[m] == 93) || (f != 91 && s[m] == 125) {
                Ok(m + 1)
            } else {
                skip_more(s, f, m)
            }
        }),
{
    reveal(skip_array);
    reveal(skip_items);
    reveal(skip_object);
    reveal(skip_members);
}

pub proof fn lemma_skip_after_unfold(s: Seq<u8>, f: u8, q: int)
    requires
        0 <= q <= s.len(),
    ensures
        skip_after(s, f, q) === ({
            let m = ws_end(s, q);
            if m >= s.len() {
                Err(peek_fail(s, if f == 91 { ErrorCode::EofWhileParsingList } else { ErrorCode::EofWhileParsingObject }, m))
            } else if s[m] == 44 {
                skip_more(s, f, m + 1)
            } else if (f == 91 && s[m] == 93) || (f != 91 && s[m] == 125) {
                Ok(m + 1)
            } else {
                Err(peek_fail(s, if f == 91 { ErrorCode::ExpectedListCommaOrEnd } else { ErrorCode::ExpectedObjectCommaOrEnd }, m))
            }
        }),
{
    reveal(skip_after_item);
    reveal(skip_items);
    reveal(skip_after_member);
    reveal(skip_members);
}

pub proof fn lemma_skip_members_unfold(s: Seq<u8>, p: int)
    requires
        0 <= p <= s.len(),
    ensures
        skip_members(s, p) === ({
            let j = ws_end(s, p);
            if j >= s.len() {
                Err(peek_fail(s, ErrorCode::EofWhileParsingObject, j))
            } else if s[j] != 34 {
                Err(peek_fail(s, ErrorCode::KeyMustBeAString, j))
            } else {
                match spec_ignore_str(s, j + 1) {
                    Err(f) => Err(f),
                    Ok(q1) => {
                        let c = ws_end(s, q1);
                        if c >= s.len() {
                            Err(peek_fail(s, ErrorCode::EofWhileParsingObject, c))
                        } else if s[c] != 58 {
                            Err(peek_fail(s, ErrorCode::ExpectedColon, c))
                        } else {
                            skip_member_value(s, c + 1)
                        }
                    },
                }
            }
        }),
{
    reveal(skip_members);
    reveal(skip_value);
    reveal(skip_after_member);
    lemma_ws_end(s, p);
    let j = ws_end(s, p);
    if j < s.len() && s[j] == 34 {
        lemma_ignore_str_bounds(s, j + 1);
        if let Ok(q1) = spec_ignore_str(s, j + 1) {
            lemma_ws_end(s, q1);
            let c = ws_end(s, q1);
            if c < s.len() && s[c] == 58 {
                lemma_skip_value_bounds(s, c + 1);
            }
        }
    }
}

/// Elements to skip, then the enclosing frames: the same as the first
/// element, then the array and the enclosing frames.
pub proof fn lemma_skip_items_chain(s: Seq<u8>, p: int, stack: Seq<u8>)
    requires
        0 <= p <= s.len(),
    ensures
        skip_chain(s, skip_items(s, p), stack) == skip_chain(s, skip_value(s, p), stack.push(91u8)),
{
    reveal(skip_items);
    reveal(skip_value);
    reveal(skip_after_item);
    lemma_skip_value_bounds(s, p);
    assert(stack.push(91u8).drop_last() =~= stack);
}

/// A member's value to skip and what follows it, then the enclosing frames:
/// the same as the value, then the object (any frame but `[`) and the
/// enclosing frames.
pub proof fn lemma_skip_member_value_chain(s: Seq<u8>, v: int, stack: Seq<u8>, f: u8)
    requires
        f != 91,
    ensures
        skip_chain(s, skip_member_value(s, v), stack) == skip_chain(s, skip_value(s, v), stack.push(f)),
{
    assert(stack.push(f).drop_last() =~= stack);
}

} // verus!
