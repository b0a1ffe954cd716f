use vstd::prelude::*;
use super::error::ErrorCode;
use super::read::{Fail, fail_at, spec_parse_str};
use super::number::{ParserNumber, is_digit, peek_fail, spec_parse_integer};
use super::de::{ws_end, lemma_ws_end, spec_ident, spec_end_seq, spec_end_map, spec_object_colon, spec_end};

verus! {

/// One step of a JSON document read in order: a scalar, or the start or end
/// of an array or object, or an object key.
#[derive(Debug)]
pub enum Event {
    Null,
    Bool(bool),
    Number(ParserNumber),
    Str(Vec<u8>),
    StartArray,
    EndArray,
    StartObject,
    Key(Vec<u8>),
    EndObject,
}

/// The mathematical value of an [`Event`]: strings as sequences of bytes.
pub enum Token {
    Null,
    Bool(bool),
    Number(ParserNumber),
    Str(Seq<u8>),
    StartArray,
    EndArray,
    StartObject,
    Key(Seq<u8>),
    EndObject,
}

impl View for Event {
    type V = Token;

    open spec fn view(&self) -> Token {
        match self {
            Event::Null => Token::Null,
            Event::Bool(b) => Token::Bool(*b),
            Event::Number(n) => Token::Number(*n),
            Event::Str(v) => Token::Str(v@),
            Event::StartArray => Token::StartArray,
            Event::EndArray => Token::EndArray,
            Event::StartObject => Token::StartObject,
            Event::Key(v) => Token::Key(v@),
            Event::EndObject => Token::EndObject,
        }
    }
}

/// The tokens of a sequence of events.
pub open spec fn tokens(v: Seq<Event>) -> Seq<Token> {
    v.map_values(|e: Event| e@)
}

/// Where the reader stopped, whether it succeeded or not.
pub open spec fn stop_of(r: Result<int, Fail>) -> int {
    match r {
        Ok(j) => j,
        Err((_, j)) => j,
    }
}

/// A one-token result.
pub open spec fn single(r: Result<int, Fail>, t: Token) -> Result<(Seq<Token>, int), Fail> {
    match r {
        Ok(k) => Ok((seq![t], k)),
        Err(f) => Err(f),
    }
}

/// Reading one JSON value whose text starts at index `i` (after optional
/// whitespace), with nesting depth `d` still allowed (`u`: unlimited) and
/// `nan` read as `null` when `nan` is set: the
/// tokens it holds, in order, and the index after it. Inside an array or
/// object, a failure still lets the reader look for the closing bracket,
/// and the index it stops at is where that look ends.
#[verifier::opaque]
pub open spec fn spec_value(s: Seq<u8>, i: int, d: int, u: bool, nan: bool) -> Result<(Seq<Token>, int), Fail>
    decreases s.len() - i, 1int,
{
    if !(0 <= i <= s.len()) {
        Err(fail_at(s, ErrorCode::EofWhileParsingValue, i, i))
    } else {
        let j = ws_end(s, i);
        proof {
            lemma_ws_end(s, i);
        }
        if j >= s.len() {
            Err(peek_fail(s, ErrorCode::EofWhileParsingValue, j))
        } else {
            let c = s[j];
            if c == 91 {
                spec_array(s, j, d, u, nan)
            } else if c == 123 {
                spec_object(s, j, d, u, nan)
            } else {
                spec_scalar(s, j, nan)
            }
        }
    }
}

/// Closing an array whose elements were read with result `r`: the `]` is
/// looked for even after a failure.
pub open spec fn array_close(s: Seq<u8>, r: Result<(Seq<Token>, int), Fail>) -> Result<(Seq<Token>, int), Fail> {
    match r {
        Ok((t, k)) => match spec_end_seq(s, k) {
            Ok(m) => Ok((seq![Token::StartArray] + t + seq![Token::EndArray], m)),
            Err(f) => Err(f),
        },
        Err((e, k)) => Err((e, stop_of(spec_end_seq(s, k)))),
    }
}

/// Closing an object whose members were read with result `r`.
pub open spec fn object_close(s: Seq<u8>, r: Result<(Seq<Token>, int), Fail>) -> Result<(Seq<Token>, int), Fail> {
    match r {
        Ok((t, k)) => match spec_end_map(s, k) {
            Ok(m) => Ok((seq![Token::StartObject] + t + seq![Token::EndObject], m)),
            Err(f) => Err(f),
        },
        Err((e, k)) => Err((e, stop_of(spec_end_map(s, k)))),
    }
}

/// Reading an array whose `[` is at index `j`, one level deeper.
#[verifier::opaque]
pub open spec fn spec_array(s: Seq<u8>, j: int, d: int, u: bool, nan: bool) -> Result<(Seq<Token>, int), Fail>
    decreases s.len() - j, 0int,
{
    if !(0 <= j < s.len()) {
        Err(fail_at(s, ErrorCode::EofWhileParsingValue, j, j))
    } else if !u && d <= 1 {
        Err(peek_fail(s, ErrorCode::RecursionLimitExceeded, j))
    } else {
        array_close(s, spec_elements(s, j + 1, true, if u { d } else { d - 1 }, u, nan))
    }
}

/// Reading an object whose `{` is at index `j`, one level deeper.
#[verifier::opaque]
pub open spec fn spec_object(s: Seq<u8>, j: int, d: int, u: bool, nan: bool) -> Result<(Seq<Token>, int), Fail>
    decreases s.len() - j, 0int,
{
    if !(0 <= j < s.len()) {
        Err(fail_at(s, ErrorCode::EofWhileParsingValue, j, j))
    } else if !u && d <= 1 {
        Err(peek_fail(s, ErrorCode::RecursionLimitExceeded, j))
    } else {
        object_close(s, spec_members(s, j + 1, true, if u { d } else { d - 1 }, u, nan))
    }
}

/// Reading a value that is not an array or object, whose first byte is at
/// index `j`: a literal, a number, or a string; anything else is no value.
/// With `nan`, the bare token `nan` is read as `null`.
#[verifier::opaque]
pub open spec fn spec_scalar(s: Seq<u8>, j: int, nan: bool) -> Result<(Seq<Token>, int), Fail> {
    let c = s[j];
    if c == 110 {
        if nan && j + 1 < s.len() && s[j + 1] == 97 {
            single(spec_ident(s, j + 1, seq![97u8, 110u8]), Token::Null)
        } else {
            single(spec_ident(s, j + 1, seq![117u8, 108u8, 108u8]), Token::Null)
        }
    } else if c == 116 {
        single(spec_ident(s, j + 1, seq![114u8, 117u8, 101u8]), Token::Bool(true))
    } else if c == 102 {
        single(spec_ident(s, j + 1, seq![97u8, 108u8, 115u8, 101u8]), Token::Bool(false))
    } else if c == 45 || is_digit(c) {
        match spec_parse_integer(s, c != 45, if c == 45 { j + 1 } else { j }) {
            Ok((n, k)) => Ok((seq![Token::Number(n)], k)),
            Err(f) => Err(f),
        }
    } else if c == 34 {
        match spec_parse_str(s, j + 1) {
            Ok((b, k)) => Ok((seq![Token::Str(b)], k)),
            Err(f) => Err(f),
        }
    } else {
        Err(peek_fail(s, ErrorCode::ExpectedSomeValue, j))
    }
}

/// The elements of an array from index `i` on (`first`: none read yet):
/// their tokens, and the index of the `]` that ends them (not read).
#[verifier::opaque]
pub open spec fn spec_elements(s: Seq<u8>, i: int, first: bool, d: int, u: bool, nan: bool) -> Result<
    (Seq<Token>, int),
    Fail,
>
    decreases s.len() - i, 3int,
{
    if !(0 <= i <= s.len()) {
        Err(fail_at(s, ErrorCode::EofWhileParsingList, i, i))
    } else {
        let j = ws_end(s, i);
        proof {
            lemma_ws_end(s, i);
        }
        if j >= s.len() {
            Err(peek_fail(s, ErrorCode::EofWhileParsingList, j))
        } else if s[j] == 93 {
            Ok((seq![], j))
        } else if s[j] == 44 && !first {
            let k = ws_end(s, j + 1);
            proof {
                lemma_ws_end(s, j + 1);
            }
            if k >= s.len() {
                Err(peek_fail(s, ErrorCode::EofWhileParsingValue, k))
            } else if s[k] == 93 {
                Err(peek_fail(s, ErrorCode::TrailingComma, k))
            } else {
                spec_element(s, k, d, u, nan)
            }
        } else if first {
            spec_element(s, j, d, u, nan)
        } else {
            Err(peek_fail(s, ErrorCode::ExpectedListCommaOrEnd, j))
        }
    }
}

/// An array element whose text starts at index `p`, and the elements after it.
#[verifier::opaque]
pub open spec fn spec_element(s: Seq<u8>, p: int, d: int, u: bool, nan: bool) -> Result<(Seq<Token>, int), Fail>
    decreases s.len() - p, 2int,
{
    match spec_value(s, p, d, u, nan) {
        Ok((t, q)) => if p < q <= s.len() {
            match spec_elements(s, q, false, d, u, nan) {
                Ok((t2, q2)) => Ok((t + t2, q2)),
                Err(f) => Err(f),
            }
        } else {
            Ok((t, q))
        },
        Err(f) => Err(f),
    }
}

/// The members of an object from index `i` on (`first`: none read yet):
/// their tokens (each key, then its value), and the index of the `}` that
/// ends them (not read).
#[verifier::opaque]
pub open spec fn spec_members(s: Seq<u8>, i: int, first: bool, d: int, u: bool, nan: bool) -> Result<
    (Seq<Token>, int),
    Fail,
>
    decreases s.len() - i, 3int,
{
    if !(0 <= i <= s.len()) {
        Err(fail_at(s, ErrorCode::EofWhileParsingObject, i, i))
    } else {
        let j = ws_end(s, i);
        proof {
            lemma_ws_end(s, i);
        }
        if j >= s.len() {
            Err(peek_fail(s, ErrorCode::EofWhileParsingObject, j))
        } else if s[j] == 125 {
            Ok((seq![], j))
        } else if s[j] == 44 && !first {
            let k = ws_end(s, j + 1);
            proof {
                lemma_ws_end(s, j + 1);
            }
            if k >= s.len() {
                Err(peek_fail(s, ErrorCode::EofWhileParsingValue, k))
            } else if s[k] == 34 {
                spec_member(s, k, d, u, nan)
            } else if s[k] == 125 {
                Err(peek_fail(s, ErrorCode::TrailingComma, k))
            } else {
                Err(peek_fail(s, ErrorCode::KeyMustBeAString, k))
            }
        } else if first {
            if s[j] == 34 {
                spec_member(s, j, d, u, nan)
            } else {
                Err(peek_fail(s, ErrorCode::KeyMustBeAString, j))
            }
        } else {
            Err(peek_fail(s, ErrorCode::ExpectedObjectCommaOrEnd, j))
        }
    }
}

/// An object member whose key's opening quote is at index `p`, and the
/// members after it.
#[verifier::opaque]
pub open spec fn spec_member(s: Seq<u8>, p: int, d: int, u: bool, nan: bool) -> Result<(Seq<Token>, int), Fail>
    decreases s.len() - p, 2int,
{
    match spec_parse_str(s, p + 1) {
        Err(f) => Err(f),
        Ok((key, q1)) => match spec_object_colon(s, q1) {
            Err(f) => Err(f),
            Ok(q2) => if p < q2 <= s.len() {
                match spec_value(s, q2, d, u, nan) {
                    Err(f) => Err(f),
                    Ok((t, q3)) => if p < q3 <= s.len() {
                        match spec_members(s, q3, false, d, u, nan) {
                            Ok((t2, q4)) => Ok((seq![Token::Key(key)] + t + t2, q4)),
                            Err(f) => Err(f),
                        }
                    } else {
                        Ok((t, q3))
                    },
                }
            } else {
                Ok((seq![], q2))
            },
        },
    }
}

/// `b` begins with `a`.
pub open spec fn extends(a: Seq<Token>, b: Seq<Token>) -> bool {
    a.len() <= b.len() && b.subrange(0, a.len() as int) == a
}

/// Puts `acc` before the tokens of a successful read.
pub open spec fn after(acc: Seq<Token>, r: Result<(Seq<Token>, int), Fail>) -> Result<(Seq<Token>, int), Fail> {
    match r {
        Ok((t, q)) => Ok((acc + t, q)),
        Err(f) => Err(f),
    }
}

pub proof fn lemma_after_empty(r: Result<(Seq<Token>, int), Fail>)
    ensures
        after(seq![], r) == r,
{
    match r {
        Ok((t, q)) => {
            assert(seq![] + t =~= t);
        },
        Err(_) => {},
    }
}

pub proof fn lemma_tokens_push(v: Seq<Event>, e: Event)
    ensures
        tokens(v.push(e)) == tokens(v).push(e@),
{
    assert(tokens(v.push(e)) =~= tokens(v).push(e@));
}

pub proof fn lemma_extends_trans(a: Seq<Token>, b: Seq<Token>, c: Seq<Token>)
    requires
        extends(a, b),
        extends(b, c),
    ensures
        extends(a, c),
{
    assert(c.subrange(0, a.len() as int) =~= b.subrange(0, a.len() as int));
}

pub proof fn lemma_extends_append(a: Seq<Token>, t: Seq<Token>)
    ensures
        extends(a, a + t),
{
    assert((a + t).subrange(0, a.len() as int) =~= a);
}

pub proof fn lemma_after_after(a: Seq<Token>, b: Seq<Token>, r: Result<(Seq<Token>, int), Fail>)
    ensures
        after(a, after(b, r)) == after(a + b, r),
{
    match r {
        Ok((t, q)) => {
            assert(a + (b + t) =~= (a + b) + t);
        },
        Err(_) => {},
    }
}

// One step of each reading function of the grammar above.

pub proof fn lemma_value_unfold(s: Seq<u8>, i: int, d: int, u: bool, nan: bool)
    requires
        0 <= i <= s.len(),
    ensures
        spec_value(s, i, d, u, nan) === ({
            let j = ws_end(s, i);
            if j >= s.len() {
                Err(peek_fail(s, ErrorCode::EofWhileParsingValue, j))
            } else if s[j] == 91 {
                spec_array(s, j, d, u, nan)
            } else if s[j] == 123 {
                spec_object(s, j, d, u, nan)
            } else {
                spec_scalar(s, j, nan)
            }
        }),
{
    reveal(spec_value);
    reveal(spec_array);
    reveal(spec_object);
}

pub proof fn lemma_array_unfold(s: Seq<u8>, j: int, d: int, u: bool, nan: bool)
    requires
        0 <= j < s.len(),
    ensures
        spec_array(s, j, d, u, nan) === if !u && d <= 1 {
            Err(peek_fail(s, ErrorCode::RecursionLimitExceeded, j))
        } else {
            array_close(s, spec_elements(s, j + 1, true, if u { d } else { d - 1 }, u, nan))
        },
{
    reveal(spec_array);
    reveal(spec_elements);
}

pub proof fn lemma_object_unfold(s: Seq<u8>, j: int, d: int, u: bool, nan: bool)
    requires
        0 <= j < s.len(),
    ensures
        spec_object(s, j, d, u, nan) === if !u && d <= 1 {
            Err(peek_fail(s, ErrorCode::RecursionLimitExceeded, j))
        } else {
            object_close(s, spec_members(s, j + 1, true, if u { d } else { d - 1 }, u, nan))
        },
{
    reveal(spec_object);
    reveal(spec_members);
}

pub proof fn lemma_elements_unfold(s: Seq<u8>, i: int, first: bool, d: int, u: bool, nan: bool)
    requires
        0 <= i <= s.len(),
    ensures
        spec_elements(s, i, first, d, u, nan) === ({
            let j = ws_end(s, i);
            if j >= s.len() {
                Err(peek_fail(s, ErrorCode::EofWhileParsingList, j))
            } else if s[j] == 93 {
                Ok((seq![], j))
            } else if s[j] == 44 && !first {
                let k = ws_end(s, j + 1);
                if k >= s.len() {
                    Err(peek_fail(s, ErrorCode::EofWhileParsingValue, k))
                } else if s[k] == 93 {
                    Err(peek_fail(s, ErrorCode::TrailingComma, k))
                } else {
                    spec_element(s, k, d, u, nan)
                }
            } else if first {
                spec_element(s, j, d, u, nan)
            } else {
                Err(peek_fail(s, ErrorCode::ExpectedListCommaOrEnd, j))
            }
        }),
{
    reveal(spec_elements);
    reveal(spec_element);
}

pub proof fn lemma_element_unfold(s: Seq<u8>, p: int, d: int, u: bool, nan: bool)
    ensures
        spec_element(s, p, d, u, nan) === match spec_value(s, p, d, u, nan) {
            Ok((t, q)) => if p < q <= s.len() { after(t, spec_elements(s, q, false, d, u, nan)) } else { Ok((t, q)) },
            Err(f) => Err(f),
        },
{
    reveal(spec_element);
    reveal(spec_value);
    reveal(spec_elements);
}

pub proof fn lemma_members_unfold(s: Seq<u8>, i: int, first: bool, d: int, u: bool, nan: bool)
    requires
        0 <= i <= s.len(),
    ensures
        spec_members(s, i, first, d, u, nan) === ({
            let j = ws_end(s, i);
            if j >= s.len() {
                Err(peek_fail(s, ErrorCode::EofWhileParsingObject, j))
            } else if s[j] == 125 {
                Ok((seq![], j))
            } else if s[j] == 44 && !first {
                let k = ws_end(s, j + 1);
                if k >= s.len() {
                    Err(peek_fail(s, ErrorCode::EofWhileParsingValue, k))
                } else if s[k] == 34 {
                    spec_member(s, k, d, u, nan)
                } else if s[k] == 125 {
                    Err(peek_fail(s, ErrorCode::TrailingComma, k))
                } else {
                    Err(peek_fail(s, ErrorCode::KeyMustBeAString, k))
                }
            } else if first {
                if s[j] == 34 {
                    spec_member(s, j, d, u, nan)
                } else {
                    Err(peek_fail(s, ErrorCode::KeyMustBeAString, j))
                }
            } else {
                Err(peek_fail(s, ErrorCode::ExpectedObjectCommaOrEnd, j))
            }
        }),
{
    reveal(spec_members);
    reveal(spec_member);
}

pub proof fn lemma_member_unfold(s: Seq<u8>, p: int, d: int, u: bool, nan: bool)
    ensures
        spec_member(s, p, d, u, nan) === match spec_parse_str(s, p + 1) {
            Err(f) => Err(f),
            Ok((key, q1)) => match spec_object_colon(s, q1) {
                Err(f) => Err(f),
                Ok(q2) => if p < q2 <= s.len() {
                    match spec_value(s, q2, d, u, nan) {
                        Err(f) => Err(f),
                        Ok((t, q3)) => if p < q3 <= s.len() {
                            after(seq![Token::Key(key)] + t, spec_members(s, q3, false, d, u, nan))
                        } else {
                            Ok((t, q3))
                        },
                    }
                } else {
                    Ok((seq![], q2))
                },
            },
        },
{
    reveal(spec_member);
    reveal(spec_value);
    reveal(spec_members);
}

/// Reading a whole document: one value, then nothing but whitespace
/// (`nan`: the token `nan` reads as `null`).
pub open spec fn spec_document(s: Seq<u8>, nan: bool) -> Result<Seq<Token>, Fail> {
    match spec_value(s, 0, 128, false, nan) {
        Ok((t, q)) => match spec_end(s, q) {
            Ok(_) => Ok(t),
            Err(f) => Err(f),
        },
        Err(f) => Err(f),
    }
}

/// The document `[]` reads as an empty array.
pub proof fn lemma_empty_array(s: Seq<u8>, nan: bool)
    requires
        s == seq![91u8, 93u8],
    ensures
        spec_document(s, nan) == Ok::<Seq<Token>, Fail>(seq![Token::StartArray, Token::EndArray]),
{
    lemma_value_unfold(s, 0, 128, false, nan);
    lemma_array_unfold(s, 0, 128, false, nan);
    lemma_elements_unfold(s, 1, true, 127, false, nan);
    assert(seq![Token::StartArray] + seq![] + seq![Token::EndArray] =~= seq![Token::StartArray, Token::EndArray]);
}

/// The document `{}` reads as an empty object.
pub proof fn lemma_empty_object(s: Seq<u8>, nan: bool)
    requires
        s == seq![123u8, 125u8],
    ensures
        spec_document(s, nan) == Ok::<Seq<Token>, Fail>(seq![Token::StartObject, Token::EndObject]),
{
    lemma_value_unfold(s, 0, 128, false, nan);
    lemma_object_unfold(s, 0, 128, false, nan);
    lemma_members_unfold(s, 1, true, 127, false, nan);
    assert(seq![Token::StartObject] + seq![] + seq![Token::EndObject] =~= seq![Token::StartObject, Token::EndObject]);
}

/// The document `""` reads as the empty string.
pub proof fn lemma_empty_string(s: Seq<u8>, nan: bool)
    requires
        s == seq![34u8, 34u8],
    ensures
        spec_document(s, nan) == Ok::<Seq<Token>, Fail>(seq![Token::Str(seq![])]),
{
    lemma_value_unfold(s, 0, 128, false, nan);
    reveal(spec_scalar);
    assert(vstd::utf8::valid_utf8(seq![]));
}

} // verus!
