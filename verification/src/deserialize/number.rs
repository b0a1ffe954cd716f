use vstd::prelude::*;
use crate::json::number::{
    FloatParts, ParserNumber, is_digit, integer_text, integer_text_value, lemma_parse_integer_text,
};
use crate::json::value::{Token, spec_document, spec_scalar, lemma_value_unfold};
use crate::json::de::ws_end;
use crate::opt::{Opt, BIG_INTEGER};

verus! {

/// What a number read from a document becomes.
#[derive(Clone, Copy, Debug, PartialEq, Eq, Structural)]
pub enum NumberValue {
    /// An integer that fits in 64 bits without a sign.
    Unsigned(u64),
    /// A negative integer that fits in 64 bits.
    Signed(i64),
    /// An integer beyond 64 bits, made exactly from its text `start..end`.
    BigInt { start: usize, end: usize },
    /// A float, made from the text of the number.
    Float(FloatParts),
}

/// What a number read from the document `text` becomes under the options:
/// with big integers asked for, a number outside 64 bits whose text is an
/// integer stays an integer; every other such number is a float.
pub open spec fn spec_number_value(text: Seq<u8>, n: ParserNumber, opts: Opt) -> NumberValue {
    match n {
        ParserNumber::U64(v) => NumberValue::Unsigned(v),
        ParserNumber::I64(v) => NumberValue::Signed(v),
        ParserNumber::F64(p) => if opts & BIG_INTEGER != 0 && p.start <= p.end <= text.len() && integer_text(
            text.subrange(p.start as int, p.end as int),
        ) {
            NumberValue::BigInt { start: p.start, end: p.end }
        } else {
            NumberValue::Float(p)
        },
    }
}

/// The integer that a number becomes, when it becomes an integer.
pub open spec fn integer_of(text: Seq<u8>, v: NumberValue) -> Option<int> {
    match v {
        NumberValue::Unsigned(x) => Some(x as int),
        NumberValue::Signed(x) => Some(x as int),
        NumberValue::BigInt { start, end } => Some(integer_text_value(text.subrange(start as int, end as int))),
        NumberValue::Float(_) => None,
    }
}

/// Whether `text[start..end]` is the text of an integer.
pub(crate) fn is_integer_text(text: &[u8], start: usize, end: usize) -> (r: bool)
    requires
        start <= end <= text@.len(),
    ensures
        r == integer_text(text@.subrange(start as int, end as int)),
{
    let ghost t = text@.subrange(start as int, end as int);
    if start == end {
        return false;
    }
    let a: usize = if text[start] == 45u8 { start + 1 } else { start };
    if a == end {
        return false;
    }
    let mut k: usize = a;
    while k < end
        invariant
            a <= k <= end <= text@.len(),
            start < end,
            a == (if text@[start as int] == 45 { start + 1 } else { start as int }),
            t == text@.subrange(start as int, end as int),
            forall|i: int| a <= i < k ==> is_digit(#[trigger] text@[i]),
        decreases end - k,
    {
        if !(48u8 <= text[k] && text[k] <= 57u8) {
            proof {
                assert(t[0] == text@[start as int]);
                assert(t[k - start] == text@[k as int]);
                assert(!is_digit(t[k - start]));
            }
            return false;
        }
        k = k + 1;
    }
    proof {
        assert forall|i: int| (a - start) <= i < t.len() implies is_digit(#[trigger] t[i]) by {
            assert(t[i] == text@[i + start]);
        }
    }
    !(text[a] == 48u8 && end - a > 1)
}

/// What a number read from the document `text` becomes under the options.
pub fn number_value(text: &[u8], n: ParserNumber, opts: Opt) -> (r: NumberValue)
    ensures
        r == spec_number_value(text@, n, opts),
{
    match n {
        ParserNumber::U64(v) => NumberValue::Unsigned(v),
        ParserNumber::I64(v) => NumberValue::Signed(v),
        ParserNumber::F64(p) => {
            if opts & BIG_INTEGER != 0 && p.start <= p.end && p.end <= text.len() && is_integer_text(
                text,
                p.start,
                p.end,
            ) {
                NumberValue::BigInt { start: p.start, end: p.end }
            } else {
                NumberValue::Float(p)
            }
        },
    }
}

/// An integer written as its decimal text reads back as the same integer
/// when big integers are asked for, however many digits it has.
pub proof fn lemma_integer_text_read_back(t: Seq<u8>, nan: bool)
    requires
        integer_text(t),
        t.len() <= usize::MAX,
    ensures
        spec_document(t, nan) matches Ok(toks) && toks.len() == 1 && (toks[0] matches Token::Number(n) && (integer_of(
            t,
            spec_number_value(t, n, BIG_INTEGER),
        ) == Some(integer_text_value(t)))),
{
    lemma_value_unfold(t, 0, 128, false, nan);
    assert(ws_end(t, 0) == 0);
    reveal(spec_scalar);
    assert(t[0] != 110);
    lemma_parse_integer_text(t);
    assert(ws_end(t, t.len() as int) == t.len());
    assert(t.subrange(0, t.len() as int) =~= t);
    assert(BIG_INTEGER & BIG_INTEGER != 0) by (bit_vector);
}

} // verus!
